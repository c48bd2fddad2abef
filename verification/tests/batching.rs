use stream_processing::{BatchOutcome, LoopAction, LoopEvent, LoopPhase, ProcessorConfig, ProcessorLoop};

fn config(batch_size: usize, batch_timeout: u64) -> ProcessorConfig {
    ProcessorConfig {
        buffer_size: 100,
        worker_count: 1,
        processing_timeout: 500,
        batch_size,
        batch_timeout,
    }
}

fn expect_process<T>(action: LoopAction<T>) -> (Vec<T>, u64) {
    match action {
        LoopAction::Process { batch, timeout_ns } => (batch, timeout_ns),
        LoopAction::Wait { .. } => panic!("expected a batch, got a wait"),
        LoopAction::Stop => panic!("expected a batch, got stop"),
    }
}

fn expect_wait<T>(action: LoopAction<T>) -> Option<u64> {
    match action {
        LoopAction::Wait { timer_ns } => timer_ns,
        LoopAction::Process { .. } => panic!("expected a wait, got a batch"),
        LoopAction::Stop => panic!("expected a wait, got stop"),
    }
}

fn expect_stop<T>(action: LoopAction<T>) {
    match action {
        LoopAction::Stop => {}
        LoopAction::Wait { .. } => panic!("expected stop, got a wait"),
        LoopAction::Process { .. } => panic!("expected stop, got a batch"),
    }
}

fn completed(outcome: BatchOutcome, elapsed_ms: u64) -> LoopEvent<u32> {
    LoopEvent::Completed { outcome, elapsed_ms }
}

#[test]
fn full_batch_is_handed_out() {
    let mut l: ProcessorLoop<u32> = ProcessorLoop::new(&config(2, 100), 0);
    assert_eq!(expect_wait(l.poll(0)), None);
    assert_eq!(expect_wait(l.step(LoopEvent::Received(1), 10)), Some(100));
    let (batch, timeout) = expect_process(l.step(LoopEvent::Received(2), 20));
    assert_eq!(batch, vec![1, 2]);
    assert_eq!(timeout, 500);
    assert_eq!(l.phase(), LoopPhase::Processing { count: 2, last: false });
    assert_eq!(expect_wait(l.step(completed(BatchOutcome::Succeeded, 40), 60)), None);
    assert_eq!(l.metrics(), (2, 0, 0, 40));
    assert_eq!(l.phase(), LoopPhase::Receiving);
}

#[test]
fn timer_flushes_partial_batch() {
    let mut l: ProcessorLoop<u32> = ProcessorLoop::new(&config(10, 100), 0);
    assert_eq!(expect_wait(l.step(LoopEvent::Received(7), 0)), Some(100));
    assert_eq!(expect_wait(l.step(LoopEvent::Received(8), 30)), Some(70));
    let (batch, _) = expect_process(l.step(LoopEvent::TimerFired, 100));
    assert_eq!(batch, vec![7, 8]);
    assert_eq!(expect_wait(l.step(completed(BatchOutcome::Failed, 5), 110)), None);
    assert_eq!(l.metrics(), (0, 2, 0, 0));
}

#[test]
fn timer_without_pending_events_keeps_waiting() {
    let mut l: ProcessorLoop<u32> = ProcessorLoop::new(&config(10, 100), 0);
    assert_eq!(expect_wait(l.poll(0)), None);
    assert_eq!(expect_wait(l.step(LoopEvent::TimerFired, 500)), None);
    assert_eq!(l.phase(), LoopPhase::Receiving);
}

#[test]
fn overdue_batch_is_handed_out_on_arrival() {
    let mut l: ProcessorLoop<u32> = ProcessorLoop::new(&config(10, 100), 0);
    assert_eq!(expect_wait(l.step(LoopEvent::Received(1), 0)), Some(100));
    let (batch, _) = expect_process(l.step(LoopEvent::Received(2), 150));
    assert_eq!(batch, vec![1, 2]);
}

#[test]
fn batch_clock_restarts_after_a_batch() {
    let mut l: ProcessorLoop<u32> = ProcessorLoop::new(&config(10, 100), 0);
    assert_eq!(expect_wait(l.step(LoopEvent::Received(1), 0)), Some(100));
    expect_process(l.step(LoopEvent::TimerFired, 100));
    assert_eq!(expect_wait(l.step(completed(BatchOutcome::Succeeded, 3), 500)), None);
    assert_eq!(expect_wait(l.step(LoopEvent::Received(2), 520)), Some(100));
    assert_eq!(expect_wait(l.step(LoopEvent::Received(3), 570)), Some(50));
}

#[test]
fn shutdown_flushes_pending_batch_then_stops() {
    let mut l: ProcessorLoop<u32> = ProcessorLoop::new(&config(5, 1000), 0);
    for e in 1..=3 {
        expect_wait(l.step(LoopEvent::Received(e), e as u64));
    }
    let (batch, _) = expect_process(l.step(LoopEvent::Shutdown, 10));
    assert_eq!(batch, vec![1, 2, 3]);
    assert_eq!(l.phase(), LoopPhase::Processing { count: 3, last: true });
    expect_stop(l.step(completed(BatchOutcome::TimedOut, 500), 600));
    assert_eq!(l.phase(), LoopPhase::Stopped);
    assert_eq!(l.metrics(), (0, 0, 3, 0));
}

#[test]
fn closing_with_nothing_pending_stops_at_once() {
    let mut l: ProcessorLoop<u32> = ProcessorLoop::new(&config(5, 1000), 0);
    assert_eq!(expect_wait(l.poll(0)), None);
    expect_stop(l.step(LoopEvent::Closed, 1));
    assert_eq!(l.phase(), LoopPhase::Stopped);
}

#[test]
fn closing_flushes_like_shutdown() {
    let mut l: ProcessorLoop<u32> = ProcessorLoop::new(&config(5, 1000), 0);
    expect_wait(l.step(LoopEvent::Received(9), 0));
    let (batch, _) = expect_process(l.step(LoopEvent::Closed, 1));
    assert_eq!(batch, vec![9]);
    expect_stop(l.step(completed(BatchOutcome::Succeeded, 2), 3));
    assert_eq!(l.metrics(), (1, 0, 0, 2));
}

#[test]
fn batch_size_one_hands_out_each_event() {
    let mut l: ProcessorLoop<u32> = ProcessorLoop::new(&config(1, 100), 0);
    assert_eq!(expect_wait(l.poll(0)), None);
    let (batch, _) = expect_process(l.step(LoopEvent::Received(4), 5));
    assert_eq!(batch, vec![4]);
    assert_eq!(expect_wait(l.step(completed(BatchOutcome::Succeeded, 16), 30)), None);
    let (batch, _) = expect_process(l.step(LoopEvent::Received(5), 40));
    assert_eq!(batch, vec![5]);
    assert_eq!(expect_wait(l.step(completed(BatchOutcome::Succeeded, 8), 50)), None);
    expect_stop(l.step(LoopEvent::Shutdown, 60));
    // (16 * 7 + 8) / 8 = 15
    assert_eq!(l.metrics(), (2, 0, 0, 15));
}

#[test]
fn batch_size_zero_hands_out_empty_batches() {
    let mut l: ProcessorLoop<u32> = ProcessorLoop::new(&config(0, 100), 0);
    let (batch, _) = expect_process(l.poll(0));
    assert!(batch.is_empty());
    let (batch, _) = expect_process(l.step(completed(BatchOutcome::Succeeded, 3), 5));
    assert!(batch.is_empty());
    assert_eq!(l.metrics(), (0, 0, 0, 3));
}

#[test]
fn events_come_out_in_order_exactly_once() {
    let mut l: ProcessorLoop<u32> = ProcessorLoop::new(&config(3, 1000), 0);
    let mut out: Vec<u32> = Vec::new();
    let mut batches = 0;
    for e in 1..=7u32 {
        match l.step(LoopEvent::Received(e), e as u64) {
            LoopAction::Process { batch, .. } => {
                assert!(batch.len() <= 3 && !batch.is_empty());
                out.extend(batch);
                batches += 1;
                expect_wait(l.step(completed(BatchOutcome::Succeeded, 1), e as u64));
            }
            LoopAction::Wait { .. } => {}
            LoopAction::Stop => panic!("stopped early"),
        }
    }
    let (batch, _) = expect_process(l.step(LoopEvent::Closed, 100));
    assert_eq!(batch, vec![7]);
    out.extend(batch);
    expect_stop(l.step(completed(BatchOutcome::Failed, 1), 101));
    assert_eq!(batches, 2);
    assert_eq!(out, (1..=7).collect::<Vec<u32>>());
    let (processed, errors, timeouts, _) = l.metrics();
    assert_eq!(processed + errors + timeouts, 7);
    assert_eq!((processed, errors, timeouts), (6, 1, 0));
}

#[test]
fn outcomes_are_taken_only_while_a_batch_is_out() {
    let mut l: ProcessorLoop<u32> = ProcessorLoop::new(&config(1, 100), 0);
    assert!(!l.can_record(BatchOutcome::Succeeded, 5));
    expect_process(l.step(LoopEvent::Received(1), 1));
    assert!(l.can_record(BatchOutcome::Succeeded, u64::MAX));
    assert!(l.can_record(BatchOutcome::Failed, 5));
    expect_wait(l.step(completed(BatchOutcome::Succeeded, u64::MAX / 7), 2));
    expect_process(l.step(LoopEvent::Received(2), 3));
    // a sample has been taken: 7 * average + elapsed must fit in 64 bits
    assert!(!l.can_record(BatchOutcome::Succeeded, u64::MAX));
    assert!(l.can_record(BatchOutcome::TimedOut, u64::MAX));
}

#[test]
fn zero_time_batch_is_averaged_with_the_next() {
    let mut l: ProcessorLoop<u32> = ProcessorLoop::new(&config(1, 100), 0);
    expect_process(l.step(LoopEvent::Received(1), 1));
    expect_wait(l.step(completed(BatchOutcome::Succeeded, 0), 2));
    expect_process(l.step(LoopEvent::Received(2), 3));
    expect_wait(l.step(completed(BatchOutcome::Succeeded, 80), 4));
    assert_eq!(l.metrics(), (2, 0, 0, 10));
}
