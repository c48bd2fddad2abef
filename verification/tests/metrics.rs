use stream_processing::ProcessingMetrics;

#[test]
fn new_metrics_start_at_zero() {
    let m = ProcessingMetrics::new();
    assert_eq!(m.snapshot(), (0, 0, 0, 0));
    let d = ProcessingMetrics::default();
    assert_eq!(d.snapshot(), (0, 0, 0, 0));
}

#[test]
fn each_counter_moves_alone() {
    let mut m = ProcessingMetrics::new();
    m.inc_processed();
    m.inc_processed();
    m.inc_errors();
    m.inc_timeouts();
    m.inc_timeouts();
    m.inc_timeouts();
    assert_eq!(m.snapshot(), (2, 1, 3, 0));
}

#[test]
fn counters_wrap_at_u64_max() {
    let mut m = ProcessingMetrics {
        processed: u64::MAX,
        errors: u64::MAX,
        timeouts: u64::MAX,
        avg_processing_time_ms: 7,
        sampled: true,
    };
    m.inc_processed();
    m.inc_errors();
    m.inc_timeouts();
    assert_eq!(m.snapshot(), (0, 0, 0, 7));
}

#[test]
fn first_sample_becomes_the_average() {
    let mut m = ProcessingMetrics::new();
    m.update_avg_time(40);
    assert_eq!(m.avg_processing_time_ms, 40);
}

#[test]
fn later_samples_weigh_one_eighth() {
    let mut m = ProcessingMetrics::new();
    m.update_avg_time(80);
    m.update_avg_time(40);
    // (80 * 7 + 40) / 8 = 75
    assert_eq!(m.avg_processing_time_ms, 75);
    m.update_avg_time(0);
    // (75 * 7 + 0) / 8 = 65 (rounded down)
    assert_eq!(m.avg_processing_time_ms, 65);
    assert_eq!(m.snapshot(), (0, 0, 0, 65));
}

#[test]
fn average_stays_between_old_average_and_sample() {
    let mut m = ProcessingMetrics::new();
    m.update_avg_time(10);
    m.update_avg_time(1000);
    let avg = m.avg_processing_time_ms;
    assert!((10..=1000).contains(&avg));
    assert_eq!(avg, (10 * 7 + 1000) / 8);
}

#[test]
fn steady_samples_keep_the_average() {
    let mut m = ProcessingMetrics::new();
    for _ in 0..5 {
        m.update_avg_time(33);
    }
    assert_eq!(m.avg_processing_time_ms, 33);
}

#[test]
fn a_zero_sample_is_averaged_like_any_other() {
    let mut m = ProcessingMetrics::default();
    m.update_avg_time(0);
    assert_eq!(m.avg_processing_time_ms, 0);
    assert!(m.sampled);
    m.update_avg_time(80);
    // (0 * 7 + 80) / 8 = 10
    assert_eq!(m.avg_processing_time_ms, 10);
}

#[test]
fn counters_never_decrease_over_a_run_of_calls() {
    let mut m = ProcessingMetrics::new();
    let mut last = m.snapshot();
    for i in 0..30u64 {
        match i % 4 {
            0 => m.inc_processed(),
            1 => m.inc_errors(),
            2 => m.inc_timeouts(),
            _ => m.update_avg_time(i),
        }
        let now = m.snapshot();
        assert!(now.0 >= last.0 && now.1 >= last.1 && now.2 >= last.2);
        last = now;
    }
    assert_eq!((last.0, last.1, last.2), (8, 8, 7));
}
