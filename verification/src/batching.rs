use vstd::prelude::*;

use crate::config::ProcessorConfig;
use crate::metrics::{average_fits, lemma_wrapped_add, next_average, wrapped, ProcessingMetrics};

verus! {

/// How the processing of one batch ended: the processing function returned
/// `Ok`, returned an error, or did not finish within the processing timeout.
#[derive(Clone, Copy, Debug, PartialEq, Eq, Structural)]
pub enum BatchOutcome {
    Succeeded,
    Failed,
    TimedOut,
}

/// Where the loop stands: waiting for events, waiting for the outcome of a
/// batch of `count` events (`last` when no event is taken after it), or done.
#[derive(Clone, Copy, Debug, PartialEq, Eq, Structural)]
pub enum LoopPhase {
    Receiving,
    Processing { count: usize, last: bool },
    Stopped,
}

/// What happened outside the loop since its last decision.
pub enum LoopEvent<T> {
    /// An event arrived on the channel.
    Received(T),
    /// Every sender is gone: the channel is closed.
    Closed,
    /// The shutdown signal arrived.
    Shutdown,
    /// The timer of a partial batch ran out.
    TimerFired,
    /// The batch that was handed out has been processed.
    Completed { outcome: BatchOutcome, elapsed_ms: u64 },
}

/// What the loop asks its driver to do next.
pub enum LoopAction<T> {
    /// Run the processing function on `batch`, with a timeout of `timeout_ns`,
    /// and report the outcome with `LoopEvent::Completed`.
    Process { batch: Vec<T>, timeout_ns: u64 },
    /// Wait for an event, the shutdown signal, or (when `timer_ns` is given)
    /// for that many milliseconds to pass.
    Wait { timer_ns: Option<u64> },
    /// Leave the loop.
    Stop,
}

/// A `LoopAction` with the batch taken as a sequence.
#[verifier::ext_equal]
pub enum ActionView<T> {
    Process { batch: Seq<T>, timeout_ns: u64 },
    Wait { timer_ns: Option<u64> },
    Stop,
}

impl<T> View for LoopAction<T> {
    type V = ActionView<T>;

    open spec fn view(&self) -> ActionView<T> {
        match self {
            LoopAction::Process { batch, timeout_ns } => ActionView::Process {
                batch: batch@,
                timeout_ns: *timeout_ns,
            },
            LoopAction::Wait { timer_ns } => ActionView::Wait { timer_ns: *timer_ns },
            LoopAction::Stop => ActionView::Stop,
        }
    }
}

/// The state of a processing loop as the contracts see it. Besides the
/// settings, the pending batch, the start of the current batch and the
/// counters, it records every event received so far, every event handed to
/// the processing function so far, and how many of those ended in each outcome.
#[verifier::ext_equal]
pub struct LoopView<T> {
    pub batch_size: usize,
    pub batch_timeout_ns: u64,
    pub processing_timeout_ns: u64,
    pub pending: Seq<T>,
    pub last_batch_ns: u64,
    pub metrics: ProcessingMetrics,
    pub phase: LoopPhase,
    pub received: Seq<T>,
    pub dispatched: Seq<T>,
    pub succeeded: nat,
    pub failed: nat,
    pub timed_out: nat,
}

/// Nanoseconds from `since` to `now`; zero if `now` is earlier.
pub open spec fn elapsed_since(since: u64, now: u64) -> nat {
    if now >= since {
        (now - since) as nat
    } else {
        0
    }
}

/// The events that an action hands to the processing function.
pub open spec fn handed_out<T>(a: ActionView<T>) -> Seq<T> {
    match a {
        ActionView::Process { batch, .. } => batch,
        _ => Seq::empty(),
    }
}

/// The events that an input brings into the loop.
pub open spec fn brought_in<T>(ev: LoopEvent<T>) -> Seq<T> {
    match ev {
        LoopEvent::Received(e) => seq![e],
        _ => Seq::empty(),
    }
}

impl<T> LoopView<T> {
    /// Whether the batch whose outcome is awaited is the last one.
    pub open spec fn last_batch_out(self) -> bool {
        match self.phase {
            LoopPhase::Processing { last, .. } => last,
            _ => false,
        }
    }

    /// Number of events in the batch whose outcome is awaited.
    pub open spec fn in_flight(self) -> nat {
        match self.phase {
            LoopPhase::Processing { count, .. } => count as nat,
            _ => 0,
        }
    }

    /// The loop's invariant: the events handed out, followed by the pending
    /// ones, are exactly the events received, in order; every handed-out event
    /// is either awaiting its outcome or counted under exactly one outcome; the
    /// counters are those counts, wrapped at 2^64; and a pending batch is
    /// smaller than the batch size.
    pub open spec fn inv(self) -> bool {
        &&& self.accounting()
        &&& match self.phase {
            LoopPhase::Receiving => self.pending.len() == 0 || self.pending.len() < self.batch_size,
            _ => self.pending.len() == 0,
        }
    }

    /// The bookkeeping part of the invariant: events handed out and pending
    /// make up the events received, and the outcome counts and counters
    /// account for every handed-out event that is not in flight.
    pub open spec fn accounting(self) -> bool {
        &&& self.dispatched + self.pending == self.received
        &&& self.succeeded + self.failed + self.timed_out + self.in_flight() == self.dispatched.len()
        &&& self.metrics.processed == wrapped(self.succeeded as int)
        &&& self.metrics.errors == wrapped(self.failed as int)
        &&& self.metrics.timeouts == wrapped(self.timed_out as int)
    }

    /// Which inputs the loop can take in its current phase: an outcome only
    /// while a batch is out, anything else only while receiving. A successful
    /// outcome also needs the new average to fit in 64 bits.
    pub open spec fn accepts(self, ev: LoopEvent<T>) -> bool {
        match ev {
            LoopEvent::Completed { outcome, elapsed_ms } => {
                &&& self.phase is Processing
                &&& outcome == BatchOutcome::Succeeded ==> average_fits(
                    self.metrics.avg_processing_time_ms,
                    self.metrics.sampled,
                    elapsed_ms,
                )
            },
            _ => self.phase is Receiving,
        }
    }

    /// A batch is due when it has reached the batch size, or when it is not
    /// empty and the batch timeout has passed since it was started.
    pub open spec fn batch_due(self, now: u64) -> bool {
        ||| self.pending.len() >= self.batch_size
        ||| (elapsed_since(self.last_batch_ns, now) >= self.batch_timeout_ns && self.pending.len()
            > 0)
    }
}

/// The loop right after it is created at time `now`.
pub open spec fn initial_view<T>(config: ProcessorConfig, now: u64) -> LoopView<T> {
    LoopView {
        batch_size: config.batch_size,
        batch_timeout_ns: config.batch_timeout,
        processing_timeout_ns: config.processing_timeout,
        pending: Seq::empty(),
        last_batch_ns: now,
        metrics: ProcessingMetrics {
            processed: 0,
            errors: 0,
            timeouts: 0,
            avg_processing_time_ms: 0,
            sampled: false,
        },
        phase: LoopPhase::Receiving,
        received: Seq::empty(),
        dispatched: Seq::empty(),
        succeeded: 0,
        failed: 0,
        timed_out: 0,
    }
}

/// Hands the whole pending batch to the processing function.
pub open spec fn dispatch<T>(v: LoopView<T>, last: bool) -> (LoopView<T>, ActionView<T>) {
    (
        LoopView {
            pending: Seq::empty(),
            phase: LoopPhase::Processing { count: v.pending.len() as usize, last },
            dispatched: v.dispatched + v.pending,
            ..v
        },
        ActionView::Process { batch: v.pending, timeout_ns: v.processing_timeout_ns },
    )
}

/// The decision at the top of the loop, at time `now`: process the batch if it
/// is due; otherwise wait, with a timer for the rest of the batch timeout when
/// a partial batch is pending.
pub open spec fn decide<T>(v: LoopView<T>, now: u64) -> (LoopView<T>, ActionView<T>) {
    if v.batch_due(now) {
        dispatch(v, false)
    } else if v.pending.len() == 0 {
        (v, ActionView::Wait { timer_ns: None })
    } else {
        (
            v,
            ActionView::Wait {
                timer_ns: Some((v.batch_timeout_ns - elapsed_since(v.last_batch_ns, now)) as u64),
            },
        )
    }
}

/// The counters and outcome counts after the batch in flight ended with
/// `outcome`, having taken `elapsed_ms`.
pub open spec fn record<T>(v: LoopView<T>, outcome: BatchOutcome, elapsed_ms: u64) -> LoopView<T> {
    let n = v.in_flight();
    match outcome {
        BatchOutcome::Succeeded => LoopView {
            metrics: ProcessingMetrics {
                processed: wrapped(v.metrics.processed + n) as u64,
                avg_processing_time_ms: next_average(
                    v.metrics.avg_processing_time_ms,
                    v.metrics.sampled,
                    elapsed_ms,
                ) as u64,
                sampled: true,
                ..v.metrics
            },
            succeeded: v.succeeded + n,
            ..v
        },
        BatchOutcome::Failed => LoopView {
            metrics: ProcessingMetrics { errors: wrapped(v.metrics.errors + n) as u64, ..v.metrics },
            failed: v.failed + n,
            ..v
        },
        BatchOutcome::TimedOut => LoopView {
            metrics: ProcessingMetrics {
                timeouts: wrapped(v.metrics.timeouts + n) as u64,
                ..v.metrics
            },
            timed_out: v.timed_out + n,
            ..v
        },
    }
}

/// The loop's transition: the state and the action after input `ev` at time
/// `now`.
/// - An event joins the pending batch (starting the batch clock when the batch
///   was empty, except with a batch size of 1, where nothing waits), then the
///   top-of-loop decision is taken.
/// - Closing and shutdown hand out what is pending as the last batch, or stop.
/// - The timer hands out a pending partial batch.
/// - An outcome is counted for every event of the batch; after the last batch
///   the loop stops, otherwise the batch clock restarts (except with a batch
///   size of 1) and the top-of-loop decision is taken.
pub open spec fn next<T>(v: LoopView<T>, ev: LoopEvent<T>, now: u64) -> (LoopView<T>, ActionView<T>) {
    match ev {
        LoopEvent::Received(e) => {
            let last_batch_ns = if v.batch_size != 1 && v.pending.len() == 0 {
                now
            } else {
                v.last_batch_ns
            };
            decide(
                LoopView { pending: v.pending.push(e), received: v.received.push(e), last_batch_ns, ..v },
                now,
            )
        },
        LoopEvent::Closed | LoopEvent::Shutdown => {
            if v.pending.len() > 0 {
                dispatch(v, true)
            } else {
                (LoopView { phase: LoopPhase::Stopped, ..v }, ActionView::Stop)
            }
        },
        LoopEvent::TimerFired => {
            if v.pending.len() > 0 {
                dispatch(v, false)
            } else {
                (v, ActionView::Wait { timer_ns: None })
            }
        },
        LoopEvent::Completed { outcome, elapsed_ms } => {
            let r = record(v, outcome, elapsed_ms);
            match v.phase {
                LoopPhase::Processing { last: true, .. } => (
                    LoopView { phase: LoopPhase::Stopped, ..r },
                    ActionView::Stop,
                ),
                _ => {
                    let last_batch_ns = if v.batch_size == 1 {
                        v.last_batch_ns
                    } else {
                        now
                    };
                    decide(LoopView { phase: LoopPhase::Receiving, last_batch_ns, ..r }, now)
                },
            }
        },
    }
}

/// The decision loop of a stream processor, driven from outside: the driver
/// feeds it what happened (`step`) and carries out what it asks for.
pub struct ProcessorLoop<T> {
    batch_size: usize,
    batch_timeout_ns: u64,
    processing_timeout_ns: u64,
    batch: Vec<T>,
    last_batch_ns: u64,
    metrics: ProcessingMetrics,
    phase: LoopPhase,
    received: Ghost<Seq<T>>,
    dispatched: Ghost<Seq<T>>,
    succeeded: Ghost<nat>,
    failed: Ghost<nat>,
    timed_out: Ghost<nat>,
}

impl<T> View for ProcessorLoop<T> {
    type V = LoopView<T>;

    closed spec fn view(&self) -> LoopView<T> {
        LoopView {
            batch_size: self.batch_size,
            batch_timeout_ns: self.batch_timeout_ns,
            processing_timeout_ns: self.processing_timeout_ns,
            pending: self.batch@,
            last_batch_ns: self.last_batch_ns,
            metrics: self.metrics,
            phase: self.phase,
            received: self.received@,
            dispatched: self.dispatched@,
            succeeded: self.succeeded@,
            failed: self.failed@,
            timed_out: self.timed_out@,
        }
    }
}

impl<T> ProcessorLoop<T> {
    /// Well-formedness: the view keeps the loop's invariant.
    pub open spec fn wf(&self) -> bool {
        self@.inv()
    }

    /// A loop for `config`, created at time `now_ns`, with nothing received.
    pub fn new(config: &ProcessorConfig, now_ns: u64) -> (l: Self)
        ensures
            l.wf(),
            l@ == initial_view::<T>(*config, now_ns),
            l@.batch_size == config.batch_size,
            l@.batch_timeout_ns == config.batch_timeout,
            l@.processing_timeout_ns == config.processing_timeout,
            l@.last_batch_ns == now_ns,
            l@.phase == LoopPhase::Receiving,
            l@.pending.len() == 0,
            l@.received.len() == 0,
            l@.dispatched.len() == 0,
    {
        ProcessorLoop {
            batch_size: config.batch_size,
            batch_timeout_ns: config.batch_timeout,
            processing_timeout_ns: config.processing_timeout,
            batch: Vec::new(),
            last_batch_ns: now_ns,
            metrics: ProcessingMetrics::new(),
            phase: LoopPhase::Receiving,
            received: Ghost(Seq::empty()),
            dispatched: Ghost(Seq::empty()),
            succeeded: Ghost(0),
            failed: Ghost(0),
            timed_out: Ghost(0),
        }
    }

    /// The top-of-loop decision at time `now_ns` (see `decide`); the driver
    /// calls it once before the first input.
    pub fn poll(&mut self, now_ns: u64) -> (action: LoopAction<T>)
        requires
            old(self).wf(),
            old(self)@.phase is Receiving,
        ensures
            final(self).wf(),
            (final(self)@, action@) == decide(old(self)@, now_ns),
    {
        proof {
            lemma_decide_accounts_for_events(self@, now_ns);
        }
        self.decide_now(now_ns)
    }

    /// Takes one input at time `now_ns` and returns what to do next (see `next`).
    pub fn step(&mut self, event: LoopEvent<T>, now_ns: u64) -> (action: LoopAction<T>)
        requires
            old(self).wf(),
            old(self)@.accepts(event),
        ensures
            final(self).wf(),
            (final(self)@, action@) == next(old(self)@, event, now_ns),
    {
        proof {
            lemma_next_keeps_inv(self@, event, now_ns);
        }
        match event {
            LoopEvent::Received(e) => {
                let ghost received = self.received@.push(e);
                if self.batch_size != 1 && self.batch.len() == 0 {
                    self.last_batch_ns = now_ns;
                }
                self.batch.push(e);
                self.received = Ghost(received);
                self.decide_now(now_ns)
            },
            LoopEvent::Closed | LoopEvent::Shutdown => {
                if self.batch.len() > 0 {
                    self.dispatch(true)
                } else {
                    self.phase = LoopPhase::Stopped;
                    LoopAction::Stop
                }
            },
            LoopEvent::TimerFired => {
                if self.batch.len() > 0 {
                    self.dispatch(false)
                } else {
                    LoopAction::Wait { timer_ns: None }
                }
            },
            LoopEvent::Completed { outcome, elapsed_ms } => {
                let last = match self.phase {
                    LoopPhase::Processing { last, .. } => last,
                    _ => false,
                };
                self.record(outcome, elapsed_ms);
                if last {
                    self.phase = LoopPhase::Stopped;
                    LoopAction::Stop
                } else {
                    self.phase = LoopPhase::Receiving;
                    if self.batch_size != 1 {
                        self.last_batch_ns = now_ns;
                    }
                    self.decide_now(now_ns)
                }
            },
        }
    }

    /// The counters: processed, errors, timeouts, average time in ms.
    pub fn metrics(&self) -> (s: (u64, u64, u64, u64))
        ensures
            s == (
                self@.metrics.processed,
                self@.metrics.errors,
                self@.metrics.timeouts,
                self@.metrics.avg_processing_time_ms,
            ),
    {
        self.metrics.snapshot()
    }

    /// Whether the loop can take the outcome `outcome` of a batch that took
    /// `elapsed_ms`: a batch must be out, and for a success the new average
    /// must fit in 64 bits.
    pub fn can_record(&self, outcome: BatchOutcome, elapsed_ms: u64) -> (b: bool)
        ensures
            b == self@.accepts(LoopEvent::Completed { outcome, elapsed_ms }),
    {
        let processing = match self.phase {
            LoopPhase::Processing { .. } => true,
            _ => false,
        };
        if !processing {
            false
        } else if outcome == BatchOutcome::Succeeded && self.metrics.sampled {
            match self.metrics.avg_processing_time_ms.checked_mul(7) {
                Some(scaled) => scaled.checked_add(elapsed_ms).is_some(),
                None => false,
            }
        } else {
            true
        }
    }

    /// The phase the loop is in.
    pub fn phase(&self) -> (p: LoopPhase)
        ensures
            p == self@.phase,
    {
        self.phase
    }

    /// The top-of-loop decision, on whatever state the loop is in.
    fn decide_now(&mut self, now_ns: u64) -> (action: LoopAction<T>)
        requires
            old(self)@.phase is Receiving,
        ensures
            (final(self)@, action@) == decide(old(self)@, now_ns),
    {
        let elapsed = now_ns.saturating_sub(self.last_batch_ns);
        let len = self.batch.len();
        if len >= self.batch_size || (elapsed >= self.batch_timeout_ns && len > 0) {
            self.dispatch(false)
        } else if len == 0 {
            LoopAction::Wait { timer_ns: None }
        } else {
            LoopAction::Wait { timer_ns: Some(self.batch_timeout_ns - elapsed) }
        }
    }

    /// Hands the pending batch out.
    fn dispatch(&mut self, last: bool) -> (action: LoopAction<T>)
        ensures
            (final(self)@, action@) == dispatch(old(self)@, last),
    {
        let mut batch: Vec<T> = Vec::new();
        std::mem::swap(&mut batch, &mut self.batch);
        self.dispatched = Ghost(self.dispatched@ + batch@);
        self.phase = LoopPhase::Processing { count: batch.len(), last };
        LoopAction::Process { batch, timeout_ns: self.processing_timeout_ns }
    }

    /// Counts the outcome for every event of the batch in flight.
    fn record(&mut self, outcome: BatchOutcome, elapsed_ms: u64)
        requires
            outcome == BatchOutcome::Succeeded ==> average_fits(
                old(self).metrics.avg_processing_time_ms,
                old(self).metrics.sampled,
                elapsed_ms,
            ),
        ensures
            final(self)@ == record(old(self)@, outcome, elapsed_ms),
    {
        let n: usize = match self.phase {
            LoopPhase::Processing { count, .. } => count,
            _ => 0,
        };
        match outcome {
            BatchOutcome::Succeeded => {
                count_processed(&mut self.metrics, n);
                self.metrics.update_avg_time(elapsed_ms);
                self.succeeded = Ghost((self.succeeded@ + n) as nat);
            },
            BatchOutcome::Failed => {
                count_errors(&mut self.metrics, n);
                self.failed = Ghost((self.failed@ + n) as nat);
            },
            BatchOutcome::TimedOut => {
                count_timeouts(&mut self.metrics, n);
                self.timed_out = Ghost((self.timed_out@ + n) as nat);
            },
        }
    }
}

/// Counts `n` processed events, one at a time.
fn count_processed(metrics: &mut ProcessingMetrics, n: usize)
    ensures
        final(metrics).processed == wrapped(old(metrics).processed + n),
        final(metrics).errors == old(metrics).errors,
        final(metrics).timeouts == old(metrics).timeouts,
        final(metrics).avg_processing_time_ms == old(metrics).avg_processing_time_ms,
        final(metrics).sampled == old(metrics).sampled,
{
    let mut i: usize = 0;
    while i < n
        invariant
            i <= n,
            metrics.processed == wrapped(old(metrics).processed + i),
            metrics.errors == old(metrics).errors,
            metrics.timeouts == old(metrics).timeouts,
            metrics.avg_processing_time_ms == old(metrics).avg_processing_time_ms,
            metrics.sampled == old(metrics).sampled,
        decreases n - i,
    {
        metrics.inc_processed();
        i = i + 1;
    }
}

/// Counts `n` failed events, one at a time.
fn count_errors(metrics: &mut ProcessingMetrics, n: usize)
    ensures
        final(metrics).errors == wrapped(old(metrics).errors + n),
        final(metrics).processed == old(metrics).processed,
        final(metrics).timeouts == old(metrics).timeouts,
        final(metrics).avg_processing_time_ms == old(metrics).avg_processing_time_ms,
        final(metrics).sampled == old(metrics).sampled,
{
    let mut i: usize = 0;
    while i < n
        invariant
            i <= n,
            metrics.errors == wrapped(old(metrics).errors + i),
            metrics.processed == old(metrics).processed,
            metrics.timeouts == old(metrics).timeouts,
            metrics.avg_processing_time_ms == old(metrics).avg_processing_time_ms,
            metrics.sampled == old(metrics).sampled,
        decreases n - i,
    {
        metrics.inc_errors();
        i = i + 1;
    }
}

/// Counts `n` timed-out events, one at a time.
fn count_timeouts(metrics: &mut ProcessingMetrics, n: usize)
    ensures
        final(metrics).timeouts == wrapped(old(metrics).timeouts + n),
        final(metrics).processed == old(metrics).processed,
        final(metrics).errors == old(metrics).errors,
        final(metrics).avg_processing_time_ms == old(metrics).avg_processing_time_ms,
        final(metrics).sampled == old(metrics).sampled,
{
    let mut i: usize = 0;
    while i < n
        invariant
            i <= n,
            metrics.timeouts == wrapped(old(metrics).timeouts + i),
            metrics.processed == old(metrics).processed,
            metrics.errors == old(metrics).errors,
            metrics.avg_processing_time_ms == old(metrics).avg_processing_time_ms,
            metrics.sampled == old(metrics).sampled,
        decreases n - i,
    {
        metrics.inc_timeouts();
        i = i + 1;
    }
}

/// Every transition keeps the invariant: no event is lost, duplicated or
/// reordered on its way from the channel to the processing function, and the
/// counters keep counting every handed-out event under its outcome.
pub proof fn lemma_next_keeps_inv<T>(v: LoopView<T>, ev: LoopEvent<T>, now: u64)
    requires
        v.inv(),
        v.accepts(ev),
    ensures
        next(v, ev, now).0.inv(),
{
    match ev {
        LoopEvent::Received(e) => {
            let last_batch_ns = if v.batch_size != 1 && v.pending.len() == 0 {
                now
            } else {
                v.last_batch_ns
            };
            let w = LoopView {
                pending: v.pending.push(e),
                received: v.received.push(e),
                last_batch_ns,
                ..v
            };
            assert(w.accounting()) by {
                assert(v.dispatched + v.pending.push(e) == (v.dispatched + v.pending).push(e));
            }
            lemma_decide_keeps_inv(w, now);
        },
        LoopEvent::Closed | LoopEvent::Shutdown => {
            if v.pending.len() > 0 {
                lemma_dispatch_keeps_inv(v, true);
            } else {
                assert(v.dispatched + v.pending == v.dispatched);
            }
        },
        LoopEvent::TimerFired => {
            if v.pending.len() > 0 {
                lemma_dispatch_keeps_inv(v, false);
            }
        },
        LoopEvent::Completed { outcome, elapsed_ms } => {
            let n = v.in_flight() as int;
            lemma_wrapped_add(v.succeeded as int, n);
            lemma_wrapped_add(v.failed as int, n);
            lemma_wrapped_add(v.timed_out as int, n);
            let r = record(v, outcome, elapsed_ms);
            let last_batch_ns = if v.batch_size == 1 {
                v.last_batch_ns
            } else {
                now
            };
            let w = LoopView { phase: LoopPhase::Receiving, last_batch_ns, ..r };
            assert(w.accounting());
            match v.phase {
                LoopPhase::Processing { last: true, .. } => {},
                _ => {
                    lemma_decide_keeps_inv(w, now);
                },
            }
        },
    }
}

/// Handing out the pending batch keeps the invariant.
proof fn lemma_dispatch_keeps_inv<T>(v: LoopView<T>, last: bool)
    requires
        v.accounting(),
        v.phase is Receiving,
        v.pending.len() <= usize::MAX,
    ensures
        dispatch(v, last).0.inv(),
{
    let w = dispatch(v, last).0;
    assert(w.dispatched + w.pending == w.received) by {
        assert(v.dispatched + v.pending + Seq::<T>::empty() == v.dispatched + v.pending);
    }
}

/// The top-of-loop decision keeps the invariant.
proof fn lemma_decide_keeps_inv<T>(v: LoopView<T>, now: u64)
    requires
        v.accounting(),
        v.phase is Receiving,
        v.pending.len() <= usize::MAX,
    ensures
        decide(v, now).0.inv(),
{
    if v.batch_due(now) {
        lemma_dispatch_keeps_inv(v, false);
    }
}

/// The loop starts out well-formed.
pub proof fn lemma_initial_inv<T>(config: ProcessorConfig, now: u64)
    ensures
        initial_view::<T>(config, now).inv(),
{
}

/// Each transition takes in exactly the event it receives and hands out
/// exactly the batch its action carries, in order; together with the
/// invariant, what has been handed out is always a prefix of what has been
/// received, and the rest is pending.
pub proof fn lemma_next_accounts_for_events<T>(v: LoopView<T>, ev: LoopEvent<T>, now: u64)
    requires
        v.inv(),
        v.accepts(ev),
    ensures
        next(v, ev, now).0.received == v.received + brought_in(ev),
        next(v, ev, now).0.dispatched == v.dispatched + handed_out(next(v, ev, now).1),
        next(v, ev, now).0.dispatched + next(v, ev, now).0.pending == next(v, ev, now).0.received,
{
    let (w, a) = next(v, ev, now);
    match ev {
        LoopEvent::Received(e) => {
            assert(v.received + seq![e] == v.received.push(e));
        },
        _ => {
            assert(v.received + Seq::<T>::empty() == v.received);
            if !(a is Process) {
                assert(v.dispatched + Seq::<T>::empty() == v.dispatched);
            }
        },
    }
}

/// The top-of-loop decision hands out only the pending batch, and keeps
/// everything else.
pub proof fn lemma_decide_accounts_for_events<T>(v: LoopView<T>, now: u64)
    requires
        v.inv(),
        v.phase is Receiving,
    ensures
        decide(v, now).0.inv(),
        decide(v, now).0.received == v.received,
        decide(v, now).0.dispatched == v.dispatched + handed_out(decide(v, now).1),
{
    if !(decide(v, now).1 is Process) {
        assert(v.dispatched + Seq::<T>::empty() == v.dispatched);
    }
}

/// When the loop has stopped, every event it received has been handed to the
/// processing function and its outcome counted: processed, errors and
/// timeouts add up to the number of events received (modulo 2^64, where the
/// counters wrap).
pub proof fn lemma_stopped_loop_is_drained<T>(v: LoopView<T>)
    requires
        v.inv(),
        v.phase is Stopped,
    ensures
        v.pending.len() == 0,
        v.dispatched == v.received,
        v.succeeded + v.failed + v.timed_out == v.received.len(),
        wrapped(v.metrics.processed + v.metrics.errors + v.metrics.timeouts) == wrapped(
            v.received.len() as int,
        ),
{
    assert(v.dispatched + v.pending == v.dispatched);
    let m: int = 0x1_0000_0000_0000_0000;
    let a = v.succeeded as int;
    let b = v.failed as int;
    let c = v.timed_out as int;
    vstd::arithmetic::div_mod::lemma_add_mod_noop(a, b, m);
    vstd::arithmetic::div_mod::lemma_add_mod_noop(a + b, c, m);
}

/// A stopped loop takes no more input, and the loop stops exactly when its
/// action is `Stop`.
pub proof fn lemma_stop_is_final<T>(v: LoopView<T>, ev: LoopEvent<T>, now: u64)
    requires
        v.inv(),
    ensures
        v.phase is Stopped ==> !v.accepts(ev),
        v.accepts(ev) ==> (next(v, ev, now).1 is Stop <==> next(v, ev, now).0.phase is Stopped),
{
}

/// Closing the channel or shutting down hands out everything still pending as
/// the last batch, or stops at once when nothing is pending; after the outcome
/// of that last batch the loop stops.
pub proof fn lemma_end_of_input_flushes<T>(v: LoopView<T>, ev: LoopEvent<T>, now: u64)
    requires
        v.inv(),
        v.accepts(ev),
        ev is Closed || ev is Shutdown,
    ensures
        handed_out(next(v, ev, now).1) == v.pending,
        next(v, ev, now).1 is Stop <==> v.pending.len() == 0,
        next(v, ev, now).1 is Process ==> next(v, ev, now).0.phase == (LoopPhase::Processing {
            count: v.pending.len() as usize,
            last: true,
        }),
{
}

/// The outcome of a last batch stops the loop.
pub proof fn lemma_last_outcome_stops<T>(
    v: LoopView<T>,
    outcome: BatchOutcome,
    elapsed_ms: u64,
    now: u64,
)
    requires
        v.inv(),
        v.phase matches LoopPhase::Processing { last, .. } && last,
        v.accepts(LoopEvent::Completed { outcome, elapsed_ms }),
    ensures
        next(v, LoopEvent::Completed { outcome, elapsed_ms }, now).1 is Stop,
        next(v, LoopEvent::Completed { outcome, elapsed_ms }, now).0.phase is Stopped,
{
}

/// Batches respect the batch size: with a batch size of at least 1, every
/// batch handed out holds between 1 and `batch_size` events; with a batch size
/// of 0, every batch holds at most one event.
pub proof fn lemma_batches_respect_batch_size<T>(v: LoopView<T>, ev: LoopEvent<T>, now: u64)
    requires
        v.inv(),
        v.accepts(ev),
    ensures
        v.batch_size >= 1 ==> 1 <= handed_out(next(v, ev, now).1).len() <= v.batch_size
            || !(next(v, ev, now).1 is Process),
        v.batch_size == 0 ==> handed_out(next(v, ev, now).1).len() <= 1,
{
}

/// A partial batch never waits longer than the batch timeout: a timer is set
/// exactly when events are pending, for what is left of the batch timeout.
pub proof fn lemma_wait_timer_bounded<T>(v: LoopView<T>, ev: LoopEvent<T>, now: u64)
    requires
        v.inv(),
        v.accepts(ev),
    ensures
        next(v, ev, now).1 matches ActionView::Wait { timer_ns } ==> {
            let w = next(v, ev, now).0;
            &&& (timer_ns is None <==> w.pending.len() == 0)
            &&& timer_ns matches Some(t) ==> t + elapsed_since(w.last_batch_ns, now)
                == w.batch_timeout_ns
        },
{
}

/// Every batch is handed out with the configured processing timeout.
pub proof fn lemma_batches_carry_processing_timeout<T>(v: LoopView<T>, ev: LoopEvent<T>, now: u64)
    requires
        v.inv(),
        v.accepts(ev),
    ensures
        next(v, ev, now).1 matches ActionView::Process { timeout_ns, .. } ==> timeout_ns
            == v.processing_timeout_ns,
        next(v, ev, now).0.processing_timeout_ns == v.processing_timeout_ns,
        next(v, ev, now).0.batch_size == v.batch_size,
        next(v, ev, now).0.batch_timeout_ns == v.batch_timeout_ns,
{
}

/// With a batch size of 1 nothing is held back: each event is handed out on
/// its own as soon as it arrives.
pub proof fn lemma_single_events_go_straight_through<T>(v: LoopView<T>, e: T, now: u64)
    requires
        v.inv(),
        v.batch_size == 1,
        v.phase is Receiving,
    ensures
        next(v, LoopEvent::Received(e), now).1 == (ActionView::Process {
            batch: seq![e],
            timeout_ns: v.processing_timeout_ns,
        }),
        next(v, LoopEvent::Received(e), now).0.pending.len() == 0,
{
    assert(v.pending.push(e) =~= seq![e]);
}

/// A new loop takes the batching settings from its configuration unchanged,
/// whatever the other settings are, and starts empty and receiving.
pub proof fn lemma_new_loop_carries_config<T>(config: ProcessorConfig, now: u64)
    ensures
        initial_view::<T>(config, now).batch_size == config.batch_size,
        initial_view::<T>(config, now).batch_timeout_ns == config.batch_timeout,
        initial_view::<T>(config, now).processing_timeout_ns == config.processing_timeout,
        initial_view::<T>(config, now).last_batch_ns == now,
        initial_view::<T>(config, now).phase == LoopPhase::Receiving,
        initial_view::<T>(config, now).pending.len() == 0,
        initial_view::<T>(config, now).received.len() == 0,
        initial_view::<T>(config, now).metrics.processed == 0,
        initial_view::<T>(config, now).metrics.errors == 0,
        initial_view::<T>(config, now).metrics.timeouts == 0,
        !initial_view::<T>(config, now).metrics.sampled,
{
}

/// The outcome of a batch that was not the last one, whatever it is, keeps the
/// loop running: it goes back to receiving and does not stop.
pub proof fn lemma_outcome_keeps_loop_running<T>(
    v: LoopView<T>,
    outcome: BatchOutcome,
    elapsed_ms: u64,
    now: u64,
)
    requires
        v.inv(),
        v.phase matches LoopPhase::Processing { last, .. } && !last,
        v.accepts(LoopEvent::Completed { outcome, elapsed_ms }),
    ensures
        !(next(v, LoopEvent::Completed { outcome, elapsed_ms }, now).1 is Stop),
        next(v, LoopEvent::Completed { outcome, elapsed_ms }, now).1 is Process ==> next(
            v,
            LoopEvent::Completed { outcome, elapsed_ms },
            now,
        ).0.phase is Processing,
        next(v, LoopEvent::Completed { outcome, elapsed_ms }, now).1 is Wait ==> next(
            v,
            LoopEvent::Completed { outcome, elapsed_ms },
            now,
        ).0.phase is Receiving,
{
}

/// The loop stops only on closing, on shutdown, or on the outcome of the last
/// batch; every other input leaves it running.
pub proof fn lemma_only_end_of_input_stops<T>(v: LoopView<T>, ev: LoopEvent<T>, now: u64)
    requires
        v.inv(),
        v.accepts(ev),
    ensures
        next(v, ev, now).0.phase is Stopped ==> {
            ||| ev is Closed
            ||| ev is Shutdown
            ||| (ev is Completed && v.last_batch_out())
        },
        (ev is Received || ev is TimerFired) ==> !(next(v, ev, now).0.phase is Stopped),
{
}

/// The top-of-loop decision hands out a batch exactly when the pending events
/// have reached the batch size, or when some are pending and the batch
/// timeout has run out since the batch was started; otherwise it waits.
pub proof fn lemma_decide_hands_out_exactly_when_due<T>(v: LoopView<T>, now: u64)
    ensures
        decide(v, now).1 is Process <==> (v.pending.len() >= v.batch_size || (v.pending.len() > 0
            && elapsed_since(v.last_batch_ns, now) >= v.batch_timeout_ns)),
        decide(v, now).1 is Process ==> handed_out(decide(v, now).1) == v.pending,
        !(decide(v, now).1 is Process) ==> decide(v, now).0 == v && decide(v, now).1 is Wait,
{
}

/// An arriving event makes the loop hand out a batch exactly when the pending
/// events, with the new one, reach the batch size, or when the batch timeout
/// has run out: since the start of the pending batch, or (for a first event,
/// which starts a batch) at once when the timeout is zero. The batch handed
/// out is everything pending followed by the new event.
pub proof fn lemma_arrival_hands_out_exactly_when_due<T>(v: LoopView<T>, e: T, now: u64)
    requires
        v.inv(),
        v.phase is Receiving,
    ensures
        next(v, LoopEvent::Received(e), now).1 is Process <==> {
            ||| v.pending.len() + 1 >= v.batch_size
            ||| (v.pending.len() > 0 && elapsed_since(v.last_batch_ns, now) >= v.batch_timeout_ns)
            ||| v.batch_timeout_ns == 0
        },
        next(v, LoopEvent::Received(e), now).1 is Process ==> handed_out(
            next(v, LoopEvent::Received(e), now).1,
        ) == v.pending.push(e),
        !(next(v, LoopEvent::Received(e), now).1 is Process) ==> next(
            v,
            LoopEvent::Received(e),
            now,
        ).0.pending == v.pending.push(e),
{
}

/// With the batch timeout not run out, a batch handed out on arrival holds
/// exactly `batch_size` events (or one event, with a batch size of 0).
pub proof fn lemma_full_batches_hold_batch_size<T>(v: LoopView<T>, e: T, now: u64)
    requires
        v.inv(),
        v.phase is Receiving,
        v.batch_timeout_ns > 0,
        v.pending.len() > 0 ==> elapsed_since(v.last_batch_ns, now) < v.batch_timeout_ns,
        next(v, LoopEvent::Received(e), now).1 is Process,
    ensures
        handed_out(next(v, LoopEvent::Received(e), now).1).len() == if v.batch_size == 0 {
            1
        } else {
            v.batch_size as int
        },
{
}

/// The batch timer hands out exactly the pending events, and only when some
/// are pending.
pub proof fn lemma_timer_hands_out_pending<T>(v: LoopView<T>, now: u64)
    requires
        v.inv(),
        v.phase is Receiving,
    ensures
        next(v, LoopEvent::TimerFired, now).1 is Process <==> v.pending.len() > 0,
        handed_out(next(v, LoopEvent::TimerFired, now).1) == v.pending,
{
}

/// The outcome of a batch is counted once per event of that batch under its
/// outcome, and only a success moves the average, by one step of the moving
/// average with the batch's time, whatever that time is (zero included).
pub proof fn lemma_outcome_updates_metrics<T>(
    v: LoopView<T>,
    outcome: BatchOutcome,
    elapsed_ms: u64,
    now: u64,
)
    requires
        v.inv(),
        v.accepts(LoopEvent::Completed { outcome, elapsed_ms }),
    ensures
        ({
            let m = next(v, LoopEvent::Completed { outcome, elapsed_ms }, now).0.metrics;
            let n = v.in_flight() as int;
            &&& m.processed == wrapped(v.metrics.processed + if outcome
                == BatchOutcome::Succeeded {
                n
            } else {
                0
            })
            &&& m.errors == wrapped(v.metrics.errors + if outcome == BatchOutcome::Failed {
                n
            } else {
                0
            })
            &&& m.timeouts == wrapped(v.metrics.timeouts + if outcome == BatchOutcome::TimedOut {
                n
            } else {
                0
            })
            &&& outcome == BatchOutcome::Succeeded ==> {
                &&& m.avg_processing_time_ms == next_average(
                    v.metrics.avg_processing_time_ms,
                    v.metrics.sampled,
                    elapsed_ms,
                )
                &&& m.sampled
            }
            &&& outcome != BatchOutcome::Succeeded ==> {
                &&& m.avg_processing_time_ms == v.metrics.avg_processing_time_ms
                &&& m.sampled == v.metrics.sampled
            }
        }),
{
    let n = v.in_flight() as int;
    lemma_wrapped_add(v.metrics.processed as int, 0);
    lemma_wrapped_add(v.metrics.errors as int, 0);
    lemma_wrapped_add(v.metrics.timeouts as int, 0);
}

} // verus!
