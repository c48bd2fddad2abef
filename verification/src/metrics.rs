use vstd::prelude::*;

verus! {

/// The value of a 64-bit counter that has been advanced to `n` from zero,
/// wrapping around at 2^64.
pub open spec fn wrapped(n: int) -> int {
    n % 0x1_0000_0000_0000_0000
}

/// The moving average after one more sample. The first sample (no sample
/// taken yet) becomes the average; after that the history weighs 7/8 and the
/// new sample 1/8, rounded down, whatever the current average is.
pub open spec fn next_average(current: u64, sampled: bool, sample_ms: u64) -> int {
    if !sampled {
        sample_ms as int
    } else {
        (current * 7 + sample_ms) / 8
    }
}

/// Whether `next_average(current, sampled, sample_ms)` can be computed in 64
/// bits.
pub open spec fn average_fits(current: u64, sampled: bool, sample_ms: u64) -> bool {
    !sampled || current * 7 + sample_ms <= u64::MAX
}

/// Advancing a counter that wrapped at 2^64 by `n` gives the wrapped advanced
/// count.
pub proof fn lemma_wrapped_add(a: int, n: int)
    ensures
        wrapped(wrapped(a) + n) == wrapped(a + n),
{
    vstd::arithmetic::div_mod::lemma_add_mod_noop_right(n, a, 0x1_0000_0000_0000_0000);
}

/// Counters of a processing loop: events processed, events whose batch failed,
/// events whose batch timed out, and the moving average of the processing time
/// of successful batches, in milliseconds, with whether any processing time
/// has been folded into that average yet.
#[derive(Debug)]
pub struct ProcessingMetrics {
    pub processed: u64,
    pub errors: u64,
    pub timeouts: u64,
    pub avg_processing_time_ms: u64,
    pub sampled: bool,
}

/// One of the calls that change `ProcessingMetrics`.
pub enum MetricsOp {
    IncProcessed,
    IncErrors,
    IncTimeouts,
    UpdateAvgTime(u64),
}

/// The counters after one call.
pub open spec fn apply_op(m: ProcessingMetrics, op: MetricsOp) -> ProcessingMetrics {
    match op {
        MetricsOp::IncProcessed => ProcessingMetrics {
            processed: wrapped(m.processed + 1) as u64,
            ..m
        },
        MetricsOp::IncErrors => ProcessingMetrics { errors: wrapped(m.errors + 1) as u64, ..m },
        MetricsOp::IncTimeouts => ProcessingMetrics {
            timeouts: wrapped(m.timeouts + 1) as u64,
            ..m
        },
        MetricsOp::UpdateAvgTime(d) => ProcessingMetrics {
            avg_processing_time_ms: next_average(m.avg_processing_time_ms, m.sampled, d) as u64,
            sampled: true,
            ..m
        },
    }
}

/// The counters after a sequence of calls, in order.
pub open spec fn apply_ops(m: ProcessingMetrics, ops: Seq<MetricsOp>) -> ProcessingMetrics
    decreases ops.len(),
{
    if ops.len() == 0 {
        m
    } else {
        apply_ops(apply_op(m, ops[0]), ops.drop_first())
    }
}

/// How many calls in `ops` are `IncProcessed`, `IncErrors`, `IncTimeouts`.
pub open spec fn count_incs(ops: Seq<MetricsOp>) -> (nat, nat, nat)
    decreases ops.len(),
{
    if ops.len() == 0 {
        (0, 0, 0)
    } else {
        let (p, e, t) = count_incs(ops.drop_first());
        match ops[0] {
            MetricsOp::IncProcessed => (p + 1, e, t),
            MetricsOp::IncErrors => (p, e + 1, t),
            MetricsOp::IncTimeouts => (p, e, t + 1),
            MetricsOp::UpdateAvgTime(_) => (p, e, t),
        }
    }
}

impl ProcessingMetrics {
    /// All counters at zero.
    pub fn new() -> (m: Self)
        ensures
            m.processed == 0,
            m.errors == 0,
            m.timeouts == 0,
            m.avg_processing_time_ms == 0,
            !m.sampled,
    {
        ProcessingMetrics {
            processed: 0,
            errors: 0,
            timeouts: 0,
            avg_processing_time_ms: 0,
            sampled: false,
        }
    }

    /// Counts one processed event; the counter wraps around at 2^64.
    pub fn inc_processed(&mut self)
        ensures
            *final(self) == apply_op(*old(self), MetricsOp::IncProcessed),
            final(self).processed == wrapped(old(self).processed + 1),
            final(self).errors == old(self).errors,
            final(self).timeouts == old(self).timeouts,
            final(self).avg_processing_time_ms == old(self).avg_processing_time_ms,
            final(self).sampled == old(self).sampled,
    {
        self.processed = self.processed.wrapping_add(1);
    }

    /// Counts one event whose processing failed; wraps around at 2^64.
    pub fn inc_errors(&mut self)
        ensures
            *final(self) == apply_op(*old(self), MetricsOp::IncErrors),
            final(self).errors == wrapped(old(self).errors + 1),
            final(self).processed == old(self).processed,
            final(self).timeouts == old(self).timeouts,
            final(self).avg_processing_time_ms == old(self).avg_processing_time_ms,
            final(self).sampled == old(self).sampled,
    {
        self.errors = self.errors.wrapping_add(1);
    }

    /// Counts one event whose processing timed out; wraps around at 2^64.
    pub fn inc_timeouts(&mut self)
        ensures
            *final(self) == apply_op(*old(self), MetricsOp::IncTimeouts),
            final(self).timeouts == wrapped(old(self).timeouts + 1),
            final(self).processed == old(self).processed,
            final(self).errors == old(self).errors,
            final(self).avg_processing_time_ms == old(self).avg_processing_time_ms,
            final(self).sampled == old(self).sampled,
    {
        self.timeouts = self.timeouts.wrapping_add(1);
    }

    /// Folds one processing time into the moving average (see `next_average`).
    pub fn update_avg_time(&mut self, duration_ms: u64)
        requires
            average_fits(old(self).avg_processing_time_ms, old(self).sampled, duration_ms),
        ensures
            *final(self) == apply_op(*old(self), MetricsOp::UpdateAvgTime(duration_ms)),
            final(self).avg_processing_time_ms == next_average(
                old(self).avg_processing_time_ms,
                old(self).sampled,
                duration_ms,
            ),
            final(self).sampled,
            final(self).processed == old(self).processed,
            final(self).errors == old(self).errors,
            final(self).timeouts == old(self).timeouts,
    {
        let current = self.avg_processing_time_ms;
        let new_avg = if !self.sampled {
            duration_ms
        } else {
            (current * 7 + duration_ms) / 8
        };
        self.avg_processing_time_ms = new_avg;
        self.sampled = true;
    }

    /// The four counters: processed, errors, timeouts, average time in ms.
    pub fn snapshot(&self) -> (s: (u64, u64, u64, u64))
        ensures
            s == (self.processed, self.errors, self.timeouts, self.avg_processing_time_ms),
    {
        (self.processed, self.errors, self.timeouts, self.avg_processing_time_ms)
    }
}

impl Default for ProcessingMetrics {
    fn default() -> (m: Self)
        ensures
            m.processed == 0,
            m.errors == 0,
            m.timeouts == 0,
            m.avg_processing_time_ms == 0,
            !m.sampled,
    {
        ProcessingMetrics::new()
    }
}

/// The first sample becomes the average.
pub proof fn lemma_first_sample_is_average(current: u64, sample_ms: u64)
    ensures
        next_average(current, false, sample_ms) == sample_ms,
{
}

/// Once a sample has been taken, a new average lies between the old average
/// and the sample: the moving average never leaves the range of what it has
/// seen.
pub proof fn lemma_average_between(current: u64, sample_ms: u64)
    ensures
        current <= sample_ms ==> current <= next_average(current, true, sample_ms) <= sample_ms,
        sample_ms <= current ==> sample_ms <= next_average(current, true, sample_ms) <= current,
{
}

/// A steady processing time keeps the average where it is.
pub proof fn lemma_steady_average(current: u64, sampled: bool)
    ensures
        next_average(current, sampled, current) == current,
{
}

/// The moving average in arithmetic terms: before any sample it is the
/// sample; after that, eight times the new average is the largest multiple of
/// eight not above seven times the old average plus the sample.
pub proof fn lemma_average_is_rounded_down_weighted_mean(
    current: u64,
    sampled: bool,
    sample_ms: u64,
)
    ensures
        !sampled ==> next_average(current, sampled, sample_ms) == sample_ms,
        sampled ==> 8 * next_average(current, sampled, sample_ms) <= 7 * current + sample_ms,
        sampled ==> 7 * current + sample_ms < 8 * next_average(current, sampled, sample_ms) + 8,
{
}

/// Over any sequence of calls, each counter has advanced by the number of its
/// increments, wrapping at 2^64; so as long as a counter does not pass
/// `u64::MAX`, it never decreases.
pub proof fn lemma_counters_only_grow(m: ProcessingMetrics, ops: Seq<MetricsOp>)
    ensures
        apply_ops(m, ops).processed == wrapped(m.processed + count_incs(ops).0),
        apply_ops(m, ops).errors == wrapped(m.errors + count_incs(ops).1),
        apply_ops(m, ops).timeouts == wrapped(m.timeouts + count_incs(ops).2),
        m.processed + count_incs(ops).0 <= u64::MAX ==> apply_ops(m, ops).processed
            >= m.processed,
        m.errors + count_incs(ops).1 <= u64::MAX ==> apply_ops(m, ops).errors >= m.errors,
        m.timeouts + count_incs(ops).2 <= u64::MAX ==> apply_ops(m, ops).timeouts >= m.timeouts,
    decreases ops.len(),
{
    if ops.len() > 0 {
        let m1 = apply_op(m, ops[0]);
        let rest = ops.drop_first();
        lemma_counters_only_grow(m1, rest);
        let c = count_incs(rest);
        lemma_wrapped_add(m.processed + 1, c.0 as int);
        lemma_wrapped_add(m.errors + 1, c.1 as int);
        lemma_wrapped_add(m.timeouts + 1, c.2 as int);
    }
}

} // verus!
