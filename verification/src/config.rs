use vstd::prelude::*;

verus! {

/// Settings of a stream processor. Durations are in nanoseconds.
#[derive(Clone, Copy, Debug)]
pub struct ProcessorConfig {
    /// Capacity of the bounded channel that feeds the processor.
    pub buffer_size: usize,
    /// Number of parallel workers.
    pub worker_count: usize,
    /// Longest time one batch may take to process, in nanoseconds.
    pub processing_timeout: u64,
    /// Events per batch (1 means no batching).
    pub batch_size: usize,
    /// Longest time a partial batch waits to fill, in nanoseconds.
    pub batch_timeout: u64,
}

/// Calls `num_cpus::get`, which returns the number of logical CPUs available
/// to this process. Its documentation promises a result of at least 1; the
/// value itself depends on the machine and is left open.
#[verifier::external_body]
fn available_cpus() -> (n: usize)
    ensures
        n >= 1,
{
    num_cpus::get()
}

impl ProcessorConfig {
    /// The default settings with `worker_count` workers: channel of 1000, a
    /// 30 s processing timeout, no batching and a 100 ms batch timeout.
    pub fn with_worker_count(worker_count: usize) -> (c: Self)
        ensures
            c.buffer_size == 1000,
            c.worker_count == worker_count,
            c.processing_timeout == 30_000_000_000,
            c.batch_size == 1,
            c.batch_timeout == 100_000_000,
    {
        ProcessorConfig {
            buffer_size: 1000,
            worker_count,
            processing_timeout: 30_000_000_000,
            batch_size: 1,
            batch_timeout: 100_000_000,
        }
    }
}

impl Default for ProcessorConfig {
    /// Channel of 1000, one worker per available CPU, a 30 s processing
    /// timeout, no batching and a 100 ms batch timeout.
    fn default() -> (c: Self)
        ensures
            c.buffer_size == 1000,
            c.worker_count >= 1,
            c.processing_timeout == 30_000_000_000,
            c.batch_size == 1,
            c.batch_timeout == 100_000_000,
    {
        ProcessorConfig::with_worker_count(available_cpus())
    }
}

} // verus!
