//! Decision core of a batching stream processor: the counters it keeps, its
//! configuration, the event record it ships with, and the loop that decides
//! when a batch is handed to the user's processing function.

pub mod batching;
pub mod config;
pub mod event;
pub mod metrics;

pub use batching::{ActionView, BatchOutcome, LoopAction, LoopEvent, LoopPhase, LoopView, ProcessorLoop};
pub use config::ProcessorConfig;
pub use event::Event;
pub use metrics::{MetricsOp, ProcessingMetrics};
