# stream_processing

A batching stream processor whose decisions are proved with Verus.

- `src/metrics.rs`: the counters (processed, errors, timeouts) and the moving
  average of processing times, with their arithmetic.
- `src/config.rs`: the processor's settings and their defaults.
- `src/event.rs`: the event record shipped with the library.
- `src/batching.rs`: the processing loop as a state machine. It is told what
  happened (an event arrived, the channel closed, shutdown, the batch timer
  ran out, a batch finished) and answers what to do (process a batch, wait,
  stop). Its invariant says that the events handed to the processing function,
  followed by the pending ones, are exactly the events received, in order, and
  that the counters count every handed-out event under its outcome.
- `app/lib.rs`: the tokio side: the channel, the spawned task that drives the
  loop, timeouts, and JSON parsing of events with serde.
