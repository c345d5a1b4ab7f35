use vstd::prelude::*;

verus! {

/// Capacity of the batch output channel between the pool workers and the
/// protocol consumer.
pub const NODE_CHAN_BOUND: usize = 1024;

/// Capacity hint for the per-client request buffer.
pub const DEFAULT_CLIENT_QUEUE: usize = 16384;

/// Tuning values for the client pools.
#[derive(Clone, Copy, Debug)]
pub struct ClientPoolConfig {
    /// Target count of messages per emitted batch; a hint, not a hard cap.
    pub batch_size: usize,
    /// Upper bound on the number of sinks a single pool holds.
    pub clients_per_pool: usize,
    /// Maximum wall-clock time, in microseconds, a collect cycle spends
    /// before sealing a batch.
    pub batch_timeout_micros: u64,
    /// Nominal pause between batches; the worker draws the actual pause
    /// from three to five quarters of this value.
    pub batch_sleep_micros: u64,
}

} // verus!
