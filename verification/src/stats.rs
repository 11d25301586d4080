//! Per-shard telemetry: a monotonic count of frames accepted and a free-slot
//! gauge, overwritten after each push.

use vstd::prelude::*;

verus! {

/// One shard's counters, as last published by the producer.
#[derive(Clone, Copy, PartialEq, Eq, Structural, Debug)]
pub struct Stats {
    /// Free-slot gauge of the shard's ring, overwritten after each push.
    pub capacity: usize,
    /// Monotonic count of frames pushed to the shard's ring.
    pub rx_frames: usize,
}

} // verus!
