//! Usage anchors: the measured points the profiler reconciles its estimates against.
use vstd::prelude::*;

verus! {

#[derive(Debug, Clone, Copy, PartialEq, Eq, Structural)]
pub struct UsageSnapshot {
    /// Window occupancy, from the occupancy figure (`last`), never the accumulating `total`.
    pub reported_context_tokens: i64,
    pub input_tokens: i64,
    pub cached_input_tokens: i64,
    pub cache_write_input_tokens: i64,
    pub output_tokens: i64,
    pub reasoning_output_tokens: i64,
    /// Number of items observed when this anchor arrived.
    pub items_seq: u64,
}

} // verus!
