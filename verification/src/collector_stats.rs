//! Statistics of the trace store.

use vstd::prelude::*;

verus! {

/// Storage statistics.
#[derive(Debug, Clone, Copy, PartialEq, Eq)]
pub struct StorageStats {
    /// Number of spans stored.
    pub span_count: usize,
    /// Number of events stored.
    pub event_count: usize,
    /// Storage size in bytes, if known.
    pub storage_size_bytes: Option<u64>,
}

} // verus!
