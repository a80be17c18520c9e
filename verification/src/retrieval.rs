//! Retrieval modes of Graph-RAG.

use vstd::prelude::*;

verus! {

/// Retrieval mode for Graph-RAG.
#[derive(Debug, Clone, Copy, PartialEq, Eq)]
pub enum RetrievalMode {
    /// Vector-only search (no graph expansion).
    VectorOnly,
    /// Graph-only search (traversal from seed nodes).
    GraphOnly,
    /// Vector search followed by graph expansion.
    Hybrid,
}

impl Default for RetrievalMode {
    fn default() -> (r: RetrievalMode)
        ensures
            r == RetrievalMode::Hybrid,
    {
        RetrievalMode::Hybrid
    }
}

} // verus!
