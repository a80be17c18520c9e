//! Schemas of the REST interface, as the API documentation describes them.

use vstd::prelude::*;

verus! {

/// The API documentation of the REST interface.
#[derive(Debug, Clone, Copy, PartialEq, Eq)]
pub struct ApiDoc;

/// Health check response schema.
#[derive(Debug, Clone, PartialEq, Eq)]
pub struct HealthResponse {
    /// Service status.
    pub status: String,
    /// API version.
    pub version: String,
}

/// Database statistics schema.
#[derive(Debug, Clone, Copy, PartialEq, Eq)]
pub struct DatabaseStats {
    /// Total number of nodes.
    pub node_count: usize,
    /// Total number of edges.
    pub edge_count: usize,
    /// Number of embedded nodes.
    pub embedded_count: usize,
}

/// Query request schema.
#[derive(Debug, Clone, PartialEq, Eq)]
pub struct QueryRequest {
    /// Query string (supports text search).
    pub query: String,
    /// Maximum number of results.
    pub limit: Option<usize>,
    /// Include metadata in results.
    pub include_metadata: bool,
}

/// Traverse request schema.
#[derive(Debug, Clone, PartialEq, Eq)]
pub struct TraverseRequest {
    /// Starting node id.
    pub start_id: u128,
    /// Maximum traversal depth.
    pub max_depth: usize,
    /// Maximum nodes to return.
    pub max_nodes: usize,
    /// Traversal direction (forward, backward, both).
    pub direction: String,
}

/// Hybrid search request schema.
#[derive(Debug, Clone, PartialEq, Eq)]
pub struct HybridSearchRequest {
    /// Query string for hybrid search.
    pub query: String,
    /// Number of results to return.
    pub k: usize,
}

} // verus!
