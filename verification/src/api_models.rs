//! Requests and replies of the database service.

use vstd::prelude::*;
use crate::chunk::ChunkType;
use crate::edge::Edge;
use crate::graph;
use crate::node::Node;
use crate::node_type::NodeType;
use crate::relation::Relation;
use crate::strategy::json_clone;

verus! {

broadcast use vstd::string::group_string_axioms;

/// Request to add a node (without an embedding; the service attaches
/// one).
#[derive(Debug, PartialEq)]
pub struct AddNodeRequest {
    /// Node content.
    pub content: String,
    /// Node type.
    pub node_type: NodeType,
    /// Optional attributes.
    pub attributes: Option<serde_json::Value>,
}

impl Clone for AddNodeRequest {
    fn clone(&self) -> (r: AddNodeRequest)
        ensures
            r == *self,
    {
        let attributes = match &self.attributes {
            Some(a) => Some(json_clone(a)),
            None => None,
        };
        AddNodeRequest { content: self.content.clone(), node_type: self.node_type, attributes }
    }
}

impl AddNodeRequest {
    /// A request for a node of the given content and type, without
    /// attributes.
    pub fn new(content: String, node_type: NodeType) -> (r: AddNodeRequest)
        ensures
            r == (AddNodeRequest { content, node_type, attributes: None }),
    {
        AddNodeRequest { content, node_type, attributes: None }
    }

    /// This request with the given attributes.
    pub fn with_attributes(self, attributes: serde_json::Value) -> (r: AddNodeRequest)
        ensures
            r == (AddNodeRequest { attributes: Some(attributes), ..self }),
    {
        AddNodeRequest { attributes: Some(attributes), ..self }
    }
}

/// Request to query the database.
#[derive(Debug, Clone, PartialEq, Eq)]
pub struct QueryRequest {
    /// Query string (PaQL or natural language).
    pub query: String,
    /// Maximum number of results.
    pub limit: Option<usize>,
    /// Whether to include metadata in results.
    pub include_metadata: bool,
}

/// Direction of a traversal request.
#[derive(Debug, Clone, Copy, PartialEq, Eq)]
pub enum TraverseDirection {
    /// Forward (outgoing edges).
    Forward,
    /// Backward (incoming edges).
    Backward,
    /// Both directions.
    Both,
}

/// The request direction of a graph direction (the same variant).
pub open spec fn from_graph_direction(d: graph::TraverseDirection) -> TraverseDirection {
    match d {
        graph::TraverseDirection::Forward => TraverseDirection::Forward,
        graph::TraverseDirection::Backward => TraverseDirection::Backward,
        graph::TraverseDirection::Both => TraverseDirection::Both,
    }
}

/// The graph direction of a request direction (the same variant).
pub open spec fn to_graph_direction(d: TraverseDirection) -> graph::TraverseDirection {
    match d {
        TraverseDirection::Forward => graph::TraverseDirection::Forward,
        TraverseDirection::Backward => graph::TraverseDirection::Backward,
        TraverseDirection::Both => graph::TraverseDirection::Both,
    }
}

impl From<graph::TraverseDirection> for TraverseDirection {
    fn from(dir: graph::TraverseDirection) -> (r: TraverseDirection) {
        match dir {
            graph::TraverseDirection::Forward => TraverseDirection::Forward,
            graph::TraverseDirection::Backward => TraverseDirection::Backward,
            graph::TraverseDirection::Both => TraverseDirection::Both,
        }
    }
}

impl vstd::std_specs::convert::FromSpecImpl<graph::TraverseDirection> for TraverseDirection {
    open spec fn obeys_from_spec() -> bool {
        true
    }

    open spec fn from_spec(dir: graph::TraverseDirection) -> TraverseDirection {
        from_graph_direction(dir)
    }
}

impl From<TraverseDirection> for graph::TraverseDirection {
    fn from(dir: TraverseDirection) -> (r: graph::TraverseDirection) {
        match dir {
            TraverseDirection::Forward => graph::TraverseDirection::Forward,
            TraverseDirection::Backward => graph::TraverseDirection::Backward,
            TraverseDirection::Both => graph::TraverseDirection::Both,
        }
    }
}

impl vstd::std_specs::convert::FromSpecImpl<TraverseDirection> for graph::TraverseDirection {
    open spec fn obeys_from_spec() -> bool {
        true
    }

    open spec fn from_spec(dir: TraverseDirection) -> graph::TraverseDirection {
        to_graph_direction(dir)
    }
}

/// Request for a graph traversal.
#[derive(Debug, Clone, Copy, PartialEq, Eq)]
pub struct TraverseRequest {
    /// Starting node id.
    pub start_id: u128,
    /// Maximum traversal depth.
    pub max_depth: usize,
    /// Maximum number of nodes to return.
    pub max_nodes: usize,
    /// Traversal direction.
    pub direction: TraverseDirection,
}

/// Request to get a node by id.
#[derive(Debug, Clone, Copy, PartialEq, Eq)]
pub struct GetNodeRequest {
    /// Node id.
    pub id: u128,
}

/// Request to delete a node.
#[derive(Debug, Clone, Copy, PartialEq, Eq)]
pub struct DeleteNodeRequest {
    /// Node id.
    pub id: u128,
}

/// Reply to a deletion.
#[derive(Debug, Clone, Copy, PartialEq, Eq)]
pub struct DeleteNodeResponse {
    /// Whether the node was found and deleted.
    pub deleted: bool,
    /// Id of the node.
    pub id: u128,
}

/// Health check reply.
#[derive(Debug, Clone, PartialEq, Eq)]
pub struct HealthResponse {
    /// Service status.
    pub status: String,
    /// Version.
    pub version: String,
    /// Uptime in seconds.
    pub uptime_secs: u64,
}

/// Hybrid search request.
#[derive(Debug, Clone, PartialEq, Eq)]
pub struct HybridSearchRequest {
    /// Query string.
    pub query: String,
    /// Maximum number of results.
    pub k: usize,
}

/// The number of results of a hybrid search when the request names none.
pub fn default_k() -> (r: usize)
    ensures
        r == 10,
{
    10
}

/// Whether ingested chunks get embeddings when the request does not say.
pub fn default_embed() -> (r: bool)
    ensures
        r,
{
    true
}

impl HybridSearchRequest {
    /// A hybrid search request.
    pub fn new(query: String, k: usize) -> (r: HybridSearchRequest)
        ensures
            r == (HybridSearchRequest { query, k }),
    {
        HybridSearchRequest { query, k }
    }
}

/// Reply to adding a node.
#[derive(Debug, Clone, PartialEq)]
pub struct AddNodeResponse {
    /// The created node, or the one that already had its id.
    pub node: Node,
    /// Whether the node was newly created.
    pub created: bool,
}

/// Request to add an edge (its weight and relation vector are kept by the
/// service beside the graph).
#[derive(Debug, PartialEq)]
pub struct AddEdgeRequest {
    /// Source node id.
    pub source: u128,
    /// Target node id.
    pub target: u128,
    /// Relation type.
    pub relation: Relation,
}

impl Clone for AddEdgeRequest {
    fn clone(&self) -> (r: AddEdgeRequest)
        ensures
            r == *self,
    {
        AddEdgeRequest { source: self.source, target: self.target, relation: self.relation.clone() }
    }
}

/// The relation of an edge request that names none.
pub open spec fn default_edge_relation() -> Relation {
    Relation::SimilarTo
}

impl Default for AddEdgeRequest {
    fn default() -> (r: AddEdgeRequest)
        ensures
            r == (AddEdgeRequest { source: 0, target: 0, relation: default_edge_relation() }),
    {
        AddEdgeRequest { source: 0, target: 0, relation: Relation::SimilarTo }
    }
}

/// Reply to adding an edge.
#[derive(Debug, Clone, PartialEq)]
pub struct AddEdgeResponse {
    /// The created edge.
    pub edge: Edge,
}

/// Reply to a node lookup.
#[derive(Debug, Clone, PartialEq)]
pub struct GetNodeResponse {
    /// The node, if found.
    pub node: Option<Node>,
}

/// Reply to a query (its execution time is measured by the caller).
#[derive(Debug, Clone, PartialEq)]
pub struct QueryResponse {
    /// Retrieved nodes.
    pub nodes: Vec<Node>,
    /// Total number of matching nodes (may exceed the nodes returned).
    pub total_count: usize,
    /// Whether the results were truncated.
    pub truncated: bool,
}

/// Reply to a traversal.
#[derive(Debug, Clone, PartialEq)]
pub struct TraverseResponse {
    /// Traversed nodes.
    pub nodes: Vec<Node>,
    /// The forward edges of the traversed nodes.
    pub edges: Vec<Edge>,
    /// Maximum depth reached.
    pub depth: usize,
    /// Whether the traversal stopped at its node limit.
    pub truncated: bool,
}

/// Counts of the database (the access statistics of the memory manager
/// are reported beside them by the service).
#[derive(Debug, Clone, Copy, PartialEq, Eq)]
pub struct DatabaseStats {
    /// Number of nodes in the graph.
    pub node_count: usize,
    /// Number of edges in the graph.
    pub edge_count: usize,
    /// Number of nodes with embeddings.
    pub embedded_count: usize,
}

/// Request to add many nodes and edges at once.
#[derive(Debug, Clone, PartialEq)]
pub struct BulkOperationRequest {
    /// Nodes to add.
    pub nodes: Vec<AddNodeRequest>,
    /// Edges to add.
    pub edges: Vec<AddEdgeRequest>,
}

/// Reply to a bulk operation.
#[derive(Debug, Clone, PartialEq)]
pub struct BulkOperationResponse {
    /// Ids of the created nodes.
    pub node_ids: Vec<u128>,
    /// Ids of the created edges.
    pub edge_ids: Vec<String>,
    /// Number of successful operations.
    pub success_count: usize,
    /// Number of failed operations.
    pub failure_count: usize,
    /// The messages of the failures.
    pub errors: Vec<String>,
}

/// How a document is cut into chunks on ingestion. The boundary threshold
/// of semantic chunking, a fraction between 0 and 1, is kept in
/// thousandths.
#[derive(Debug, Clone, Copy, PartialEq, Eq)]
pub enum ChunkingStrategy {
    /// Fixed-size chunking by character count.
    Fixed { chunk_size: usize, overlap: usize },
    /// Semantic chunking at sentence boundaries.
    Semantic { min_chunk_size: usize, max_chunk_size: usize, boundary_threshold: u32 },
    /// Hierarchical chunking with several levels.
    Hierarchical { include_sentences: bool, include_paragraphs: bool },
}

/// The strategy of an ingestion request that names none.
pub open spec fn default_chunking_strategy() -> ChunkingStrategy {
    ChunkingStrategy::Semantic { min_chunk_size: 100, max_chunk_size: 500, boundary_threshold: 500 }
}

impl Default for ChunkingStrategy {
    fn default() -> (r: ChunkingStrategy)
        ensures
            r == default_chunking_strategy(),
    {
        ChunkingStrategy::Semantic { min_chunk_size: 100, max_chunk_size: 500, boundary_threshold: 500 }
    }
}

/// Request to ingest a document (metadata for its chunks is attached by
/// the service).
#[derive(Debug, Clone, PartialEq, Eq)]
pub struct IngestDocumentRequest {
    /// Document title.
    pub title: Option<String>,
    /// Document content.
    pub content: String,
    /// Chunking strategy.
    pub chunking: Option<ChunkingStrategy>,
    /// Whether to generate embeddings for the chunks.
    pub embed: bool,
}

/// What the reply to an ingestion says of one chunk.
#[derive(Debug, PartialEq)]
pub struct ChunkInfo {
    /// Chunk id.
    pub id: u128,
    /// Chunk content.
    pub content: String,
    /// Chunk index.
    pub index: usize,
    /// Range in the original document.
    pub range: (usize, usize),
    /// Chunk type, as its variant is named.
    pub chunk_type: String,
    /// Parent chunk id.
    pub parent_id: Option<u128>,
    /// Child chunk ids.
    pub child_ids: Vec<u128>,
}

impl Clone for ChunkInfo {
    fn clone(&self) -> (r: ChunkInfo)
        ensures
            r.id == self.id,
            r.content@ == self.content@,
            r.index == self.index,
            r.range == self.range,
            r.chunk_type@ == self.chunk_type@,
            r.parent_id == self.parent_id,
            r.child_ids@ == self.child_ids@,
    {
        let child_ids = self.child_ids.clone();
        assert(child_ids@ =~= self.child_ids@);
        ChunkInfo {
            id: self.id,
            content: self.content.clone(),
            index: self.index,
            range: self.range,
            chunk_type: self.chunk_type.clone(),
            parent_id: self.parent_id,
            child_ids,
        }
    }
}

/// The name of a chunk type's variant.
pub open spec fn chunk_type_label(t: ChunkType) -> Seq<char> {
    match t {
        ChunkType::Document => "Document"@,
        ChunkType::Paragraph => "Paragraph"@,
        ChunkType::Sentence => "Sentence"@,
        ChunkType::Custom => "Custom"@,
    }
}

/// The name of a chunk type's variant, as the ingestion reply writes it.
pub fn chunk_type_variant(t: ChunkType) -> (r: String)
    ensures
        r@ == chunk_type_label(t),
{
    match t {
        ChunkType::Document => String::from_str("Document"),
        ChunkType::Paragraph => String::from_str("Paragraph"),
        ChunkType::Sentence => String::from_str("Sentence"),
        ChunkType::Custom => String::from_str("Custom"),
    }
}

/// Reply to an ingestion (its processing time is measured by the caller).
#[derive(Debug, Clone, PartialEq)]
pub struct IngestDocumentResponse {
    /// Id of the document node.
    pub document_id: u128,
    /// Number of chunks created.
    pub chunk_count: usize,
    /// The chunks.
    pub chunks: Vec<ChunkInfo>,
    /// Whether embeddings were asked for.
    pub embedded: bool,
}

} // verus!
