//! The database service: a node table kept beside the in-memory graph, and
//! the requests it answers (adding, reading and deleting nodes, adding
//! edges, text queries, traversals, statistics and document ingestion).
//!
//! Persistence, embeddings and the memory manager's access scores live
//! outside this library; this service is the in-memory core they wrap.

use vstd::prelude::*;
use crate::api_error::ApiError;
use crate::api_models::{
    AddEdgeRequest, AddEdgeResponse, AddNodeRequest, AddNodeResponse, BulkOperationRequest, BulkOperationResponse, DatabaseStats, DeleteNodeRequest,
    DeleteNodeResponse, GetNodeRequest, GetNodeResponse, HealthResponse, QueryResponse, TraverseRequest,
    TraverseResponse, to_graph_direction, ChunkInfo, ChunkingStrategy, IngestDocumentRequest, IngestDocumentResponse,
    chunk_type_label, chunk_type_variant, default_chunking_strategy,
};
use crate::chunk::{Chunk, result_seq};
use crate::chunk_error::{ChunkingError, chunking_error_text};
use crate::fixed::{FixedChunkConfig, FixedChunker, fixed_config_ok, fixed_outcome};
use crate::hierarchical::{HierarchicalChunkConfig, HierarchicalChunker, default_hierarchical_config, hierarchical_fits, hierarchy_outcome};
use crate::node_type::NodeType;
use crate::semantic::{SemanticChunkConfig, SemanticChunker, semantic_config_ok, semantic_fits, semantic_outcome};
use crate::strategy::{ChunkMetadata, ChunkingConfig, default_chunking_config};
use crate::text::trimmed;
use crate::edge::Edge;
use crate::graph::{GraphError, MemoryGraph, TraversalConfig, TraversalResult, TraverseDirection, bfs_outcome, duplicate_node_text, edges_at, graph_error_text, insert_node, insert_nodes, lemma_lookup, lemma_lookup_index, lookup, unique_ids};
use crate::node::Node;
use crate::source::Source;
use crate::text::{chars_of, lowercase, to_lower};
use crate::api_error::api_error_text;
use crate::ids::uuid_text;
use crate::relation::{Relation, relation_name};
use crate::strategy::{json_clone, views};

verus! {

broadcast use vstd::string::group_string_axioms;

/// The version the service reports in its health check.
pub const SERVICE_VERSION: &'static str = "0.1.0";

/// Removes the node with the given id from a table keyed by id.
pub open spec fn remove_node(ns: Seq<Node>, id: u128) -> Seq<Node> {
    if exists|i: int| 0 <= i < ns.len() && ns[i].id == id {
        ns.remove(choose|i: int| 0 <= i < ns.len() && ns[i].id == id)
    } else {
        ns
    }
}

/// A node freshly made for a request: its content and type, and its
/// attributes when the request gives some; from user input, not a chunk of
/// any document.
pub open spec fn made_for(n: Node, request: AddNodeRequest) -> bool {
    &&& n.content@ == request.content@
    &&& n.node_type == request.node_type
    &&& request.attributes matches Some(a) ==> n.attributes == a
    &&& n.source == Source::UserInput
    &&& n.document_id is None
    &&& n.chunk_index is None
}

/// The forward edges of each node, node after node.
pub open spec fn forward_edges(es: Seq<Edge>, ns: Seq<Node>) -> Seq<Edge>
    decreases ns.len(),
{
    if ns.len() == 0 {
        Seq::empty()
    } else {
        forward_edges(es, ns.drop_last()) + edges_at(es, ns.last().id, TraverseDirection::Forward)
    }
}

/// The edge an edge request makes.
pub open spec fn requested_edge(req: AddEdgeRequest) -> Edge {
    Edge { source: req.source, target: req.target, relation: req.relation, expired: false, replaced_by: None }
}

/// Both ends of the request are nodes of the table.
pub open spec fn ends_known(t: Seq<Node>, req: AddEdgeRequest) -> bool {
    lookup(t, req.source) is Some && lookup(t, req.target) is Some
}

/// The edges the requests with known ends make, in order.
pub open spec fn made_edges(t: Seq<Node>, reqs: Seq<AddEdgeRequest>) -> Seq<Edge>
    decreases reqs.len(),
{
    if reqs.len() == 0 {
        Seq::empty()
    } else if ends_known(t, reqs.last()) {
        made_edges(t, reqs.drop_last()).push(requested_edge(reqs.last()))
    } else {
        made_edges(t, reqs.drop_last())
    }
}

/// The identifier of an edge: source, target and relation, joined by `::`.
pub open spec fn edge_id_text(e: Edge) -> Seq<char> {
    uuid_text(e.source) + "::"@ + uuid_text(e.target) + "::"@ + relation_name(e.relation@)
}

/// The identifiers of the edges the requests with known ends make.
pub open spec fn made_edge_ids(t: Seq<Node>, reqs: Seq<AddEdgeRequest>) -> Seq<Seq<char>>
    decreases reqs.len(),
{
    if reqs.len() == 0 {
        Seq::empty()
    } else if ends_known(t, reqs.last()) {
        made_edge_ids(t, reqs.drop_last()).push(edge_id_text(requested_edge(reqs.last())))
    } else {
        made_edge_ids(t, reqs.drop_last())
    }
}

/// The end of a refused edge request reported as not found: the source if
/// unknown, else the target.
pub open spec fn missing_end(t: Seq<Node>, req: AddEdgeRequest) -> u128 {
    if lookup(t, req.source) is None {
        req.source
    } else {
        req.target
    }
}

/// The messages of the refused edge requests, in order.
pub open spec fn edge_failures(t: Seq<Node>, reqs: Seq<AddEdgeRequest>) -> Seq<Seq<char>>
    decreases reqs.len(),
{
    if reqs.len() == 0 {
        Seq::empty()
    } else if ends_known(t, reqs.last()) {
        edge_failures(t, reqs.drop_last())
    } else {
        edge_failures(t, reqs.drop_last()).push(
            "Edge creation failed: "@ + api_error_text(ApiError::NodeNotFound(missing_end(t, reqs.last()))),
        )
    }
}

/// The message of a refused node request: the graph already held its id.
pub open spec fn node_failure(id: u128) -> Seq<char> {
    "Node creation failed: "@ + "Storage error: "@ + duplicate_node_text(id)
}

/// The message of a refused node request, for some id.
pub open spec fn is_node_failure(s: Seq<char>) -> bool {
    exists|id: u128| s == node_failure(id)
}

/// The ids a bulk operation reports for its node requests: for each
/// request, in order, the id of the node made for it when it was added.
pub open spec fn reported_ids(made: Seq<Node>, ok: Seq<bool>) -> Seq<u128>
    decreases made.len(),
{
    if made.len() == 0 {
        Seq::empty()
    } else {
        let rest = reported_ids(made.drop_last(), ok.drop_last());
        if ok[made.len() - 1] {
            rest.push(made.last().id)
        } else {
            rest
        }
    }
}

/// The refusals a bulk operation reports for its node requests: for each
/// request, in order, the failure naming the id of the node made for it
/// when it was refused.
pub open spec fn node_failures(made: Seq<Node>, ok: Seq<bool>) -> Seq<Seq<char>>
    decreases made.len(),
{
    if made.len() == 0 {
        Seq::empty()
    } else {
        let rest = node_failures(made.drop_last(), ok.drop_last());
        if ok[made.len() - 1] {
            rest
        } else {
            rest.push(node_failure(made.last().id))
        }
    }
}

/// The nodes of a bulk operation that were stored, in request order: each
/// node made for a request whose `created` mark is set.
pub open spec fn created_nodes(made: Seq<Node>, created: Seq<bool>) -> Seq<Node>
    decreases made.len(),
{
    if made.len() == 0 {
        Seq::empty()
    } else {
        let rest = created_nodes(made.drop_last(), created.drop_last());
        if created[made.len() - 1] {
            rest.push(made.last())
        } else {
            rest
        }
    }
}

/// The `k`-th node request of a bulk operation, against the table `t0`
/// and the graph nodes `g0` as they were before the operation, grown by
/// the nodes stored for the requests before it: its node is stored exactly
/// when it succeeds and its id is new to the table, and it is refused
/// exactly when its id is new to the table but already in the graph.
pub open spec fn node_step(t0: Seq<Node>, g0: Seq<Node>, made: Seq<Node>, ok: Seq<bool>, created: Seq<bool>, k: int) -> bool {
    let before = created_nodes(made.take(k), created.take(k));
    let tk = t0 + before;
    let gk = g0 + before;
    &&& created[k] <==> (ok[k] && lookup(tk, made[k].id) is None)
    &&& !ok[k] <==> (lookup(tk, made[k].id) is None && lookup(gk, made[k].id) is Some)
}

/// What the node requests of a bulk operation come to, against the table
/// `t0` and the graph nodes `g0` before it: one node made for each
/// request, in order, whether the request succeeded and whether its node
/// was stored (each step as `node_step` says); the ids reported and the
/// failures follow from them.
pub open spec fn node_requests_done(
    reqs: Seq<AddNodeRequest>,
    t0: Seq<Node>,
    g0: Seq<Node>,
    made: Seq<Node>,
    ok: Seq<bool>,
    created: Seq<bool>,
    ids: Seq<u128>,
    failures: Seq<Seq<char>>,
) -> bool {
    &&& made.len() == reqs.len()
    &&& ok.len() == reqs.len()
    &&& created.len() == reqs.len()
    &&& forall|k: int| 0 <= k < made.len() ==> made_for(#[trigger] made[k], reqs[k])
    &&& forall|k: int| 0 <= k < made.len() ==> #[trigger] node_step(t0, g0, made, ok, created, k)
    &&& ids == reported_ids(made, ok)
    &&& failures == node_failures(made, ok)
}

/// Extending the requests by one leaves the earlier steps as they were.
proof fn lemma_node_step_extend(t0: Seq<Node>, g0: Seq<Node>, made: Seq<Node>, ok: Seq<bool>, created: Seq<bool>, n: Node, o: bool, c: bool, k: int)
    requires
        0 <= k < made.len(),
        made.len() == ok.len(),
        made.len() == created.len(),
        node_step(t0, g0, made, ok, created, k),
    ensures
        node_step(t0, g0, made.push(n), ok.push(o), created.push(c), k),
{
    assert(made.push(n).take(k) =~= made.take(k));
    assert(created.push(c).take(k) =~= created.take(k));
    assert(made.push(n)[k] == made[k]);
    assert(ok.push(o)[k] == ok[k]);
    assert(created.push(c)[k] == created[k]);
}

/// The last node pushed onto a table answers for its id; other ids keep
/// their answers.
pub proof fn lemma_lookup_push(t: Seq<Node>, n: Node, id: u128)
    ensures
        lookup(t.push(n), id) == (if n.id == id { Some(n) } else { lookup(t, id) }),
{
    assert(t.push(n).drop_last() =~= t);
}

/// The configuration a fixed-size strategy sets up.
pub open spec fn fixed_setup(chunk_size: usize, overlap: usize) -> FixedChunkConfig {
    FixedChunkConfig {
        base: ChunkingConfig {
            max_chunk_size: chunk_size,
            min_chunk_size: chunk_size / 10,
            overlap: overlap,
            ..default_chunking_config()
        },
        chunk_size,
        overlap_size: overlap,
    }
}

/// The configuration a semantic strategy sets up (its minimum is a tenth
/// of the maximum, whatever the strategy names).
pub open spec fn semantic_setup(max_chunk_size: usize, boundary_threshold: u32) -> SemanticChunkConfig {
    SemanticChunkConfig {
        base: ChunkingConfig {
            max_chunk_size,
            min_chunk_size: max_chunk_size / 10,
            semantic_threshold: boundary_threshold,
            ..default_chunking_config()
        },
        max_chunk_size,
        min_chunk_size: max_chunk_size / 10,
        boundary_threshold,
        window_size: 2,
    }
}

/// A chunking result as the service reports it: a chunker's error becomes
/// an internal error with its message.
pub open spec fn reported(cr: Result<Seq<Chunk>, ChunkingError>, r: Result<Seq<Chunk>, ApiError>) -> bool {
    match cr {
        Ok(cs) => r == Ok::<Seq<Chunk>, ApiError>(cs),
        Err(e) => r matches Err(ApiError::Internal(m)) && m@ == chunking_error_text(e),
    }
}

/// An internal error with the given message.
pub open spec fn internal_error(r: Result<Seq<Chunk>, ApiError>, m: Seq<char>) -> bool {
    r matches Err(ApiError::Internal(x)) && x@ == m
}

/// What chunking a document under a strategy gives: a configuration that
/// does not validate is refused with its message; otherwise what the
/// strategy's chunker gives for the content.
pub open spec fn document_chunks(strategy: ChunkingStrategy, content: Seq<char>, r: Result<Seq<Chunk>, ApiError>) -> bool {
    match strategy {
        ChunkingStrategy::Fixed { chunk_size, overlap } => {
            let cfg = fixed_setup(chunk_size, overlap);
            &&& chunk_size == 0 ==> internal_error(r, "Invalid chunk size: "@ + "chunk_size must be greater than 0"@)
            &&& chunk_size > 0 && overlap >= chunk_size ==> internal_error(
                r,
                "Invalid overlap size: "@ + "overlap_size must be less than chunk_size"@,
            )
            &&& fixed_config_ok(cfg) ==> exists|cr: Result<Seq<Chunk>, ChunkingError>| fixed_outcome(cr, content, cfg) && reported(cr, r)
        },
        ChunkingStrategy::Semantic { min_chunk_size: _, max_chunk_size, boundary_threshold } => {
            let cfg = semantic_setup(max_chunk_size, boundary_threshold);
            &&& max_chunk_size == 0 ==> internal_error(r, "Invalid chunk size: "@ + "max_chunk_size must be greater than 0"@)
            &&& max_chunk_size > 0 && boundary_threshold > 1000 ==> internal_error(
                r,
                "Configuration error: "@ + "boundary_threshold must be between 0.0 and 1.0"@,
            )
            &&& semantic_config_ok(cfg) ==> exists|cr: Result<Seq<Chunk>, ChunkingError>| semantic_outcome(cr, content, cfg) && reported(cr, r)
        },
        ChunkingStrategy::Hierarchical { .. } => exists|cr: Result<Seq<Chunk>, ChunkingError>|
            hierarchy_outcome(cr, content, default_hierarchical_config()) && reported(cr, r),
    }
}

/// The view of the chunks a service call gave.
pub open spec fn chunks_view(r: Result<Vec<Chunk>, ApiError>) -> Result<Seq<Chunk>, ApiError> {
    match r {
        Ok(v) => Ok(v@),
        Err(e) => Err(e),
    }
}

/// The content can be chunked under the strategy: the semantic chunker's
/// sums fit in machine integers and the hierarchical chunker's byte cuts
/// fall on char boundaries (fixed-size chunking takes any content).
pub open spec fn chunkable(strategy: ChunkingStrategy, content: Seq<char>) -> bool {
    match strategy {
        ChunkingStrategy::Fixed { .. } => true,
        ChunkingStrategy::Semantic { min_chunk_size: _, max_chunk_size, boundary_threshold } => semantic_config_ok(
            semantic_setup(max_chunk_size, boundary_threshold),
        ) ==> semantic_fits(trimmed(content), semantic_setup(max_chunk_size, boundary_threshold)),
        ChunkingStrategy::Hierarchical { .. } => hierarchical_fits(content, default_hierarchical_config()),
    }
}

/// The strategy of an ingestion request.
pub open spec fn strategy_of(request: IngestDocumentRequest) -> ChunkingStrategy {
    match request.chunking {
        Some(s) => s,
        None => default_chunking_strategy(),
    }
}

/// The title a document is recorded under.
pub open spec fn document_title(request: IngestDocumentRequest) -> Seq<char> {
    match request.title {
        Some(t) => t@,
        None => "Untitled Document"@,
    }
}

/// The reply's information on each chunk.
pub open spec fn describes(infos: Seq<ChunkInfo>, cs: Seq<Chunk>) -> bool {
    &&& infos.len() == cs.len()
    &&& forall|k: int| 0 <= k < cs.len() ==> {
        &&& (#[trigger] infos[k]).id == cs[k].id
        &&& infos[k].content@ == cs[k].content@
        &&& infos[k].index == cs[k].index
        &&& infos[k].range == cs[k].range
        &&& infos[k].chunk_type@ == chunk_type_label(cs[k].chunk_type)
        &&& infos[k].parent_id == cs[k].parent_id
        &&& infos[k].child_ids@ == cs[k].child_ids@
    }
}

/// The nodes made for the chunks: each one holds its chunk's content, as
/// a concept from user input.
pub open spec fn made_for_chunks(made: Seq<Node>, cs: Seq<Chunk>) -> bool {
    &&& made.len() == cs.len()
    &&& forall|k: int| 0 <= k < cs.len() ==> {
        &&& (#[trigger] made[k]).content@ == cs[k].content@
        &&& made[k].node_type == NodeType::Concept
        &&& made[k].source == Source::UserInput
        &&& made[k].document_id is None
        &&& made[k].chunk_index is None
    }
}

/// The edges that make each chunk node part of the document.
pub open spec fn part_of_edges(made: Seq<Node>, doc: u128) -> Seq<Edge> {
    Seq::new(
        made.len(),
        |k: int| Edge { source: made[k].id, target: doc, relation: Relation::IsPartOf, expired: false, replaced_by: None },
    )
}

/// A parsed query, as the text search reads it: text searches combined by
/// `And`, `Or`, `Not` and filters, and the graph and hybrid searches that
/// the text search passes over.
#[derive(Debug)]
pub enum QueryNode {
    /// Search the contents for a text.
    TextSearch { query: String },
    /// Both sides.
    And { left: Box<QueryNode>, right: Box<QueryNode> },
    /// Either side.
    Or { left: Box<QueryNode>, right: Box<QueryNode> },
    /// The negation of a query.
    Not { input: Box<QueryNode> },
    /// A query with a filter on its results.
    Filter { input: Box<QueryNode> },
    /// A graph traversal.
    GraphTraversal,
    /// A hybrid vector and graph search.
    HybridSearch,
}

/// Whether a content satisfies a query: a text search when, both
/// lower-cased, its text occurs in the content; `And` when both sides do;
/// `Or` when either does; `Not` when its input does not; a filter when its
/// input does. Graph and hybrid searches select nothing here.
pub open spec fn satisfies(q: QueryNode, content: Seq<char>) -> bool
    decreases q,
{
    match q {
        QueryNode::TextSearch { query } => text_matches(content, query@),
        QueryNode::And { left, right } => satisfies(*left, content) && satisfies(*right, content),
        QueryNode::Or { left, right } => satisfies(*left, content) || satisfies(*right, content),
        QueryNode::Not { input } => !satisfies(*input, content),
        QueryNode::Filter { input } => satisfies(*input, content),
        _ => false,
    }
}

/// The nodes whose content satisfies a query, in order.
pub open spec fn selected(ns: Seq<Node>, q: QueryNode) -> Seq<Node>
    decreases ns.len(),
{
    if ns.len() == 0 {
        Seq::empty()
    } else if satisfies(q, ns.last().content@) {
        selected(ns.drop_last(), q).push(ns.last())
    } else {
        selected(ns.drop_last(), q)
    }
}

/// `t` occurs in `s` as a run of consecutive chars.
pub open spec fn has_infix(s: Seq<char>, t: Seq<char>) -> bool {
    exists|i: int| 0 <= i <= s.len() - t.len() && #[trigger] s.subrange(i, i + t.len()) == t
}

/// A content matches a search text when, both lower-cased, the text
/// occurs in it.
pub open spec fn text_matches(content: Seq<char>, term: Seq<char>) -> bool {
    has_infix(lowercase(content), lowercase(term))
}

/// A content matches one of the search texts.
pub open spec fn matches_any(content: Seq<char>, ts: Seq<Seq<char>>) -> bool {
    exists|k: int| 0 <= k < ts.len() && text_matches(content, #[trigger] ts[k])
}

/// The nodes whose content matches one of the texts, in order.
pub open spec fn matching(ns: Seq<Node>, ts: Seq<Seq<char>>) -> Seq<Node>
    decreases ns.len(),
{
    if ns.len() == 0 {
        Seq::empty()
    } else if matches_any(ns.last().content@, ts) {
        matching(ns.drop_last(), ts).push(ns.last())
    } else {
        matching(ns.drop_last(), ts)
    }
}

/// The first `limit` nodes, when there is a limit.
pub open spec fn limited(ns: Seq<Node>, limit: Option<usize>) -> Seq<Node> {
    match limit {
        Some(l) => if ns.len() > l {
            ns.take(l as int)
        } else {
            ns
        },
        None => ns,
    }
}

/// What the text search of a query gives: the nodes satisfying the query,
/// in table order, cut to the limit.
pub open spec fn searched(table: Seq<Node>, q: QueryNode, limit: Option<usize>, v: Seq<Node>) -> bool {
    v == limited(selected(table, q), limit)
}

/// The ids of the nodes added one after the other to `gn` are all new.
pub open spec fn clash_free(gn: Seq<Node>, added: Seq<Node>) -> bool {
    forall|i: int| 0 <= i < added.len() ==> lookup(gn + added.take(i), #[trigger] added[i].id) is None
}

proof fn lemma_clash_free_step(gn: Seq<Node>, added: Seq<Node>, i: int)
    requires
        0 <= i < added.len(),
        clash_free(gn, added.take(i)),
        lookup(gn + added.take(i), added[i].id) is None,
    ensures
        clash_free(gn, added.take(i + 1)),
        gn + added.take(i + 1) == (gn + added.take(i)).push(added[i]),
        added.take(i + 1).drop_last() == added.take(i),
{
    let next = added.take(i + 1);
    assert(next.drop_last() =~= added.take(i));
    assert(gn + next =~= (gn + added.take(i)).push(added[i]));
    assert forall|j: int| 0 <= j < next.len() implies lookup(gn + next.take(j), #[trigger] next[j].id) is None by {
        assert(next.take(j) =~= added.take(i).take(j));
        if j < i {
            assert(next[j] == added.take(i)[j]);
        }
    }
}

proof fn lemma_clash_at(gn: Seq<Node>, added: Seq<Node>, i: int)
    requires
        0 <= i < added.len(),
        lookup(gn + added.take(i), added[i].id) is Some,
    ensures
        !clash_free(gn, added),
{
}


/// Whether `t` occurs in `s` at position `i`.
fn occurs_at(s: &Vec<char>, t: &Vec<char>, i: usize) -> (r: bool)
    requires
        i + t@.len() <= s@.len(),
    ensures
        r == (s@.subrange(i as int, i + t@.len()) == t@),
{
    let n = s.len();
    let mut k: usize = 0;
    while k < t.len()
        invariant
            n == s@.len(),
            i + t@.len() <= s@.len(),
            k <= t@.len(),
            forall|j: int| 0 <= j < k ==> s@[i + j] == t@[j],
        decreases t@.len() - k,
    {
        assert(i + k < s@.len());
        if s[i + k] != t[k] {
            assert(s@.subrange(i as int, i + t@.len())[k as int] != t@[k as int]);
            return false;
        }
        k = k + 1;
    }
    assert(s@.subrange(i as int, i + t@.len()) =~= t@);
    true
}

/// Whether `t` occurs in `s`.
pub(crate) fn find_infix(s: &Vec<char>, t: &Vec<char>) -> (r: bool)
    ensures
        r == has_infix(s@, t@),
{
    if t.len() > s.len() {
        return false;
    }
    let last = s.len() - t.len();
    let mut i: usize = 0;
    while i < last
        invariant
            last == s@.len() - t@.len(),
            t@.len() <= s@.len(),
            i <= last,
            forall|j: int| 0 <= j < i ==> #[trigger] s@.subrange(j, j + t@.len()) != t@,
        decreases last - i,
    {
        if occurs_at(s, t, i) {
            return true;
        }
        i = i + 1;
    }
    if occurs_at(s, t, last) {
        return true;
    }
    assert forall|j: int| 0 <= j <= s@.len() - t@.len() implies #[trigger] s@.subrange(j, j + t@.len()) != t@ by {
        if j < last {
        } else {
            assert(j == last);
        }
    }
    false
}

/// Chunks a document's content under a strategy, the title as the source
/// of its metadata. A configuration that does not validate, and a
/// chunker's error, are reported as internal errors.
pub fn chunk_document(strategy: ChunkingStrategy, title: &str, content: &str) -> (r: Result<Vec<Chunk>, ApiError>)
    requires
        chunkable(strategy, content@),
    ensures
        document_chunks(strategy, content@, chunks_view(r)),
{
    let metadata = ChunkMetadata::new().with_source(String::from_str(title));
    match strategy {
        ChunkingStrategy::Fixed { chunk_size, overlap } => {
            let config = FixedChunkConfig::new(chunk_size, overlap);
            assert(config == fixed_setup(chunk_size, overlap));
            let chunker = match FixedChunker::with_config(config) {
                Ok(c) => c,
                Err(e) => {
                    return Err(ApiError::Internal(e.to_string()));
                },
            };
            let res = chunker.chunk(content, metadata);
            let ghost cr = result_seq(res);
            let r = match res {
                Ok(cs) => Ok(cs),
                Err(e) => Err(ApiError::Internal(e.to_string())),
            };
            assert(fixed_outcome(cr, content@, fixed_setup(chunk_size, overlap)) && reported(cr, chunks_view(r)));
            r
        },
        ChunkingStrategy::Semantic { min_chunk_size: _, max_chunk_size, boundary_threshold } => {
            let config = SemanticChunkConfig::new(max_chunk_size, boundary_threshold);
            assert(config == semantic_setup(max_chunk_size, boundary_threshold));
            let chunker = match SemanticChunker::with_config(config) {
                Ok(c) => c,
                Err(e) => {
                    return Err(ApiError::Internal(e.to_string()));
                },
            };
            let res = chunker.chunk(content, metadata);
            let ghost cr = result_seq(res);
            let r = match res {
                Ok(cs) => Ok(cs),
                Err(e) => Err(ApiError::Internal(e.to_string())),
            };
            assert(semantic_outcome(cr, content@, semantic_setup(max_chunk_size, boundary_threshold)) && reported(cr, chunks_view(r)));
            r
        },
        ChunkingStrategy::Hierarchical { .. } => {
            let config = HierarchicalChunkConfig::new();
            let chunker = match HierarchicalChunker::with_config(config) {
                Ok(c) => c,
                Err(e) => {
                    return Err(ApiError::Internal(e.to_string()));
                },
            };
            let res = chunker.chunk(content, metadata);
            let ghost cr = result_seq(res);
            let r = match res {
                Ok(cs) => Ok(cs),
                Err(e) => Err(ApiError::Internal(e.to_string())),
            };
            assert(hierarchy_outcome(cr, content@, default_hierarchical_config()) && reported(cr, chunks_view(r)));
            r
        },
    }
}

/// What a traversal answers on a graph: the nodes that a breadth-first
/// search from the start reaches within the request's depth and node
/// limits, in its direction and leaving the start out, with the depth
/// reached and whether the node limit stopped it; and the forward edges of
/// every node reached.
pub open spec fn traversal_answer(ns: Seq<Node>, es: Seq<Edge>, request: TraverseRequest, resp: TraverseResponse) -> bool {
    &&& exists|cfg: TraversalConfig, tr: TraversalResult|
        {
            &&& cfg.max_depth == request.max_depth
            &&& cfg.max_nodes == request.max_nodes
            &&& cfg.direction == to_graph_direction(request.direction)
            &&& cfg.relation_filter@.len() == 0
            &&& !cfg.include_start
            &&& #[trigger] bfs_outcome(ns, es, request.start_id, cfg, Ok(tr))
            &&& resp.nodes@ == tr.nodes@
            &&& resp.depth == tr.depth
            &&& resp.truncated == tr.truncated
        }
    &&& resp.edges@ == forward_edges(es, resp.nodes@)
}

/// The SYNTON-DB service: a table of nodes keyed by id, and the in-memory
/// graph of nodes and edges.
pub struct SyntonDbService {
    graph: MemoryGraph,
    nodes: Vec<Node>,
}

impl SyntonDbService {
    #[verifier::type_invariant]
    spec fn wf(&self) -> bool {
        unique_ids(self.nodes@)
    }

    /// The node table: the nodes the service answers for, keyed by id.
    pub closed spec fn table(&self) -> Seq<Node> {
        self.nodes@
    }

    /// The nodes of the graph.
    pub closed spec fn graph_nodes(&self) -> Seq<Node> {
        self.graph.node_seq()
    }

    /// The edges of the graph.
    pub closed spec fn graph_edges(&self) -> Seq<Edge> {
        self.graph.edge_seq()
    }

    /// A service with no nodes and no edges.
    pub fn new() -> (r: SyntonDbService)
        ensures
            r.table() == Seq::<Node>::empty(),
            r.graph_nodes() == Seq::<Node>::empty(),
            r.graph_edges() == Seq::<Edge>::empty(),
    {
        SyntonDbService { graph: MemoryGraph::new(), nodes: Vec::new() }
    }

    /// The health of the service: healthy, with its version.
    pub fn health(&self) -> (r: HealthResponse)
        ensures
            r.status@ == "healthy"@,
            r.version@ == SERVICE_VERSION@,
            r.uptime_secs == 0,
    {
        HealthResponse {
            status: String::from_str("healthy"),
            version: String::from_str(SERVICE_VERSION),
            uptime_secs: 0,
        }
    }

    fn table_index(&self, id: u128) -> (r: Option<usize>)
        ensures
            r matches Some(k) ==> k < self.nodes@.len() && self.nodes@[k as int].id == id,
            r is None ==> forall|i: int| 0 <= i < self.nodes@.len() ==> self.nodes@[i].id != id,
    {
        let mut i: usize = 0;
        while i < self.nodes.len()
            invariant
                i <= self.nodes@.len(),
                forall|j: int| 0 <= j < i ==> self.nodes@[j].id != id,
            decreases self.nodes@.len() - i,
        {
            if self.nodes[i].id == id {
                return Some(i);
            }
            i = i + 1;
        }
        None
    }

    fn contains_node(&self, id: u128) -> (r: bool)
        ensures
            r == (lookup(self.table(), id) is Some),
    {
        proof {
            lemma_lookup(self.nodes@, id);
        }
        self.table_index(id).is_some()
    }

    /// Adds a node made from the request, with a fresh id, to the graph and
    /// the table. Should its id already be in the table, that node is given
    /// back as not created; should the graph already hold it, the graph's
    /// refusal is reported.
    pub fn add_node(&mut self, request: AddNodeRequest) -> (r: Result<AddNodeResponse, ApiError>)
        ensures
            exists|n: Node| #[trigger] made_for(n, request) && n.id != 0 && {
                &&& r matches Ok(resp) ==> {
                    &&& (resp.created <==> lookup(old(self).table(), n.id) is None)
                    &&& resp.created ==> resp.node == n
                    &&& !resp.created ==> lookup(old(self).table(), n.id) == Some(resp.node)
                }
                &&& r matches Err(e) ==> {
                    &&& lookup(old(self).table(), n.id) is None
                    &&& lookup(old(self).graph_nodes(), n.id) is Some
                    &&& e matches ApiError::Storage(m) && m@ == duplicate_node_text(n.id)
                }
            },
            r matches Ok(resp) ==> (resp.created ==> {
                &&& made_for(resp.node, request)
                &&& lookup(old(self).table(), resp.node.id) is None
                &&& lookup(old(self).graph_nodes(), resp.node.id) is None
                &&& final(self).table() == old(self).table().push(resp.node)
                &&& final(self).graph_nodes() == old(self).graph_nodes().push(resp.node)
                &&& final(self).graph_edges() == old(self).graph_edges()
            }),
            r matches Ok(resp) ==> (!resp.created ==> {
                &&& lookup(old(self).table(), resp.node.id) == Some(resp.node)
                &&& final(self).table() == old(self).table()
                &&& final(self).graph_nodes() == old(self).graph_nodes()
                &&& final(self).graph_edges() == old(self).graph_edges()
            }),
            r matches Err(e) ==> {
                &&& exists|id: u128|
                    lookup(old(self).table(), id) is None && lookup(old(self).graph_nodes(), id) is Some
                        && (e matches ApiError::Storage(m) && m@ == duplicate_node_text(id))
                &&& final(self).table() == old(self).table()
                &&& final(self).graph_nodes() == old(self).graph_nodes()
                &&& final(self).graph_edges() == old(self).graph_edges()
            },
    {
        proof {
            use_type_invariant(&*self);
        }
        let mut node = Node::new(request.content.as_str(), request.node_type);
        match &request.attributes {
            Some(a) => {
                node = node.with_attributes(json_clone(a));
            },
            None => {},
        }
        assert(made_for(node, request));
        match self.table_index(node.id) {
            Some(k) => {
                proof {
                    lemma_lookup_index(self.nodes@, k as int);
                }
                return Ok(AddNodeResponse { node: self.nodes[k].clone(), created: false });
            },
            None => {},
        }
        proof {
            lemma_lookup(self.nodes@, node.id);
        }
        let mut g = MemoryGraph::new();
        std::mem::swap(&mut g, &mut self.graph);
        let added = g.add_node(node.clone());
        self.graph = g;
        match added {
            Ok(()) => {},
            Err(e) => {
                return Err(ApiError::from_graph(&e));
            },
        }
        let mut ns: Vec<Node> = Vec::new();
        std::mem::swap(&mut ns, &mut self.nodes);
        ns.push(node.clone());
        self.nodes = ns;
        Ok(AddNodeResponse { node, created: true })
    }

    /// Adds an edge between two nodes of the table; an unknown source, then
    /// an unknown target, is refused as not found.
    pub fn add_edge(&mut self, request: AddEdgeRequest) -> (r: Result<AddEdgeResponse, ApiError>)
        ensures
            lookup(old(self).table(), request.source) is None ==> r == Err::<AddEdgeResponse, ApiError>(
                ApiError::NodeNotFound(request.source),
            ),
            lookup(old(self).table(), request.source) is Some && lookup(old(self).table(), request.target) is None
                ==> r == Err::<AddEdgeResponse, ApiError>(ApiError::NodeNotFound(request.target)),
            r is Err ==> final(self).graph_edges() == old(self).graph_edges(),
            lookup(old(self).table(), request.source) is Some && lookup(old(self).table(), request.target) is Some
                ==> (r matches Ok(resp) && resp.edge == (Edge {
                    source: request.source,
                    target: request.target,
                    relation: request.relation,
                    expired: false,
                    replaced_by: None,
                })
                && final(self).graph_edges() == old(self).graph_edges().push(resp.edge)),
            final(self).table() == old(self).table(),
            final(self).graph_nodes() == old(self).graph_nodes(),
    {
        proof {
            use_type_invariant(&*self);
        }
        if !self.contains_node(request.source) {
            return Err(ApiError::NodeNotFound(request.source));
        }
        if !self.contains_node(request.target) {
            return Err(ApiError::NodeNotFound(request.target));
        }
        let edge = Edge::new(request.source, request.target, request.relation);
        let mut g = MemoryGraph::new();
        std::mem::swap(&mut g, &mut self.graph);
        let _ = g.add_edge(edge.clone());
        self.graph = g;
        Ok(AddEdgeResponse { edge })
    }

    /// The node with the id, from the table.
    pub fn get_node(&self, request: GetNodeRequest) -> (r: Result<GetNodeResponse, ApiError>)
        ensures
            r == Ok::<GetNodeResponse, ApiError>(GetNodeResponse { node: lookup(self.table(), request.id) }),
    {
        proof {
            use_type_invariant(self);
        }
        match self.table_index(request.id) {
            Some(k) => {
                proof {
                    lemma_lookup_index(self.nodes@, k as int);
                }
                Ok(GetNodeResponse { node: Some(self.nodes[k].clone()) })
            },
            None => {
                proof {
                    lemma_lookup(self.nodes@, request.id);
                }
                Ok(GetNodeResponse { node: None })
            },
        }
    }

    /// Removes the node with the id from the table (the graph keeps it);
    /// the reply says whether it was there.
    pub fn delete_node(&mut self, request: DeleteNodeRequest) -> (r: Result<DeleteNodeResponse, ApiError>)
        ensures
            r == Ok::<DeleteNodeResponse, ApiError>(
                DeleteNodeResponse { deleted: lookup(old(self).table(), request.id) is Some, id: request.id },
            ),
            final(self).table() == remove_node(old(self).table(), request.id),
            final(self).graph_nodes() == old(self).graph_nodes(),
            final(self).graph_edges() == old(self).graph_edges(),
    {
        proof {
            use_type_invariant(&*self);
            lemma_lookup(self.nodes@, request.id);
        }
        let ghost before = self.nodes@;
        match self.table_index(request.id) {
            Some(k) => {
                proof {
                    let c = choose|i: int| 0 <= i < before.len() && before[i].id == request.id;
                    assert(c == k as int);
                }
                let mut ns: Vec<Node> = Vec::new();
                std::mem::swap(&mut ns, &mut self.nodes);
                ns.remove(k);
                proof {
                    assert forall|i: int, j: int| 0 <= i < j < ns@.len() implies ns@[i].id != ns@[j].id by {
                        let a = if i < k { i } else { i + 1 };
                        let b = if j < k { j } else { j + 1 };
                        assert(ns@[i] == before[a]);
                        assert(ns@[j] == before[b]);
                    }
                }
                self.nodes = ns;
                Ok(DeleteNodeResponse { deleted: true, id: request.id })
            },
            None => Ok(DeleteNodeResponse { deleted: false, id: request.id }),
        }
    }

    /// All nodes of the table.
    pub fn all_nodes(&self) -> (r: Vec<Node>)
        ensures
            r@ == self.table(),
    {
        let mut out: Vec<Node> = Vec::new();
        let mut i: usize = 0;
        while i < self.nodes.len()
            invariant
                i <= self.nodes@.len(),
                out@ == self.nodes@.take(i as int),
            decreases self.nodes@.len() - i,
        {
            out.push(self.nodes[i].clone());
            i = i + 1;
            assert(out@ =~= self.nodes@.take(i as int));
        }
        assert(self.nodes@.take(self.nodes@.len() as int) =~= self.nodes@);
        out
    }

    /// The in-memory graph of the service.
    pub fn graph(&self) -> (r: &MemoryGraph)
        ensures
            r.node_seq() == self.graph_nodes(),
            r.edge_seq() == self.graph_edges(),
    {
        &self.graph
    }

    /// The counts of the graph. The nodes of this library carry no
    /// embeddings, so none is counted as embedded.
    pub fn stats(&self) -> (r: Result<DatabaseStats, ApiError>)
        ensures
            r == Ok::<DatabaseStats, ApiError>(
                DatabaseStats {
                    node_count: self.graph_nodes().len() as usize,
                    edge_count: self.graph_edges().len() as usize,
                    embedded_count: 0,
                },
            ),
    {
        let node_count = match self.graph.count_nodes() {
            Ok(n) => n,
            Err(e) => {
                return Err(ApiError::from_graph(&e));
            },
        };
        let edge_count = match self.graph.count_edges() {
            Ok(n) => n,
            Err(e) => {
                return Err(ApiError::from_graph(&e));
            },
        };
        Ok(DatabaseStats { node_count, edge_count, embedded_count: 0 })
    }
}

proof fn lemma_matches_any_push(c: Seq<char>, ts: Seq<Seq<char>>, t: Seq<char>)
    ensures
        matches_any(c, ts.push(t)) <==> (matches_any(c, ts) || text_matches(c, t)),
{
    if matches_any(c, ts) {
        let k = choose|k: int| 0 <= k < ts.len() && text_matches(c, #[trigger] ts[k]);
        assert(ts.push(t)[k] == ts[k]);
    }
    if text_matches(c, t) {
        assert(ts.push(t)[ts.len() as int] == t);
    }
    if matches_any(c, ts.push(t)) {
        let k = choose|k: int| 0 <= k < ts.push(t).len() && text_matches(c, #[trigger] ts.push(t)[k]);
        if k < ts.len() {
            assert(ts.push(t)[k] == ts[k]);
        }
    }
}

impl SyntonDbService {
    /// Marks the table nodes whose content matches `term`.
    fn mark_matches(&self, term: &str, hits: &mut Vec<bool>, Ghost(done): Ghost<Seq<Seq<char>>>)
        requires
            old(hits)@.len() == self.table().len(),
            forall|i: int| 0 <= i < self.table().len() ==> old(hits)@[i] == matches_any(
                #[trigger] self.table()[i].content@,
                done,
            ),
        ensures
            final(hits)@.len() == self.table().len(),
            forall|i: int| 0 <= i < self.table().len() ==> final(hits)@[i] == matches_any(
                #[trigger] self.table()[i].content@,
                done.push(term@),
            ),
    {
        let lowered = to_lower(term);
        let q = chars_of(lowered.as_str());
        let mut i: usize = 0;
        while i < self.nodes.len()
            invariant
                i <= self.nodes@.len(),
                q@ == lowercase(term@),
                hits@.len() == self.nodes@.len(),
                forall|j: int| 0 <= j < i ==> hits@[j] == matches_any(#[trigger] self.nodes@[j].content@, done.push(term@)),
                forall|j: int| i <= j < self.nodes@.len() ==> hits@[j] == matches_any(
                    #[trigger] self.nodes@[j].content@,
                    done,
                ),
            decreases self.nodes@.len() - i,
        {
            proof {
                lemma_matches_any_push(self.nodes@[i as int].content@, done, term@);
            }
            if !hits[i] {
                let lc = to_lower(self.nodes[i].content.as_str());
                let c = chars_of(lc.as_str());
                if find_infix(&c, &q) {
                    hits.set(i, true);
                }
            }
            i = i + 1;
        }
    }

    /// The table nodes marked, in order, cut to the limit.
    fn collect_marked(&self, hits: &Vec<bool>, limit: Option<usize>, Ghost(ts): Ghost<Seq<Seq<char>>>) -> (r: Vec<
        Node,
    >)
        requires
            hits@.len() == self.table().len(),
            forall|i: int| 0 <= i < self.table().len() ==> hits@[i] == matches_any(#[trigger] self.table()[i].content@, ts),
        ensures
            r@ == limited(matching(self.table(), ts), limit),
    {
        let mut out: Vec<Node> = Vec::new();
        let mut i: usize = 0;
        while i < self.nodes.len()
            invariant
                i <= self.nodes@.len(),
                hits@.len() == self.nodes@.len(),
                forall|j: int| 0 <= j < self.nodes@.len() ==> hits@[j] == matches_any(#[trigger] self.nodes@[j].content@, ts),
                out@ == matching(self.nodes@.take(i as int), ts),
            decreases self.nodes@.len() - i,
        {
            assert(self.nodes@.take(i + 1).drop_last() =~= self.nodes@.take(i as int));
            if hits[i] {
                out.push(self.nodes[i].clone());
            }
            i = i + 1;
        }
        assert(self.nodes@.take(self.nodes@.len() as int) =~= self.nodes@);
        match limit {
            Some(l) => {
                if out.len() > l {
                    out.truncate(l);
                }
            },
            None => {},
        }
        out
    }

    fn no_hits(&self) -> (r: Vec<bool>)
        ensures
            r@.len() == self.table().len(),
            forall|i: int| 0 <= i < r@.len() ==> !r@[i],
    {
        let mut hits: Vec<bool> = Vec::new();
        let mut i: usize = 0;
        while i < self.nodes.len()
            invariant
                i <= self.nodes@.len(),
                hits@.len() == i,
                forall|j: int| 0 <= j < i ==> !hits@[j],
            decreases self.nodes@.len() - i,
        {
            hits.push(false);
            i = i + 1;
        }
        hits
    }

    /// The table nodes whose content contains the query, both lower-cased,
    /// in table order, cut to the limit. (Ordering them by access score is
    /// left to the caller that keeps the scores.)
    pub fn simple_text_search(&self, query: &str, limit: Option<usize>) -> (r: Result<Vec<Node>, ApiError>)
        ensures
            r matches Ok(v) && v@ == limited(matching(self.table(), seq![query@]), limit),
    {
        let mut hits = self.no_hits();
        let ghost none: Seq<Seq<char>> = Seq::empty();
        assert(seq![query@] =~= none.push(query@));
        self.mark_matches(query, &mut hits, Ghost(none));
        let ghost terms = seq![query@];
        Ok(self.collect_marked(&hits, limit, Ghost(terms)))
    }

    /// The text search of a parsed query: the table nodes whose content
    /// satisfies the query, in table order, cut to the limit.
    pub fn text_search(&self, query_node: &QueryNode, limit: Option<usize>) -> (r: Result<Vec<Node>, ApiError>)
        ensures
            r matches Ok(v) && searched(self.table(), *query_node, limit, v@),
    {
        let mut all: Vec<Node> = Vec::new();
        let mut i: usize = 0;
        while i < self.nodes.len()
            invariant
                i <= self.nodes@.len(),
                all@ == selected(self.nodes@.take(i as int), *query_node),
            decreases self.nodes@.len() - i,
        {
            assert(self.nodes@.take(i + 1).drop_last() =~= self.nodes@.take(i as int));
            if satisfied(query_node, self.nodes[i].content.as_str()) {
                all.push(self.nodes[i].clone());
            }
            i = i + 1;
        }
        assert(self.nodes@.take(self.nodes@.len() as int) =~= self.nodes@);
        Ok(first_nodes(all, limit))
    }
}

/// Whether a content holds a search text, both lower-cased.
fn term_hit(content: &str, term: &str) -> (r: bool)
    ensures
        r == text_matches(content@, term@),
{
    let lc = to_lower(content);
    let lt = to_lower(term);
    find_infix(&chars_of(lc.as_str()), &chars_of(lt.as_str()))
}

/// Whether a content satisfies a query.
fn satisfied(q: &QueryNode, content: &str) -> (r: bool)
    ensures
        r == satisfies(*q, content@),
    decreases *q,
{
    match q {
        QueryNode::TextSearch { query } => term_hit(content, query.as_str()),
        QueryNode::And { left, right } => satisfied(&**left, content) && satisfied(&**right, content),
        QueryNode::Or { left, right } => satisfied(&**left, content) || satisfied(&**right, content),
        QueryNode::Not { input } => !satisfied(&**input, content),
        QueryNode::Filter { input } => satisfied(&**input, content),
        _ => false,
    }
}

/// The first `limit` nodes, all of them when there is no limit.
fn first_nodes(v: Vec<Node>, limit: Option<usize>) -> (r: Vec<Node>)
    ensures
        r@ == limited(v@, limit),
{
    match limit {
        Some(l) => {
            if v.len() > l {
                let mut out: Vec<Node> = Vec::new();
                let mut i: usize = 0;
                while i < l
                    invariant
                        i <= l < v@.len(),
                        out@ == v@.take(i as int),
                    decreases l - i,
                {
                    out.push(v[i].clone());
                    i = i + 1;
                    assert(out@ =~= v@.take(i as int));
                }
                out
            } else {
                v
            }
        },
        None => v,
    }
}


impl SyntonDbService {
    /// Answers a parsed query with its text search, cut to the limit; the
    /// reply counts all the matching nodes, which may be more than those
    /// returned, and is marked truncated when it returns more nodes than
    /// the limit (which the cut rules out).
    pub fn query(&self, parsed: &QueryNode, limit: Option<usize>) -> (r: Result<QueryResponse, ApiError>)
        ensures
            r matches Ok(resp) && {
                &&& searched(self.table(), *parsed, limit, resp.nodes@)
                &&& resp.total_count == selected(self.table(), *parsed).len()
                &&& resp.truncated == (limit matches Some(l) && resp.nodes@.len() > l)
            },
    {
        let all = match self.text_search(parsed, None) {
            Ok(v) => v,
            Err(e) => {
                return Err(e);
            },
        };
        let total_count = all.len();
        let nodes = first_nodes(all, limit);
        let truncated = match limit {
            Some(l) => nodes.len() > l,
            None => false,
        };
        Ok(QueryResponse { nodes, total_count, truncated })
    }

    /// A hybrid search without an embedding service: the text search of the
    /// query, cut to `k` nodes.
    pub fn hybrid_search(&self, query: &str, k: usize) -> (r: Result<Vec<Node>, ApiError>)
        ensures
            r matches Ok(v) && v@ == limited(matching(self.table(), seq![query@]), Some(k)),
    {
        self.simple_text_search(query, Some(k))
    }

    /// A breadth-first traversal from the request's start, within its depth
    /// and node limits and in its direction, the start left out; with the
    /// forward edges of every node reached. An unknown start is refused.
    pub fn traverse(&self, request: TraverseRequest) -> (r: Result<TraverseResponse, ApiError>)
        ensures
            lookup(self.graph_nodes(), request.start_id) is None ==> (r matches Err(ApiError::Storage(m))
                && m@ == graph_error_text(GraphError::NodeNotFound(request.start_id))),
            lookup(self.graph_nodes(), request.start_id) is Some ==> (r matches Ok(resp) && traversal_answer(
                self.graph_nodes(),
                self.graph_edges(),
                request,
                resp,
            )),
    {
        let direction: TraverseDirection = TraverseDirection::from(request.direction);
        let config = TraversalConfig::with_depth(request.max_depth).with_max_nodes(request.max_nodes).with_direction(
            direction,
        );
        assert(direction == to_graph_direction(request.direction));
        let result = match self.graph.bfs(request.start_id, config) {
            Ok(res) => res,
            Err(e) => {
                return Err(ApiError::from_graph(&e));
            },
        };
        let mut edges: Vec<Edge> = Vec::new();
        let mut i: usize = 0;
        while i < result.nodes.len()
            invariant
                i <= result.nodes@.len(),
                edges@ == forward_edges(self.graph_edges(), result.nodes@.take(i as int)),
            decreases result.nodes@.len() - i,
        {
            assert(result.nodes@.take(i + 1).drop_last() =~= result.nodes@.take(i as int));
            let mut found = match self.graph.edges(result.nodes[i].id, TraverseDirection::Forward) {
                Ok(v) => v,
                Err(e) => {
                    return Err(ApiError::from_graph(&e));
                },
            };
            edges.append(&mut found);
            i = i + 1;
        }
        assert(result.nodes@.take(result.nodes@.len() as int) =~= result.nodes@);
        Ok(TraverseResponse { nodes: result.nodes, edges, depth: result.depth, truncated: result.truncated })
    }
}

impl SyntonDbService {
    fn put_table_node(&mut self, node: Node)
        ensures
            final(self).table() == insert_node(old(self).table(), node),
            final(self).graph_nodes() == old(self).graph_nodes(),
            final(self).graph_edges() == old(self).graph_edges(),
    {
        proof {
            use_type_invariant(&*self);
        }
        match self.table_index(node.id) {
            Some(k) => {
                let ghost ns = self.nodes@;
                proof {
                    let c = choose|i: int| 0 <= i < ns.len() && ns[i].id == node.id;
                    assert(c == k as int);
                }
                let mut v: Vec<Node> = Vec::new();
                std::mem::swap(&mut v, &mut self.nodes);
                v.set(k, node);
                proof {
                    assert forall|i: int, j: int| 0 <= i < j < v@.len() implies v@[i].id != v@[j].id by {
                        assert(ns[i].id != ns[j].id);
                    }
                }
                self.nodes = v;
            },
            None => {
                let mut v: Vec<Node> = Vec::new();
                std::mem::swap(&mut v, &mut self.nodes);
                v.push(node);
                self.nodes = v;
            },
        }
    }

    #[verifier::spinoff_prover]
    fn load_nodes(&mut self, init_nodes: &Vec<Node>) -> (r: Result<(), ApiError>)
        ensures
            r is Ok <==> clash_free(old(self).graph_nodes(), init_nodes@),
            r is Ok ==> {
                &&& final(self).graph_nodes() == old(self).graph_nodes() + init_nodes@
                &&& final(self).table() == insert_nodes(old(self).table(), init_nodes@)
            },
            r matches Err(e) ==> exists|k: int|
                {
                    &&& 0 <= k < init_nodes@.len()
                    &&& clash_free(old(self).graph_nodes(), init_nodes@.take(k))
                    &&& lookup(old(self).graph_nodes() + init_nodes@.take(k), #[trigger] init_nodes@[k].id) is Some
                    &&& e matches ApiError::Storage(m) && m@ == duplicate_node_text(init_nodes@[k].id)
                    &&& final(self).graph_nodes() == old(self).graph_nodes() + init_nodes@.take(k)
                    &&& final(self).table() == insert_nodes(old(self).table(), init_nodes@.take(k))
                },
            final(self).graph_edges() == old(self).graph_edges(),
    {
        let ghost gn0 = self.graph_nodes();
        let ghost t0 = self.table();
        let ghost es0 = self.graph_edges();
        let mut i: usize = 0;
        assert(init_nodes@.take(0) =~= Seq::<Node>::empty());
        assert(gn0 + init_nodes@.take(0) =~= gn0);
        while i < init_nodes.len()
            invariant
                i <= init_nodes@.len(),
                gn0 == old(self).graph_nodes(),
                t0 == old(self).table(),
                es0 == old(self).graph_edges(),
                clash_free(gn0, init_nodes@.take(i as int)),
                self.graph_nodes() == gn0 + init_nodes@.take(i as int),
                self.table() == insert_nodes(t0, init_nodes@.take(i as int)),
                self.graph_edges() == es0,
            decreases init_nodes@.len() - i,
        {
            proof {
                use_type_invariant(&*self);
            }
            let node = init_nodes[i].clone();
            let mut g = MemoryGraph::new();
            std::mem::swap(&mut g, &mut self.graph);
            let added = g.add_node(node.clone());
            self.graph = g;
            match added {
                Ok(()) => {},
                Err(e) => {
                    proof {
                        assert(node == init_nodes@[i as int]);
                        assert(lookup(gn0 + init_nodes@.take(i as int), init_nodes@[i as int].id) is Some);
                        lemma_clash_at(gn0, init_nodes@, i as int);
                    }
                    return Err(ApiError::from_graph(&e));
                },
            }
            self.put_table_node(node);
            proof {
                lemma_clash_free_step(gn0, init_nodes@, i as int);
            }
            i = i + 1;
        }
        assert(init_nodes@.take(init_nodes@.len() as int) =~= init_nodes@);
        Ok(())
    }

    /// Loads existing nodes and edges: each node into the graph and the
    /// table, then each edge into the graph. A node whose id the graph
    /// already holds stops the loading with the graph's refusal, the nodes
    /// before it loaded.
    pub fn initialize(&mut self, init_nodes: Vec<Node>, init_edges: Vec<Edge>) -> (r: Result<(), ApiError>)
        ensures
            r is Ok <==> clash_free(old(self).graph_nodes(), init_nodes@),
            r is Ok ==> {
                &&& final(self).graph_nodes() == old(self).graph_nodes() + init_nodes@
                &&& final(self).table() == insert_nodes(old(self).table(), init_nodes@)
                &&& final(self).graph_edges() == old(self).graph_edges() + init_edges@
            },
            r matches Err(e) ==> exists|k: int|
                {
                    &&& 0 <= k < init_nodes@.len()
                    &&& clash_free(old(self).graph_nodes(), init_nodes@.take(k))
                    &&& lookup(old(self).graph_nodes() + init_nodes@.take(k), #[trigger] init_nodes@[k].id) is Some
                    &&& e matches ApiError::Storage(m) && m@ == duplicate_node_text(init_nodes@[k].id)
                    &&& final(self).graph_nodes() == old(self).graph_nodes() + init_nodes@.take(k)
                    &&& final(self).table() == insert_nodes(old(self).table(), init_nodes@.take(k))
                    &&& final(self).graph_edges() == old(self).graph_edges()
                },
    {
        match self.load_nodes(&init_nodes) {
            Ok(()) => {},
            Err(e) => {
                return Err(e);
            },
        }
        let ghost gn1 = self.graph_nodes();
        let ghost t1 = self.table();
        let ghost es0 = self.graph_edges();
        let mut j: usize = 0;
        while j < init_edges.len()
            invariant
                j <= init_edges@.len(),
                self.graph_nodes() == gn1,
                self.table() == t1,
                self.graph_edges() == es0 + init_edges@.take(j as int),
            decreases init_edges@.len() - j,
        {
            proof {
                use_type_invariant(&*self);
            }
            let mut g = MemoryGraph::new();
            std::mem::swap(&mut g, &mut self.graph);
            let _ = g.add_edge(init_edges[j].clone());
            self.graph = g;
            proof {
                assert(es0 + init_edges@.take(j + 1) =~= (es0 + init_edges@.take(j as int)).push(init_edges@[j as int]));
            }
            j = j + 1;
        }
        assert(init_edges@.take(init_edges@.len() as int) =~= init_edges@);
        Ok(())
    }
}

impl SyntonDbService {
    fn add_requested_nodes(
        &mut self,
        reqs: &Vec<AddNodeRequest>,
        node_ids: &mut Vec<u128>,
        errors: &mut Vec<String>,
    ) -> (ne: Ghost<Seq<Seq<char>>>)
        requires
            old(node_ids)@.len() == 0,
            old(errors)@.len() == 0,
        ensures
            final(node_ids)@.len() + ne@.len() == reqs@.len(),
            views(final(errors)@) == ne@,
            forall|k: int| 0 <= k < ne@.len() ==> is_node_failure(#[trigger] ne@[k]),
            forall|k: int| 0 <= k < final(node_ids)@.len() ==> lookup(final(self).table(), #[trigger] final(node_ids)@[k]) is Some,
            exists|added: Seq<Node>|
                final(self).table() == old(self).table() + added && final(self).graph_nodes() == old(
                    self,
                ).graph_nodes() + added,
            final(self).graph_edges() == old(self).graph_edges(),
            exists|made: Seq<Node>, ok: Seq<bool>, created: Seq<bool>| {
                &&& node_requests_done(reqs@, old(self).table(), old(self).graph_nodes(), made, ok, created, final(node_ids)@, ne@)
                &&& final(self).table() == old(self).table() + created_nodes(made, created)
                &&& final(self).graph_nodes() == old(self).graph_nodes() + created_nodes(made, created)
            },
    {
        let ghost t0 = self.table();
        let ghost gn0 = self.graph_nodes();
        let ghost es0 = self.graph_edges();
        let ghost mut ne: Seq<Seq<char>> = Seq::empty();
        let ghost mut added: Seq<Node> = Seq::empty();
        let ghost mut made: Seq<Node> = Seq::empty();
        let ghost mut ok: Seq<bool> = Seq::empty();
        let ghost mut created: Seq<bool> = Seq::empty();
        assert(node_ids@ =~= reported_ids(made, ok));
        assert(node_requests_done(reqs@.take(0), t0, gn0, made, ok, created, node_ids@, ne));
        let mut k: usize = 0;
        assert(t0 + added =~= t0);
        assert(gn0 + added =~= gn0);
        while k < reqs.len()
            invariant
                k <= reqs@.len(),
                node_ids@.len() + ne.len() == k,
                views(errors@) == ne,
                forall|m: int| 0 <= m < ne.len() ==> is_node_failure(#[trigger] ne[m]),
                forall|m: int| 0 <= m < node_ids@.len() ==> lookup(self.table(), #[trigger] node_ids@[m]) is Some,
                self.table() == t0 + added,
                self.graph_nodes() == gn0 + added,
                self.graph_edges() == es0,
                t0 == old(self).table(),
                gn0 == old(self).graph_nodes(),
                es0 == old(self).graph_edges(),
                node_requests_done(reqs@.take(k as int), t0, gn0, made, ok, created, node_ids@, ne),
                added == created_nodes(made, created),
            decreases reqs@.len() - k,
        {
            let ghost tb = self.table();
            let ghost ids_before = node_ids@;
            let ghost ne_before = ne;
            let ghost made_before = made;
            let ghost ok_before = ok;
            let ghost created_before = created;
            let ghost added_before = added;
            proof {
                assert(reqs@.take(k + 1).drop_last() =~= reqs@.take(k as int));
            }
            let req = reqs[k].clone();
            let outcome = self.add_node(req);
            let ghost n = choose|n: Node| #[trigger] made_for(n, reqs@[k as int]) && n.id != 0 && {
                &&& outcome matches Ok(resp) ==> {
                    &&& (resp.created <==> lookup(tb, n.id) is None)
                    &&& resp.created ==> resp.node == n
                    &&& !resp.created ==> lookup(tb, n.id) == Some(resp.node)
                }
                &&& outcome matches Err(e) ==> {
                    &&& lookup(tb, n.id) is None
                    &&& lookup(gn0 + added, n.id) is Some
                    &&& e matches ApiError::Storage(m) && m@ == duplicate_node_text(n.id)
                }
            };
            match outcome {
                Ok(resp) => {
                    proof {
                        lemma_lookup(tb, n.id);
                        made = made_before.push(n);
                        ok = ok_before.push(true);
                        created = created_before.push(resp.created);
                        assert(made.drop_last() =~= made_before);
                        assert(ok.drop_last() =~= ok_before);
                        assert(created.drop_last() =~= created_before);
                        assert(resp.node.id == n.id);
                        if resp.created {
                            added = added.push(resp.node);
                            assert(self.table() =~= t0 + added);
                            assert(self.graph_nodes() =~= gn0 + added);
                            assert forall|m: int| 0 <= m < node_ids@.len() implies lookup(self.table(), #[trigger] node_ids@[m]) is Some by {
                                lemma_lookup_push(tb, resp.node, node_ids@[m]);
                            }
                            lemma_lookup_push(tb, resp.node, resp.node.id);
                        }
                    }
                    node_ids.push(resp.node.id);
                    proof {
                        assert(added == created_nodes(made, created));
                        assert(made.take(k as int) =~= made_before);
                        assert(created.take(k as int) =~= created_before);
                        assert(node_step(t0, gn0, made, ok, created, k as int));
                        assert forall|m: int| 0 <= m < made.len() implies #[trigger] node_step(t0, gn0, made, ok, created, m) by {
                            if m < made_before.len() {
                                lemma_node_step_extend(t0, gn0, made_before, ok_before, created_before, n, true, resp.created, m);
                            }
                        }
                        assert(node_ids@ =~= ids_before.push(n.id));
                        assert forall|m: int| 0 <= m < made.len() implies made_for(#[trigger] made[m], reqs@.take(k + 1)[m]) by {
                            if m < made_before.len() {
                                assert(made[m] == made_before[m]);
                            }
                        }
                    }
                },
                Err(e) => {
                    let ghost id = n.id;
                    let text = e.to_string();
                    let msg = String::from_str("Node creation failed: ").concat(text.as_str());
                    proof {
                        assert(msg@ =~= node_failure(id));
                        let before = ne;
                        ne = ne.push(msg@);
                        made = made_before.push(n);
                        ok = ok_before.push(false);
                        created = created_before.push(false);
                        assert(made.drop_last() =~= made_before);
                        assert(ok.drop_last() =~= ok_before);
                        assert(created.drop_last() =~= created_before);
                        assert(added == created_nodes(made, created));
                        assert(made.take(k as int) =~= made_before);
                        assert(created.take(k as int) =~= created_before);
                        assert(node_step(t0, gn0, made, ok, created, k as int));
                        assert forall|m: int| 0 <= m < made.len() implies #[trigger] node_step(t0, gn0, made, ok, created, m) by {
                            if m < made_before.len() {
                                lemma_node_step_extend(t0, gn0, made_before, ok_before, created_before, n, false, false, m);
                            }
                        }
                        assert forall|m: int| 0 <= m < made.len() implies made_for(#[trigger] made[m], reqs@.take(k + 1)[m]) by {
                            if m < made_before.len() {
                                assert(made[m] == made_before[m]);
                            }
                        }
                        assert(ne[before.len() as int] == node_failure(id));
                        assert forall|m: int| 0 <= m < ne.len() implies is_node_failure(#[trigger] ne[m]) by {
                            if m < before.len() {
                                assert(ne[m] == before[m]);
                            } else {
                                assert(ne[m] == node_failure(id));
                            }
                        }
                    }
                    errors.push(msg);
                    proof {
                        assert(views(errors@) =~= ne);
                    }
                },
            }
            k = k + 1;
        }
        assert(reqs@.take(reqs@.len() as int) =~= reqs@);
        Ghost(ne)
    }

    /// Adds the nodes, then the edges, of a bulk request one after the
    /// other, and reports the ids of what was created, how many operations
    /// succeeded and failed, and the message of each failure.
    pub fn bulk_operation(&mut self, request: BulkOperationRequest) -> (r: BulkOperationResponse)
        requires
            request.nodes@.len() + request.edges@.len() <= usize::MAX,
        ensures
            bulk_outcome(*old(self), *final(self), request, r),
    {
        let ghost before = *self;
        let mut node_ids: Vec<u128> = Vec::new();
        let mut edge_ids: Vec<String> = Vec::new();
        let mut errors: Vec<String> = Vec::new();
        let Ghost(ne) = self.add_requested_nodes(&request.nodes, &mut node_ids, &mut errors);
        let ghost (made, ok, created) = choose|made: Seq<Node>, ok: Seq<bool>, created: Seq<bool>| {
            &&& node_requests_done(request.nodes@, before.table(), before.graph_nodes(), made, ok, created, node_ids@, ne)
            &&& self.table() == before.table() + created_nodes(made, created)
            &&& self.graph_nodes() == before.graph_nodes() + created_nodes(made, created)
        };
        let ghost ids0 = node_ids@;
        let ghost t1 = self.table();
        let ghost gn1 = self.graph_nodes();
        let ghost es0 = self.graph_edges();
        let reqs = &request.edges;
        let mut success_count: usize = node_ids.len();
        let mut failure_count: usize = errors.len();
        let mut j: usize = 0;
        assert(views(errors@) =~= ne + edge_failures(t1, reqs@.take(0)));
        assert(made_edges(t1, reqs@.take(0)) =~= Seq::<Edge>::empty());
        assert(views(edge_ids@) =~= made_edge_ids(t1, reqs@.take(0)));
        while j < reqs.len()
            invariant
                j <= reqs@.len(),
                self.table() == t1,
                self.graph_nodes() == gn1,
                self.graph_edges() == es0 + made_edges(t1, reqs@.take(j as int)),
                views(edge_ids@) == made_edge_ids(t1, reqs@.take(j as int)),
                views(errors@) == ne + edge_failures(t1, reqs@.take(j as int)),
                success_count == node_ids@.len() + edge_ids@.len(),
                failure_count == errors@.len(),
                node_ids@.len() + ne.len() == request.nodes@.len(),
                edge_ids@.len() + errors@.len() == ne.len() + j,
                request.nodes@.len() + reqs@.len() <= usize::MAX,
            decreases reqs@.len() - j,
        {
            let ghost done = reqs@.take(j as int);
            let ghost next = reqs@.take(j + 1);
            proof {
                assert(next.drop_last() =~= done);
                assert(next.last() == reqs@[j as int]);
            }
            match self.add_edge(reqs[j].clone()) {
                Ok(resp) => {
                    let id = resp.edge.id();
                    proof {
                        assert(views(edge_ids@.push(id)) =~= views(edge_ids@).push(id@));
                    }
                    edge_ids.push(id);
                    success_count = success_count + 1;
                    proof {
                        assert(self.graph_edges() =~= es0 + made_edges(t1, next));
                    }
                },
                Err(e) => {
                    let text = e.to_string();
                    let msg = String::from_str("Edge creation failed: ").concat(text.as_str());
                    proof {
                        assert(views(errors@.push(msg)) =~= views(errors@).push(msg@));
                        assert(ne + edge_failures(t1, next) =~= (ne + edge_failures(t1, done)).push(msg@));
                    }
                    errors.push(msg);
                    failure_count = failure_count + 1;
                },
            }
            j = j + 1;
        }
        assert(reqs@.take(reqs@.len() as int) =~= reqs@);
        proof {
            assert(ne.len() + node_ids@.len() == request.nodes@.len());
            assert(forall|k: int| 0 <= k < ne.len() ==> is_node_failure(#[trigger] ne[k]));
            assert(views(errors@) == ne + edge_failures(self.table(), request.edges@));
            assert(node_requests_done(request.nodes@, before.table(), before.graph_nodes(), made, ok, created, node_ids@, ne));
        }
        let r = BulkOperationResponse { node_ids, edge_ids, success_count, failure_count, errors };
        proof {
            assert(bulk_outcome(before, *self, request, r));
        }
        r
    }
}

impl SyntonDbService {
    fn record_chunks(&mut self, chunks: &Vec<Chunk>, doc_id: u128) -> (infos: Vec<ChunkInfo>)
        ensures
            describes(infos@, chunks@),
            exists|made: Seq<Node>|
                made_for_chunks(made, chunks@) && final(self).table() == insert_nodes(old(self).table(), made)
                    && final(self).graph_edges() == old(self).graph_edges() + part_of_edges(made, doc_id),
            final(self).graph_nodes() == old(self).graph_nodes(),
    {
        let ghost t0 = self.table();
        let ghost es0 = self.graph_edges();
        let ghost gn0 = self.graph_nodes();
        let ghost mut made: Seq<Node> = Seq::empty();
        let mut infos: Vec<ChunkInfo> = Vec::new();
        let mut k: usize = 0;
        assert(es0 + part_of_edges(made, doc_id) =~= es0);
        while k < chunks.len()
            invariant
                k <= chunks@.len(),
                made_for_chunks(made, chunks@.take(k as int)),
                describes(infos@, chunks@.take(k as int)),
                self.table() == insert_nodes(t0, made),
                self.graph_edges() == es0 + part_of_edges(made, doc_id),
                self.graph_nodes() == gn0,
            decreases chunks@.len() - k,
        {
            proof {
                use_type_invariant(&*self);
            }
            let chunk = &chunks[k];
            let chunk_node = Node::new(chunk.content.as_str(), NodeType::Concept);
            let mut g = MemoryGraph::new();
            std::mem::swap(&mut g, &mut self.graph);
            let _ = g.add_edge(Edge::new(chunk_node.id, doc_id, Relation::IsPartOf));
            self.graph = g;
            self.put_table_node(chunk_node.clone());
            let child_ids = chunk.child_ids.clone();
            assert(child_ids@ =~= chunk.child_ids@);
            infos.push(
                ChunkInfo {
                    id: chunk.id,
                    content: chunk.content.clone(),
                    index: chunk.index,
                    range: chunk.range,
                    chunk_type: chunk_type_variant(chunk.chunk_type),
                    parent_id: chunk.parent_id,
                    child_ids,
                },
            );
            proof {
                let before = made;
                made = made.push(chunk_node);
                let next = chunks@.take(k + 1);
                assert(next.drop_last() =~= chunks@.take(k as int));
                assert(made.drop_last() =~= before);
                assert(insert_nodes(t0, made) == insert_node(insert_nodes(t0, before), chunk_node));
                assert(part_of_edges(made, doc_id) =~= part_of_edges(before, doc_id).push(
                    Edge { source: chunk_node.id, target: doc_id, relation: Relation::IsPartOf, expired: false, replaced_by: None },
                ));
                assert(es0 + part_of_edges(made, doc_id) =~= (es0 + part_of_edges(before, doc_id)).push(
                    Edge { source: chunk_node.id, target: doc_id, relation: Relation::IsPartOf, expired: false, replaced_by: None },
                ));
                assert forall|j: int| 0 <= j < next.len() implies {
                    &&& (#[trigger] made[j]).content@ == next[j].content@
                    &&& made[j].node_type == NodeType::Concept
                    &&& made[j].source == Source::UserInput
                    &&& made[j].document_id is None
                    &&& made[j].chunk_index is None
                } by {
                    if j < k {
                        assert(made[j] == before[j]);
                        assert(next[j] == chunks@.take(k as int)[j]);
                    }
                }
                assert forall|j: int| 0 <= j < next.len() implies {
                    &&& (#[trigger] infos@[j]).id == next[j].id
                    &&& infos@[j].content@ == next[j].content@
                    &&& infos@[j].index == next[j].index
                    &&& infos@[j].range == next[j].range
                    &&& infos@[j].chunk_type@ == chunk_type_label(next[j].chunk_type)
                    &&& infos@[j].parent_id == next[j].parent_id
                    &&& infos@[j].child_ids@ == next[j].child_ids@
                } by {
                    if j < k {
                        assert(next[j] == chunks@.take(k as int)[j]);
                    }
                }
            }
            k = k + 1;
        }
        assert(chunks@.take(chunks@.len() as int) =~= chunks@);
        infos
    }

    /// Ingests a document: a concept node "title: content" joins the table
    /// (the title "Untitled Document" when none is given); the content is
    /// chunked under the request's strategy (semantic by default); and each
    /// chunk becomes a concept node of the table, made part of the
    /// document by an edge of the graph. The reply describes the chunks.
    pub fn ingest_document(&mut self, request: IngestDocumentRequest) -> (r: Result<IngestDocumentResponse, ApiError>)
        requires
            chunkable(strategy_of(request), request.content@),
        ensures
            exists|doc: Node, cr: Result<Seq<Chunk>, ApiError>| ingest_outcome(*old(self), *final(self), request, doc, cr, r),
            final(self).graph_nodes() == old(self).graph_nodes(),
    {
        let ghost before = *self;
        let title: String = match &request.title {
            Some(t) => t.clone(),
            None => String::from_str("Untitled Document"),
        };
        let text = title.clone().concat(": ").concat(request.content.as_str());
        let document_node = Node::new(text.as_str(), NodeType::Concept);
        self.put_table_node(document_node.clone());
        let strategy = match request.chunking {
            Some(s) => s,
            None => ChunkingStrategy::default(),
        };
        let chunked = chunk_document(strategy, title.as_str(), request.content.as_str());
        let ghost cr = chunks_view(chunked);
        let chunks = match chunked {
            Ok(cs) => cs,
            Err(e) => {
                let result = Err(e);
                proof {
                    assert(ingest_outcome(before, *self, request, document_node, cr, result));
                }
                return result;
            },
        };
        let ghost mid = *self;
        let chunk_infos = self.record_chunks(&chunks, document_node.id);
        proof {
            let made = choose|made: Seq<Node>|
                made_for_chunks(made, chunks@) && self.table() == insert_nodes(mid.table(), made)
                    && self.graph_edges() == mid.graph_edges() + part_of_edges(made, document_node.id);
            assert(made_for_chunks(made, chunks@));
            assert(mid.table() == insert_node(before.table(), document_node));
            assert(mid.graph_edges() == before.graph_edges());
        }
        let result = Ok(
            IngestDocumentResponse {
                document_id: document_node.id,
                chunk_count: chunk_infos.len(),
                chunks: chunk_infos,
                embedded: request.embed,
            },
        );
        proof {
            assert(ingest_outcome(before, *self, request, document_node, cr, result));
        }
        result
    }
}

/// What ingesting a document does: the document node `doc`, holding
/// "title: content" as a concept from user input, joins the table; the
/// content is chunked under the request's strategy, giving `cr`; a chunking
/// error is the reply, the graph's edges untouched; otherwise each chunk
/// becomes a node of the table, made part of the document by a new edge,
/// and the reply describes the chunks.
pub open spec fn ingest_outcome(
    before: SyntonDbService,
    after: SyntonDbService,
    request: IngestDocumentRequest,
    doc: Node,
    cr: Result<Seq<Chunk>, ApiError>,
    r: Result<IngestDocumentResponse, ApiError>,
) -> bool {
    &&& doc.content@ == document_title(request) + ": "@ + request.content@
    &&& doc.node_type == NodeType::Concept
    &&& doc.source == Source::UserInput
    &&& doc.document_id is None
    &&& doc.chunk_index is None
    &&& document_chunks(strategy_of(request), request.content@, cr)
    &&& cr matches Err(e) ==> {
        &&& r == Err::<IngestDocumentResponse, ApiError>(e)
        &&& after.table() == insert_node(before.table(), doc)
        &&& after.graph_edges() == before.graph_edges()
    }
    &&& cr matches Ok(cs) ==> (r matches Ok(resp) && {
        &&& resp.document_id == doc.id
        &&& resp.chunk_count == cs.len()
        &&& describes(resp.chunks@, cs)
        &&& resp.embedded == request.embed
        &&& exists|made: Seq<Node>|
            made_for_chunks(made, cs) && after.table() == insert_nodes(insert_node(before.table(), doc), made)
                && after.graph_edges() == before.graph_edges() + part_of_edges(made, doc.id)
    })
}

/// What a bulk operation does: a node is made for each node request, in
/// order; it is appended to the table and the graph when its id is new to
/// the table, refused when the id is new to the table but already in the
/// graph, and otherwise the stored node answers for it; the id of each
/// node request that succeeded is reported, in request order; the edges
/// with known ends are added to the graph, each reported by its id; every
/// refusal is reported by its message, the nodes' first, in request order;
/// and the successes and failures are counted.
pub open spec fn bulk_outcome(
    before: SyntonDbService,
    after: SyntonDbService,
    request: BulkOperationRequest,
    r: BulkOperationResponse,
) -> bool {
    &&& forall|k: int| 0 <= k < r.node_ids@.len() ==> lookup(after.table(), #[trigger] r.node_ids@[k]) is Some
    &&& views(r.edge_ids@) == made_edge_ids(after.table(), request.edges@)
    &&& after.graph_edges() == before.graph_edges() + made_edges(after.table(), request.edges@)
    &&& exists|made: Seq<Node>, ok: Seq<bool>, created: Seq<bool>, ne: Seq<Seq<char>>|
        {
            &&& node_requests_done(request.nodes@, before.table(), before.graph_nodes(), made, ok, created, r.node_ids@, ne)
            &&& after.table() == before.table() + created_nodes(made, created)
            &&& after.graph_nodes() == before.graph_nodes() + created_nodes(made, created)
            &&& ne.len() + r.node_ids@.len() == request.nodes@.len()
            &&& forall|k: int| 0 <= k < ne.len() ==> is_node_failure(#[trigger] ne[k])
            &&& views(r.errors@) == ne + edge_failures(after.table(), request.edges@)
        }
    &&& r.success_count == r.node_ids@.len() + r.edge_ids@.len()
    &&& r.failure_count == r.errors@.len()
}

impl Default for SyntonDbService {
    fn default() -> (r: SyntonDbService)
        ensures
            r.table() == Seq::<Node>::empty(),
            r.graph_nodes() == Seq::<Node>::empty(),
            r.graph_edges() == Seq::<Edge>::empty(),
    {
        SyntonDbService::new()
    }
}

} // verus!
