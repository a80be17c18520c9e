//! The gRPC face of the service: the wire codes of node types, relations
//! and directions, the paging of node lists, and the bulk operation, whose
//! requests arrive with codes and ids written as text.

use vstd::prelude::*;
use crate::api_error::{ApiError, api_error_text};
use crate::api_models::{AddEdgeRequest, AddNodeRequest, BulkOperationRequest, DeleteNodeRequest, GetNodeRequest, HealthResponse, TraverseDirection, TraverseRequest, TraverseResponse};
use crate::graph::{duplicate_node_text, edges_at, graph_error_text, lookup, GraphError};
use crate::service::{made_for, remove_node, searched, selected, traversal_answer, QueryNode, SERVICE_VERSION};
use crate::edge::Edge;
use crate::ids::{id_to_string, parse_uuid, parsed_uuid, uuid_text};
use crate::node::Node;
use crate::node_type::NodeType;
use crate::relation::Relation;
use crate::service::SyntonDbService;
use crate::strategy::views;

verus! {

broadcast use vstd::string::group_string_axioms;

/// The node type a wire code names; an unknown code names a concept.
pub open spec fn node_type_of_code(code: i32) -> NodeType {
    if code == 1 {
        NodeType::Entity
    } else if code == 2 {
        NodeType::Concept
    } else if code == 3 {
        NodeType::Fact
    } else if code == 4 {
        NodeType::RawChunk
    } else {
        NodeType::Concept
    }
}

/// The node type a wire code names.
pub fn node_type_from_code(code: i32) -> (r: NodeType)
    ensures
        r == node_type_of_code(code),
{
    match code {
        1 => NodeType::Entity,
        2 => NodeType::Concept,
        3 => NodeType::Fact,
        4 => NodeType::RawChunk,
        _ => NodeType::Concept,
    }
}

/// The wire code of a node type.
pub open spec fn code_of_node_type(t: NodeType) -> i32 {
    match t {
        NodeType::Entity => 1,
        NodeType::Concept => 2,
        NodeType::Fact => 3,
        NodeType::RawChunk => 4,
    }
}

/// The wire code of a node type.
pub fn node_type_code(t: NodeType) -> (r: i32)
    ensures
        r == code_of_node_type(t),
{
    match t {
        NodeType::Entity => 1,
        NodeType::Concept => 2,
        NodeType::Fact => 3,
        NodeType::RawChunk => 4,
    }
}

/// The relation a wire code names; an unknown code names similarity.
pub open spec fn relation_of_code(code: i32) -> Relation {
    if code == 1 {
        Relation::IsA
    } else if code == 2 {
        Relation::IsPartOf
    } else if code == 3 {
        Relation::Causes
    } else if code == 4 {
        Relation::SimilarTo
    } else if code == 5 {
        Relation::Contradicts
    } else if code == 6 {
        Relation::HappenedAfter
    } else if code == 7 {
        Relation::BelongsTo
    } else {
        Relation::SimilarTo
    }
}

/// The relation a wire code names.
pub fn relation_from_code(code: i32) -> (r: Relation)
    ensures
        r == relation_of_code(code),
{
    match code {
        1 => Relation::IsA,
        2 => Relation::IsPartOf,
        3 => Relation::Causes,
        4 => Relation::SimilarTo,
        5 => Relation::Contradicts,
        6 => Relation::HappenedAfter,
        7 => Relation::BelongsTo,
        _ => Relation::SimilarTo,
    }
}

/// The wire code of a relation: a location is sent as belonging and a
/// custom relation as similarity, which the wire has codes for.
pub open spec fn code_of_relation(r: Relation) -> i32 {
    match r {
        Relation::IsA => 1,
        Relation::IsPartOf => 2,
        Relation::Causes => 3,
        Relation::SimilarTo => 4,
        Relation::Contradicts => 5,
        Relation::HappenedAfter => 6,
        Relation::BelongsTo => 7,
        Relation::LocatedAt => 7,
        Relation::Custom(_) => 4,
    }
}

/// The wire code of a relation.
pub fn relation_code(r: &Relation) -> (c: i32)
    ensures
        c == code_of_relation(*r),
{
    match r {
        Relation::IsA => 1,
        Relation::IsPartOf => 2,
        Relation::Causes => 3,
        Relation::SimilarTo => 4,
        Relation::Contradicts => 5,
        Relation::HappenedAfter => 6,
        Relation::BelongsTo => 7,
        Relation::LocatedAt => 7,
        Relation::Custom(_) => 4,
    }
}

/// The traversal direction a wire code names; an unknown code names
/// forward.
pub open spec fn direction_of_code(code: i32) -> TraverseDirection {
    if code == 2 {
        TraverseDirection::Backward
    } else if code == 3 {
        TraverseDirection::Both
    } else {
        TraverseDirection::Forward
    }
}

/// The traversal direction a wire code names.
pub fn direction_from_code(code: i32) -> (r: TraverseDirection)
    ensures
        r == direction_of_code(code),
{
    match code {
        1 => TraverseDirection::Forward,
        2 => TraverseDirection::Backward,
        3 => TraverseDirection::Both,
        _ => TraverseDirection::Forward,
    }
}

/// The result limit of a wire query: zero means none.
pub fn query_limit(limit: u32) -> (r: Option<usize>)
    ensures
        limit == 0 ==> r is None,
        limit != 0 ==> r == Some(limit as usize),
{
    if limit == 0 {
        None
    } else {
        Some(limit as usize)
    }
}

/// The page of a node list: `limit` nodes from `offset` on, none when the
/// offset lies past the end.
pub open spec fn page_of(ns: Seq<Node>, offset: int, limit: int) -> Seq<Node> {
    if offset < ns.len() {
        ns.subrange(offset, if offset + limit < ns.len() { offset + limit } else { ns.len() as int })
    } else {
        Seq::empty()
    }
}

/// The page of a node list: `limit` nodes from `offset` on.
pub fn page(nodes: Vec<Node>, offset: usize, limit: usize) -> (r: Vec<Node>)
    ensures
        r@ == page_of(nodes@, offset as int, limit as int),
{
    if offset >= nodes.len() {
        return Vec::new();
    }
    let end: usize = if limit < nodes.len() - offset {
        offset + limit
    } else {
        nodes.len()
    };
    let mut out: Vec<Node> = Vec::new();
    let mut i: usize = offset;
    while i < end
        invariant
            offset <= i <= end <= nodes@.len(),
            out@ == nodes@.subrange(offset as int, i as int),
        decreases end - i,
    {
        out.push(nodes[i].clone());
        i = i + 1;
        assert(out@ =~= nodes@.subrange(offset as int, i as int));
    }
    out
}

/// A node as the wire carries it: its id as text, its content and its type
/// code. (Embeddings, timestamps, scores, source and attributes are kept
/// beside the node by the services and filled in there.)
#[derive(Debug, PartialEq, Eq)]
pub struct WireNode {
    /// Node id, as text.
    pub id: String,
    /// Node content.
    pub content: String,
    /// Node type code.
    pub node_type: i32,
}

/// Whether a wire node carries a node.
pub open spec fn carries_node(w: WireNode, n: Node) -> bool {
    &&& w.id@ == uuid_text(n.id)
    &&& w.content@ == n.content@
    &&& w.node_type == code_of_node_type(n.node_type)
}

/// Whether wire nodes carry nodes, one for one and in order.
pub open spec fn carries_nodes(ws: Seq<WireNode>, ns: Seq<Node>) -> bool {
    &&& ws.len() == ns.len()
    &&& forall|k: int| 0 <= k < ns.len() ==> carries_node(#[trigger] ws[k], ns[k])
}

/// The wire form of a node.
pub fn node_to_wire(n: &Node) -> (w: WireNode)
    ensures
        carries_node(w, *n),
{
    WireNode { id: id_to_string(n.id), content: n.content.clone(), node_type: node_type_code(n.node_type) }
}

/// The wire forms of nodes, in order.
pub fn nodes_to_wire(ns: &Vec<Node>) -> (r: Vec<WireNode>)
    ensures
        carries_nodes(r@, ns@),
{
    let mut out: Vec<WireNode> = Vec::new();
    let mut i: usize = 0;
    while i < ns.len()
        invariant
            i <= ns@.len(),
            out@.len() == i,
            forall|k: int| 0 <= k < i ==> carries_node(#[trigger] out@[k], ns@[k]),
        decreases ns@.len() - i,
    {
        out.push(node_to_wire(&ns[i]));
        i = i + 1;
    }
    out
}

/// An edge as the wire carries it: its ends as text, its relation code,
/// whether it expired, and the id of its replacement as text (empty when
/// it has none). (Weights, vectors, timestamps and attributes are kept
/// beside the edge by the services.)
#[derive(Debug, PartialEq, Eq)]
pub struct WireEdge {
    /// Source node id, as text.
    pub source: String,
    /// Target node id, as text.
    pub target: String,
    /// Relation code.
    pub relation: i32,
    /// Whether the edge expired.
    pub expired: bool,
    /// Id of the replacing edge, as text, or empty.
    pub replaced_by: String,
}

/// Whether a wire edge carries an edge.
pub open spec fn carries_edge(w: WireEdge, e: Edge) -> bool {
    &&& w.source@ == uuid_text(e.source)
    &&& w.target@ == uuid_text(e.target)
    &&& w.relation == code_of_relation(e.relation)
    &&& w.expired == e.expired
    &&& w.replaced_by@ == (match e.replaced_by {
        Some(id) => uuid_text(id),
        None => Seq::<char>::empty(),
    })
}

/// Whether wire edges carry edges, one for one and in order.
pub open spec fn carries_edges(ws: Seq<WireEdge>, es: Seq<Edge>) -> bool {
    &&& ws.len() == es.len()
    &&& forall|k: int| 0 <= k < es.len() ==> carries_edge(#[trigger] ws[k], es[k])
}

/// The wire form of an edge.
pub fn edge_to_wire(e: &Edge) -> (w: WireEdge)
    ensures
        carries_edge(w, *e),
{
    let replaced_by = match e.replaced_by {
        Some(id) => id_to_string(id),
        None => String::new(),
    };
    WireEdge {
        source: id_to_string(e.source),
        target: id_to_string(e.target),
        relation: relation_code(&e.relation),
        expired: e.expired,
        replaced_by,
    }
}

/// The wire forms of edges, in order.
pub fn edges_to_wire(es: &Vec<Edge>) -> (r: Vec<WireEdge>)
    ensures
        carries_edges(r@, es@),
{
    let mut out: Vec<WireEdge> = Vec::new();
    let mut i: usize = 0;
    while i < es.len()
        invariant
            i <= es@.len(),
            out@.len() == i,
            forall|k: int| 0 <= k < i ==> carries_edge(#[trigger] out@[k], es@[k]),
        decreases es@.len() - i,
    {
        out.push(edge_to_wire(&es[i]));
        i = i + 1;
    }
    out
}

/// The status a failed gRPC call is answered with.
#[derive(Debug, PartialEq, Eq)]
pub enum GrpcStatus {
    /// A malformed argument (an id that is no UUID).
    InvalidArgument(String),
    /// The service refused the request; the message is its error's.
    Internal(String),
}

/// An id read from the wire; one that spells no UUID is an invalid
/// argument.
pub fn wire_id(s: &str) -> (r: Result<u128, GrpcStatus>)
    ensures
        parsed_uuid(s@) matches Some(id) ==> r == Ok::<u128, GrpcStatus>(id),
        parsed_uuid(s@) is None ==> (r matches Err(GrpcStatus::InvalidArgument(m)) && m@ == "Invalid UUID format"@),
{
    match parse_uuid(s) {
        Ok(id) => Ok(id),
        Err(m) => Err(GrpcStatus::InvalidArgument(m)),
    }
}

/// The status of a service error: internal, with the error's message.
pub fn internal(e: &ApiError) -> (r: GrpcStatus)
    ensures
        r matches GrpcStatus::Internal(m) && m@ == api_error_text(*e),
{
    GrpcStatus::Internal(e.to_string())
}

/// A node request as it arrives: its content and type code (its embedding
/// and attributes are handed to the service beside it).
#[derive(Debug, PartialEq, Eq)]
pub struct WireNodeRequest {
    /// Node content.
    pub content: String,
    /// Node type code.
    pub node_type: i32,
}

/// An edge request as it arrives: ids as text and a relation code (its
/// weight is handed to the service beside it).
#[derive(Debug, PartialEq, Eq)]
pub struct WireEdgeRequest {
    /// Source node id, as text.
    pub source: String,
    /// Target node id, as text.
    pub target: String,
    /// Relation code.
    pub relation: i32,
}

/// The node requests the wire requests decode to.
pub open spec fn decoded_nodes(ws: Seq<WireNodeRequest>) -> Seq<AddNodeRequest> {
    Seq::new(ws.len(), |k: int| AddNodeRequest { content: ws[k].content, node_type: node_type_of_code(ws[k].node_type), attributes: None })
}

/// The edge requests the wire requests decode to: one whose ids do not
/// both read as UUIDs is passed over.
pub open spec fn decoded_edges(ws: Seq<WireEdgeRequest>) -> Seq<AddEdgeRequest>
    decreases ws.len(),
{
    if ws.len() == 0 {
        Seq::empty()
    } else {
        let w = ws.last();
        let rest = decoded_edges(ws.drop_last());
        match (parsed_uuid(w.source@), parsed_uuid(w.target@)) {
            (Some(s), Some(t)) => rest.push(AddEdgeRequest { source: s, target: t, relation: relation_of_code(w.relation) }),
            _ => rest,
        }
    }
}

/// Decodes the node and edge requests of a bulk operation.
pub fn decode_bulk(nodes: &Vec<WireNodeRequest>, edges: &Vec<WireEdgeRequest>) -> (r: BulkOperationRequest)
    ensures
        r.nodes@ == decoded_nodes(nodes@),
        r.edges@ == decoded_edges(edges@),
{
    let mut node_requests: Vec<AddNodeRequest> = Vec::new();
    let mut i: usize = 0;
    while i < nodes.len()
        invariant
            i <= nodes@.len(),
            node_requests@ == decoded_nodes(nodes@.take(i as int)),
        decreases nodes@.len() - i,
    {
        node_requests.push(
            AddNodeRequest { content: nodes[i].content.clone(), node_type: node_type_from_code(nodes[i].node_type), attributes: None },
        );
        i = i + 1;
        assert(node_requests@ =~= decoded_nodes(nodes@.take(i as int)));
    }
    assert(nodes@.take(nodes@.len() as int) =~= nodes@);
    let mut edge_requests: Vec<AddEdgeRequest> = Vec::new();
    let mut j: usize = 0;
    while j < edges.len()
        invariant
            j <= edges@.len(),
            edge_requests@ == decoded_edges(edges@.take(j as int)),
        decreases edges@.len() - j,
    {
        assert(edges@.take(j + 1).drop_last() =~= edges@.take(j as int));
        let w = &edges[j];
        let source = parse_uuid(w.source.as_str());
        let target = parse_uuid(w.target.as_str());
        match (source, target) {
            (Ok(s), Ok(t)) => {
                edge_requests.push(AddEdgeRequest { source: s, target: t, relation: relation_from_code(w.relation) });
            },
            _ => {},
        }
        j = j + 1;
    }
    assert(edges@.take(edges@.len() as int) =~= edges@);
    BulkOperationRequest { nodes: node_requests, edges: edge_requests }
}

/// Reply to a bulk operation on the wire: node ids as text and 32-bit
/// counts.
#[derive(Debug, PartialEq, Eq)]
pub struct WireBulkResponse {
    /// Ids of the created nodes, as text.
    pub node_ids: Vec<String>,
    /// Ids of the created edges.
    pub edge_ids: Vec<String>,
    /// Number of successful operations.
    pub success_count: u32,
    /// Number of failed operations.
    pub failure_count: u32,
    /// The messages of the failures.
    pub errors: Vec<String>,
}

/// The service as the gRPC interface exposes it.
pub struct GrpcService {
    /// The database service.
    pub inner: SyntonDbService,
}

/// The node request a wire request decodes to.
pub open spec fn node_request(content: String, code: i32) -> AddNodeRequest {
    AddNodeRequest { content, node_type: node_type_of_code(code), attributes: None }
}

/// What a wire reply to adding a node says of the service before and
/// after: the node it carries was made for the request and added, or was
/// already in the table and nothing changed.
pub open spec fn node_added(before: SyntonDbService, after: SyntonDbService, request: AddNodeRequest, w: WireAddNodeResponse) -> bool {
    exists|n: Node|
        {
            &&& #[trigger] carries_node(w.node, n)
            &&& w.created ==> {
                &&& made_for(n, request)
                &&& lookup(before.table(), n.id) is None
                &&& after.table() == before.table().push(n)
                &&& after.graph_nodes() == before.graph_nodes().push(n)
                &&& after.graph_edges() == before.graph_edges()
            }
            &&& !w.created ==> {
                &&& lookup(before.table(), n.id) == Some(n)
                &&& after.table() == before.table()
                &&& after.graph_nodes() == before.graph_nodes()
                &&& after.graph_edges() == before.graph_edges()
            }
        }
}

/// The traversal request a wire request decodes to.
pub open spec fn traverse_request(start: u128, max_depth: u32, max_nodes: u32, code: i32) -> TraverseRequest {
    TraverseRequest {
        start_id: start,
        max_depth: max_depth as usize,
        max_nodes: max_nodes as usize,
        direction: direction_of_code(code),
    }
}

/// Reply to adding a node, on the wire.
#[derive(Debug, PartialEq, Eq)]
pub struct WireAddNodeResponse {
    /// The node.
    pub node: WireNode,
    /// Whether it was created.
    pub created: bool,
}

/// Reply to deleting a node, on the wire.
#[derive(Debug, PartialEq, Eq)]
pub struct WireDeleteResponse {
    /// Whether the node was there.
    pub deleted: bool,
    /// The node id, as text.
    pub id: String,
}

/// A page of the node list, on the wire.
#[derive(Debug, PartialEq, Eq)]
pub struct WireNodeList {
    /// The nodes of the page.
    pub nodes: Vec<WireNode>,
    /// The number of nodes in the whole list (as a 32-bit number).
    pub total_count: u32,
}

/// Reply to a query, on the wire.
#[derive(Debug, PartialEq, Eq)]
pub struct WireQueryResponse {
    /// The nodes found.
    pub nodes: Vec<WireNode>,
    /// Their number (as a 32-bit number).
    pub total_count: u32,
    /// Whether more were found than the limit.
    pub truncated: bool,
}

/// Reply to a traversal, on the wire.
#[derive(Debug, PartialEq, Eq)]
pub struct WireTraverseResponse {
    /// The nodes reached.
    pub nodes: Vec<WireNode>,
    /// The forward edges of the nodes reached.
    pub edges: Vec<WireEdge>,
    /// The depth reached (as a 32-bit number).
    pub depth: u32,
    /// Whether the traversal stopped at its node limit.
    pub truncated: bool,
}

/// The counts of the database, on the wire (as 32-bit numbers).
#[derive(Debug, PartialEq, Eq)]
pub struct WireStats {
    /// Nodes in the graph.
    pub node_count: u32,
    /// Edges in the graph.
    pub edge_count: u32,
    /// Nodes with embeddings.
    pub embedded_count: u32,
}

/// The result limit of a wire query, as a spec: zero means none.
pub open spec fn limit_of(limit: u32) -> Option<usize> {
    if limit == 0 {
        None
    } else {
        Some(limit as usize)
    }
}

impl GrpcService {
    /// A gRPC face for the service.
    pub fn new(service: SyntonDbService) -> (r: GrpcService)
        ensures
            r.inner == service,
    {
        GrpcService { inner: service }
    }

    /// The health of the service.
    pub fn health(&self) -> (r: HealthResponse)
        ensures
            r.status@ == "healthy"@,
            r.version@ == SERVICE_VERSION@,
            r.uptime_secs == 0,
    {
        self.inner.health()
    }

    /// Adds a node with the content and the type that the code names
    /// (a concept for an unknown code); a refusal of the service is an
    /// internal error.
    pub fn add_node(&mut self, content: String, node_type: i32) -> (r: Result<WireAddNodeResponse, GrpcStatus>)
        ensures
            r matches Ok(w) ==> node_added(old(self).inner, final(self).inner, node_request(content, node_type), w),
            exists|n: Node| #[trigger] made_for(n, node_request(content, node_type)) && n.id != 0 && {
                &&& r matches Ok(w) ==> {
                    &&& (w.created <==> lookup(old(self).inner.table(), n.id) is None)
                    &&& w.created ==> carries_node(w.node, n)
                    &&& !w.created ==> (lookup(old(self).inner.table(), n.id) matches Some(m) && carries_node(w.node, m))
                }
                &&& r matches Err(s) ==> {
                    &&& lookup(old(self).inner.table(), n.id) is None
                    &&& lookup(old(self).inner.graph_nodes(), n.id) is Some
                    &&& s matches GrpcStatus::Internal(m) && m@ == "Storage error: "@ + duplicate_node_text(n.id)
                }
            },
            r matches Err(s) ==> {
                &&& exists|id: u128|
                    lookup(old(self).inner.table(), id) is None && lookup(old(self).inner.graph_nodes(), id) is Some
                        && (s matches GrpcStatus::Internal(m) && m@ == "Storage error: "@ + duplicate_node_text(id))
                &&& final(self).inner.table() == old(self).inner.table()
                &&& final(self).inner.graph_nodes() == old(self).inner.graph_nodes()
                &&& final(self).inner.graph_edges() == old(self).inner.graph_edges()
            },
    {
        let ghost asked = node_request(content, node_type);
        let request = AddNodeRequest { content, node_type: node_type_from_code(node_type), attributes: None };
        assert(request == asked);
        let ghost t0 = self.inner.table();
        let ghost g0 = self.inner.graph_nodes();
        let outcome = self.inner.add_node(request);
        let ghost n = choose|n: Node| #[trigger] made_for(n, asked) && n.id != 0 && {
            &&& outcome matches Ok(resp) ==> {
                &&& (resp.created <==> lookup(t0, n.id) is None)
                &&& resp.created ==> resp.node == n
                &&& !resp.created ==> lookup(t0, n.id) == Some(resp.node)
            }
            &&& outcome matches Err(e) ==> {
                &&& lookup(t0, n.id) is None
                &&& lookup(g0, n.id) is Some
                &&& e matches ApiError::Storage(m) && m@ == duplicate_node_text(n.id)
            }
        };
        match outcome {
            Ok(resp) => {
                let w = WireAddNodeResponse { node: node_to_wire(&resp.node), created: resp.created };
                assert(carries_node(w.node, resp.node));
                assert(node_added(old(self).inner, self.inner, asked, w));
                Ok(w)
            },
            Err(e) => Err(internal(&e)),
        }
    }

    /// The node with the id, if the table holds it.
    pub fn get_node(&self, id: &str) -> (r: Result<Option<WireNode>, GrpcStatus>)
        ensures
            parsed_uuid(id@) is None ==> (r matches Err(GrpcStatus::InvalidArgument(m)) && m@ == "Invalid UUID format"@),
            parsed_uuid(id@) matches Some(k) ==> (r matches Ok(o) && match lookup(self.inner.table(), k) {
                Some(n) => o matches Some(w) && carries_node(w, n),
                None => o is None,
            }),
    {
        let key = match wire_id(id) {
            Ok(k) => k,
            Err(s) => {
                return Err(s);
            },
        };
        match self.inner.get_node(GetNodeRequest { id: key }) {
            Ok(resp) => match resp.node {
                Some(n) => Ok(Some(node_to_wire(&n))),
                None => Ok(None),
            },
            Err(e) => Err(internal(&e)),
        }
    }

    /// Deletes the node with the id from the table; the reply says whether
    /// it was there and gives the id as text.
    pub fn delete_node(&mut self, id: &str) -> (r: Result<WireDeleteResponse, GrpcStatus>)
        ensures
            parsed_uuid(id@) is None ==> {
                &&& r matches Err(GrpcStatus::InvalidArgument(m)) && m@ == "Invalid UUID format"@
                &&& final(self).inner.table() == old(self).inner.table()
            },
            parsed_uuid(id@) matches Some(k) ==> {
                &&& r matches Ok(w) && w.deleted == (lookup(old(self).inner.table(), k) is Some) && w.id@ == uuid_text(k)
                &&& final(self).inner.table() == remove_node(old(self).inner.table(), k)
            },
            final(self).inner.graph_nodes() == old(self).inner.graph_nodes(),
            final(self).inner.graph_edges() == old(self).inner.graph_edges(),
    {
        let key = match wire_id(id) {
            Ok(k) => k,
            Err(s) => {
                return Err(s);
            },
        };
        match self.inner.delete_node(DeleteNodeRequest { id: key }) {
            Ok(resp) => Ok(WireDeleteResponse { deleted: resp.deleted, id: id_to_string(resp.id) }),
            Err(e) => Err(internal(&e)),
        }
    }

    /// A page of the table: `limit` nodes from `offset` on, with the size
    /// of the whole table (truncated to 32 bits).
    pub fn list_nodes(&self, offset: u32, limit: u32) -> (r: WireNodeList)
        ensures
            carries_nodes(r.nodes@, page_of(self.inner.table(), offset as int, limit as int)),
            r.total_count == self.inner.table().len() as u32,
    {
        let nodes = self.inner.all_nodes();
        let total: usize = nodes.len();
        let total_count: u32 = #[verifier::truncate] (total as u32);
        let shown = page(nodes, offset as usize, limit as usize);
        WireNodeList { nodes: nodes_to_wire(&shown), total_count }
    }

    /// Adds an edge between the nodes that the ids name, with the relation
    /// that the code names; a malformed id is an invalid argument, a
    /// refusal of the service an internal error.
    pub fn add_edge(&mut self, source: &str, target: &str, relation: i32) -> (r: Result<WireEdge, GrpcStatus>)
        ensures
            parsed_uuid(source@) is None ==> (r matches Err(GrpcStatus::InvalidArgument(m)) && m@ == "Invalid UUID format"@),
            parsed_uuid(source@) is Some && parsed_uuid(target@) is None ==> (r matches Err(GrpcStatus::InvalidArgument(m))
                && m@ == "Invalid UUID format"@),
            parsed_uuid(source@) matches Some(s) ==> parsed_uuid(target@) matches Some(t) ==> {
                &&& lookup(old(self).inner.table(), s) is None ==> (r matches Err(GrpcStatus::Internal(m)) && m@
                    == api_error_text(ApiError::NodeNotFound(s)))
                &&& lookup(old(self).inner.table(), s) is Some && lookup(old(self).inner.table(), t) is None ==> (r matches Err(
                    GrpcStatus::Internal(m),
                ) && m@ == api_error_text(ApiError::NodeNotFound(t)))
                &&& lookup(old(self).inner.table(), s) is Some && lookup(old(self).inner.table(), t) is Some ==> {
                    let e = Edge { source: s, target: t, relation: relation_of_code(relation), expired: false, replaced_by: None };
                    &&& r matches Ok(w) && carries_edge(w, e)
                    &&& final(self).inner.graph_edges() == old(self).inner.graph_edges().push(e)
                }
            },
            r is Err ==> final(self).inner.graph_edges() == old(self).inner.graph_edges(),
            final(self).inner.table() == old(self).inner.table(),
            final(self).inner.graph_nodes() == old(self).inner.graph_nodes(),
    {
        let rel = relation_from_code(relation);
        let s = match wire_id(source) {
            Ok(k) => k,
            Err(st) => {
                return Err(st);
            },
        };
        let t = match wire_id(target) {
            Ok(k) => k,
            Err(st) => {
                return Err(st);
            },
        };
        match self.inner.add_edge(AddEdgeRequest { source: s, target: t, relation: rel }) {
            Ok(resp) => Ok(edge_to_wire(&resp.edge)),
            Err(e) => Err(internal(&e)),
        }
    }

    /// The outgoing edges of the node that the id names (none when the
    /// graph has no edge there).
    pub fn get_edges(&self, node_id: &str) -> (r: Result<Vec<WireEdge>, GrpcStatus>)
        ensures
            parsed_uuid(node_id@) is None ==> (r matches Err(GrpcStatus::InvalidArgument(m)) && m@ == "Invalid UUID format"@),
            parsed_uuid(node_id@) matches Some(k) ==> (r matches Ok(v) && carries_edges(
                v@,
                edges_at(self.inner.graph_edges(), k, crate::graph::TraverseDirection::Forward),
            )),
    {
        let id = match wire_id(node_id) {
            Ok(k) => k,
            Err(st) => {
                return Err(st);
            },
        };
        match self.inner.graph().edges(id, crate::graph::TraverseDirection::Forward) {
            Ok(edges) => Ok(edges_to_wire(&edges)),
            Err(_) => Ok(Vec::new()),
        }
    }

    /// Answers a parsed query; a zero limit means none. The count of all
    /// matching nodes is truncated to 32 bits.
    pub fn query(&self, parsed: &QueryNode, limit: u32) -> (r: Result<WireQueryResponse, GrpcStatus>)
        ensures
            r matches Ok(w) && exists|v: Seq<Node>|
                {
                    &&& #[trigger] searched(self.inner.table(), *parsed, limit_of(limit), v)
                    &&& carries_nodes(w.nodes@, v)
                    &&& w.total_count == selected(self.inner.table(), *parsed).len() as u32
                    &&& w.truncated == (limit != 0 && v.len() > limit)
                },
    {
        match self.inner.query(parsed, query_limit(limit)) {
            Ok(resp) => {
                let total_count: u32 = #[verifier::truncate] (resp.total_count as u32);
                let w = WireQueryResponse { nodes: nodes_to_wire(&resp.nodes), total_count, truncated: resp.truncated };
                assert(searched(self.inner.table(), *parsed, limit_of(limit), resp.nodes@));
                Ok(w)
            },
            Err(e) => Err(internal(&e)),
        }
    }

    /// A breadth-first traversal from the node that the id names, in the
    /// direction that the code names (forward for an unknown code); depth
    /// and counts travel as 32-bit numbers.
    pub fn traverse(&self, start_id: &str, max_depth: u32, max_nodes: u32, direction: i32) -> (r: Result<
        WireTraverseResponse,
        GrpcStatus,
    >)
        ensures
            parsed_uuid(start_id@) is None ==> (r matches Err(GrpcStatus::InvalidArgument(m)) && m@ == "Invalid UUID format"@),
            parsed_uuid(start_id@) matches Some(s) ==> {
                &&& lookup(self.inner.graph_nodes(), s) is None ==> (r matches Err(GrpcStatus::Internal(m)) && m@ == "Storage error: "@
                    + graph_error_text(GraphError::NodeNotFound(s)))
                &&& lookup(self.inner.graph_nodes(), s) is Some ==> (r matches Ok(w) && exists|resp: TraverseResponse|
                    {
                        &&& #[trigger] traversal_answer(
                            self.inner.graph_nodes(),
                            self.inner.graph_edges(),
                            traverse_request(s, max_depth, max_nodes, direction),
                            resp,
                        )
                        &&& carries_nodes(w.nodes@, resp.nodes@)
                        &&& carries_edges(w.edges@, resp.edges@)
                        &&& w.depth == resp.depth as u32
                        &&& w.truncated == resp.truncated
                    })
            },
    {
        let start = match wire_id(start_id) {
            Ok(k) => k,
            Err(st) => {
                return Err(st);
            },
        };
        let request = TraverseRequest {
            start_id: start,
            max_depth: max_depth as usize,
            max_nodes: max_nodes as usize,
            direction: direction_from_code(direction),
        };
        assert(request == traverse_request(start, max_depth, max_nodes, direction));
        match self.inner.traverse(request) {
            Ok(resp) => {
                let depth: u32 = #[verifier::truncate] (resp.depth as u32);
                let w = WireTraverseResponse {
                    nodes: nodes_to_wire(&resp.nodes),
                    edges: edges_to_wire(&resp.edges),
                    depth,
                    truncated: resp.truncated,
                };
                assert(traversal_answer(
                    self.inner.graph_nodes(),
                    self.inner.graph_edges(),
                    traverse_request(start, max_depth, max_nodes, direction),
                    resp,
                ));
                Ok(w)
            },
            Err(e) => Err(internal(&e)),
        }
    }

    /// The counts of the graph, truncated to 32 bits; nothing is counted
    /// as embedded.
    pub fn stats(&self) -> (r: Result<WireStats, GrpcStatus>)
        ensures
            r matches Ok(w) && {
                &&& w.node_count == (self.inner.graph_nodes().len() as usize) as u32
                &&& w.edge_count == (self.inner.graph_edges().len() as usize) as u32
                &&& w.embedded_count == 0
            },
    {
        match self.inner.stats() {
            Ok(st) => {
                let node_count: u32 = #[verifier::truncate] (st.node_count as u32);
                let edge_count: u32 = #[verifier::truncate] (st.edge_count as u32);
                let embedded_count: u32 = #[verifier::truncate] (st.embedded_count as u32);
                Ok(WireStats { node_count, edge_count, embedded_count })
            },
            Err(e) => Err(internal(&e)),
        }
    }

    /// Decodes a bulk request and runs it on the service; the reply writes
    /// the node ids as text and the counts as 32-bit numbers (truncating).
    pub fn bulk_operation(&mut self, nodes: &Vec<WireNodeRequest>, edges: &Vec<WireEdgeRequest>) -> (r: WireBulkResponse)
        requires
            nodes@.len() + edges@.len() <= usize::MAX,
        ensures
            exists|request: BulkOperationRequest, resp: crate::api_models::BulkOperationResponse|
                {
                    &&& request.nodes@ == decoded_nodes(nodes@)
                    &&& request.edges@ == decoded_edges(edges@)
                    &&& crate::service::bulk_outcome(old(self).inner, final(self).inner, request, resp)
                    &&& views(r.node_ids@) == resp.node_ids@.map_values(|id: u128| uuid_text(id))
                    &&& r.edge_ids@ == resp.edge_ids@
                    &&& r.errors@ == resp.errors@
                    &&& r.success_count == resp.success_count as u32
                    &&& r.failure_count == resp.failure_count as u32
                },
    {
        let request = decode_bulk(nodes, edges);
        proof {
            lemma_decoded_edges_len(edges@);
        }
        let ghost req_copy = request;
        let resp = self.inner.bulk_operation(request);
        let ghost resp_copy = resp;
        let mut node_ids: Vec<String> = Vec::new();
        let mut i: usize = 0;
        while i < resp.node_ids.len()
            invariant
                i <= resp.node_ids@.len(),
                views(node_ids@) == resp.node_ids@.take(i as int).map_values(|id: u128| uuid_text(id)),
            decreases resp.node_ids@.len() - i,
        {
            let text = id_to_string(resp.node_ids[i]);
            proof {
                assert(views(node_ids@.push(text)) =~= views(node_ids@).push(text@));
                assert(resp.node_ids@.take(i + 1).map_values(|id: u128| uuid_text(id)) =~= resp.node_ids@.take(
                    i as int,
                ).map_values(|id: u128| uuid_text(id)).push(uuid_text(resp.node_ids@[i as int])));
            }
            node_ids.push(text);
            i = i + 1;
        }
        assert(resp.node_ids@.take(resp.node_ids@.len() as int) =~= resp.node_ids@);
        let success_count: u32 = #[verifier::truncate] (resp.success_count as u32);
        let failure_count: u32 = #[verifier::truncate] (resp.failure_count as u32);
        let r = WireBulkResponse { node_ids, edge_ids: resp.edge_ids, success_count, failure_count, errors: resp.errors };
        proof {
            assert(views(r.node_ids@) == resp_copy.node_ids@.map_values(|id: u128| uuid_text(id)));
            assert(crate::service::bulk_outcome(old(self).inner, self.inner, req_copy, resp_copy));
        }
        r
    }
}

proof fn lemma_decoded_edges_len(ws: Seq<WireEdgeRequest>)
    ensures
        decoded_edges(ws).len() <= ws.len(),
    decreases ws.len(),
{
    if ws.len() > 0 {
        lemma_decoded_edges_len(ws.drop_last());
    }
}

} // verus!
