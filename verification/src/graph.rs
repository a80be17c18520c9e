//! The in-memory graph of nodes and edges, and its traversals.

use vstd::prelude::*;
use vstd::std_specs::hash::group_hash_axioms;
use std::collections::HashSet;
use crate::edge::Edge;
use crate::ids::{id_to_string, uuid_text};
use crate::node::Node;
use crate::relation::Relation;
use crate::text::str_eq;

verus! {

broadcast use group_hash_axioms;

/// Direction for graph traversal.
#[derive(Debug, Clone, Copy, PartialEq, Eq)]
pub enum TraverseDirection {
    /// Follow outgoing edges only.
    Forward,
    /// Follow incoming edges only.
    Backward,
    /// Follow both incoming and outgoing edges.
    Both,
}

/// Whether a direction follows outgoing edges.
pub open spec fn follows_forward(d: TraverseDirection) -> bool {
    d is Forward || d is Both
}

/// Whether a direction follows incoming edges.
pub open spec fn follows_backward(d: TraverseDirection) -> bool {
    d is Backward || d is Both
}

impl TraverseDirection {
    /// Whether this direction includes forward traversal.
    pub fn includes_forward(&self) -> (r: bool)
        ensures
            r == follows_forward(*self),
    {
        match self {
            TraverseDirection::Forward | TraverseDirection::Both => true,
            TraverseDirection::Backward => false,
        }
    }

    /// Whether this direction includes backward traversal.
    pub fn includes_backward(&self) -> (r: bool)
        ensures
            r == follows_backward(*self),
    {
        match self {
            TraverseDirection::Backward | TraverseDirection::Both => true,
            TraverseDirection::Forward => false,
        }
    }
}

impl Default for TraverseDirection {
    fn default() -> (r: TraverseDirection)
        ensures
            r == TraverseDirection::Forward,
    {
        TraverseDirection::Forward
    }
}

/// Configuration of a graph traversal.
#[derive(Debug, Clone, PartialEq)]
pub struct TraversalConfig {
    /// Maximum traversal depth (number of hops).
    pub max_depth: usize,
    /// Maximum number of nodes to visit.
    pub max_nodes: usize,
    /// Traversal direction.
    pub direction: TraverseDirection,
    /// Relations to follow (empty means all relations).
    pub relation_filter: Vec<Relation>,
    /// Whether to detect and avoid cycles.
    pub avoid_cycles: bool,
    /// Whether to include the start node in results.
    pub include_start: bool,
}

impl Default for TraversalConfig {
    fn default() -> (r: TraversalConfig)
        ensures
            r.max_depth == 3,
            r.max_nodes == 100,
            r.direction == TraverseDirection::Forward,
            r.relation_filter@.len() == 0,
            r.avoid_cycles,
            !r.include_start,
    {
        TraversalConfig {
            max_depth: 3,
            max_nodes: 100,
            direction: TraverseDirection::Forward,
            relation_filter: Vec::new(),
            avoid_cycles: true,
            include_start: false,
        }
    }
}

impl TraversalConfig {
    /// The default configuration with the given maximum depth.
    pub fn with_depth(max_depth: usize) -> (r: TraversalConfig)
        ensures
            r.max_depth == max_depth,
            r.max_nodes == 100,
            r.direction == TraverseDirection::Forward,
            r.relation_filter@.len() == 0,
            r.avoid_cycles,
            !r.include_start,
    {
        TraversalConfig { max_depth, ..TraversalConfig::default() }
    }

    /// Sets the maximum number of nodes.
    pub fn with_max_nodes(self, max_nodes: usize) -> (r: TraversalConfig)
        ensures
            r == (TraversalConfig { max_nodes, ..self }),
    {
        TraversalConfig { max_nodes, ..self }
    }

    /// Sets the direction.
    pub fn with_direction(self, direction: TraverseDirection) -> (r: TraversalConfig)
        ensures
            r == (TraversalConfig { direction, ..self }),
    {
        TraversalConfig { direction, ..self }
    }

    /// Adds a relation to the relation filter.
    pub fn with_relation(self, relation: Relation) -> (r: TraversalConfig)
        ensures
            r.relation_filter@ == self.relation_filter@.push(relation),
            r.max_depth == self.max_depth,
            r.max_nodes == self.max_nodes,
            r.direction == self.direction,
            r.avoid_cycles == self.avoid_cycles,
            r.include_start == self.include_start,
    {
        let mut c = self;
        c.relation_filter.push(relation);
        c
    }

    /// Sets whether cycles are avoided.
    pub fn with_avoid_cycles(self, avoid: bool) -> (r: TraversalConfig)
        ensures
            r == (TraversalConfig { avoid_cycles: avoid, ..self }),
    {
        TraversalConfig { avoid_cycles: avoid, ..self }
    }

    /// Sets whether the start node is included in the results.
    pub fn with_include_start(self, start_included: bool) -> (r: TraversalConfig)
        ensures
            r == (TraversalConfig { include_start: start_included, ..self }),
    {
        TraversalConfig { include_start: start_included, ..self }
    }
}

/// Result of a graph traversal.
#[derive(Debug, Clone, PartialEq)]
pub struct TraversalResult {
    /// Visited nodes, in visiting order.
    pub nodes: Vec<Node>,
    /// Traversed edges.
    pub edges: Vec<Edge>,
    /// Depth reached.
    pub depth: usize,
    /// Whether the traversal was cut short.
    pub truncated: bool,
}

impl TraversalResult {
    /// A result that is not truncated.
    pub fn new(nodes: Vec<Node>, edges: Vec<Edge>, depth: usize) -> (r: TraversalResult)
        ensures
            r == (TraversalResult { nodes, edges, depth, truncated: false }),
    {
        TraversalResult { nodes, edges, depth, truncated: false }
    }

    /// Sets the truncated flag.
    pub fn with_truncated(self, truncated: bool) -> (r: TraversalResult)
        ensures
            r == (TraversalResult { truncated, ..self }),
    {
        TraversalResult { truncated, ..self }
    }

    /// Whether no node was visited.
    pub fn is_empty(&self) -> (r: bool)
        ensures
            r == (self.nodes@.len() == 0),
    {
        self.nodes.len() == 0
    }

    /// The number of visited nodes.
    pub fn len(&self) -> (r: usize)
        ensures
            r == self.nodes@.len(),
    {
        self.nodes.len()
    }
}

/// Graph-specific errors.
#[derive(Debug, Clone, PartialEq)]
pub enum GraphError {
    /// Node not found.
    NodeNotFound(u128),
    /// Edge not found.
    EdgeNotFound(String),
    /// Cycle detected in a traversal.
    CycleDetected(Vec<u128>),
    /// Invalid traversal depth.
    InvalidDepth(String),
    /// Storage error.
    Storage(String),
    /// Custom error.
    Custom(String),
}

/// The message of a node that is added twice.
pub open spec fn duplicate_node_text(id: u128) -> Seq<char> {
    "Node "@ + uuid_text(id) + " already exists"@
}

/// The ids in a cycle, as written in an error message.
pub open spec fn id_list_text(ids: Seq<u128>) -> Seq<char>
    decreases ids.len(),
{
    if ids.len() == 0 {
        Seq::empty()
    } else if ids.len() == 1 {
        uuid_text(ids[0])
    } else {
        id_list_text(ids.drop_last()) + ", "@ + uuid_text(ids.last())
    }
}

/// The message of a graph error.
pub open spec fn graph_error_text(e: GraphError) -> Seq<char> {
    match e {
        GraphError::NodeNotFound(id) => "Node not found: "@ + uuid_text(id),
        GraphError::EdgeNotFound(s) => "Edge not found: "@ + s@,
        GraphError::CycleDetected(ids) => "Cycle detected: ["@ + id_list_text(ids@) + "]"@,
        GraphError::InvalidDepth(s) => "Invalid depth: "@ + s@,
        GraphError::Storage(s) => "Storage error: "@ + s@,
        GraphError::Custom(s) => s@,
    }
}

impl GraphError {
    /// The message of this error.
    pub fn to_string(&self) -> (r: String)
        ensures
            r@ == graph_error_text(*self),
    {
        match self {
            GraphError::NodeNotFound(id) => {
                let t = id_to_string(*id);
                String::from_str("Node not found: ").concat(t.as_str())
            },
            GraphError::EdgeNotFound(s) => String::from_str("Edge not found: ").concat(s.as_str()),
            GraphError::CycleDetected(ids) => {
                let mut list = String::new();
                let mut i: usize = 0;
                while i < ids.len()
                    invariant
                        i <= ids.len(),
                        list@ == id_list_text(ids@.take(i as int)),
                    decreases ids.len() - i,
                {
                    assert(ids@.take(i + 1).drop_last() =~= ids@.take(i as int));
                    let t = id_to_string(ids[i]);
                    if i == 0 {
                        list = t;
                    } else {
                        list = list.concat(", ").concat(t.as_str());
                    }
                    i = i + 1;
                }
                assert(ids@.take(ids@.len() as int) =~= ids@);
                String::from_str("Cycle detected: [").concat(list.as_str()).concat("]")
            },
            GraphError::InvalidDepth(s) => String::from_str("Invalid depth: ").concat(s.as_str()),
            GraphError::Storage(s) => String::from_str("Storage error: ").concat(s.as_str()),
            GraphError::Custom(s) => s.clone(),
        }
    }
}

// ---------------------------------------------------------------------------
// The mathematical model of a graph: its node sequence and its edge sequence.
// ---------------------------------------------------------------------------

/// No two nodes share an id.
pub open spec fn unique_ids(ns: Seq<Node>) -> bool {
    forall|i: int, j: int| 0 <= i < j < ns.len() ==> ns[i].id != ns[j].id
}

/// The node with the given id, if any.
pub open spec fn lookup(ns: Seq<Node>, id: u128) -> Option<Node>
    decreases ns.len(),
{
    if ns.len() == 0 {
        None
    } else if ns.last().id == id {
        Some(ns.last())
    } else {
        lookup(ns.drop_last(), id)
    }
}

/// The edges leaving `id`, in insertion order.
pub open spec fn out_edges(es: Seq<Edge>, id: u128) -> Seq<Edge>
    decreases es.len(),
{
    if es.len() == 0 {
        Seq::empty()
    } else if es.last().source == id {
        out_edges(es.drop_last(), id).push(es.last())
    } else {
        out_edges(es.drop_last(), id)
    }
}

/// The edges entering `id`, in insertion order.
pub open spec fn in_edges(es: Seq<Edge>, id: u128) -> Seq<Edge>
    decreases es.len(),
{
    if es.len() == 0 {
        Seq::empty()
    } else if es.last().target == id {
        in_edges(es.drop_last(), id).push(es.last())
    } else {
        in_edges(es.drop_last(), id)
    }
}

/// The edges at `id` in a direction: the outgoing ones first when the
/// direction follows them, then the incoming ones.
pub open spec fn edges_at(es: Seq<Edge>, id: u128, dir: TraverseDirection) -> Seq<Edge> {
    (if follows_forward(dir) { out_edges(es, id) } else { Seq::empty() }) + (if follows_backward(
        dir,
    ) {
        in_edges(es, id)
    } else {
        Seq::empty()
    })
}

/// The end of an edge at `id` that a traversal moves to: the target of an
/// edge leaving `id`, the source of an edge entering it.
pub open spec fn far_end(e: Edge, id: u128) -> u128 {
    if e.source == id { e.target } else { e.source }
}

/// The nodes reached from `id` over a sequence of edges at it: the far end
/// of each edge, when a node with that id exists.
pub open spec fn nodes_over(ns: Seq<Node>, es: Seq<Edge>, id: u128) -> Seq<Node>
    decreases es.len(),
{
    if es.len() == 0 {
        Seq::empty()
    } else {
        let rest = nodes_over(ns, es.drop_last(), id);
        match lookup(ns, far_end(es.last(), id)) {
            Some(n) => rest.push(n),
            None => rest,
        }
    }
}

/// The neighbors of `id` in a direction.
pub open spec fn neighbors_of(ns: Seq<Node>, es: Seq<Edge>, id: u128, dir: TraverseDirection) -> Seq<
    Node,
> {
    nodes_over(ns, edges_at(es, id, dir), id)
}

/// A traversal with a relation filter follows an edge when the filter is
/// empty or names the edge's relation.
pub open spec fn follows_relation(filter: Seq<Relation>, e: Edge) -> bool {
    filter.len() == 0 || exists|j: int| 0 <= j < filter.len() && (#[trigger] filter[j])@ == e.relation@
}

/// The edges that a relation filter lets a traversal follow, in order.
pub open spec fn edges_via(es: Seq<Edge>, filter: Seq<Relation>) -> Seq<Edge>
    decreases es.len(),
{
    if es.len() == 0 {
        Seq::empty()
    } else if follows_relation(filter, es.last()) {
        edges_via(es.drop_last(), filter).push(es.last())
    } else {
        edges_via(es.drop_last(), filter)
    }
}

/// The nodes a traversal moves to from `id` in a direction, over the edges
/// that the relation filter lets it follow.
pub open spec fn next_nodes(ns: Seq<Node>, es: Seq<Edge>, id: u128, dir: TraverseDirection, filter: Seq<Relation>) -> Seq<Node> {
    nodes_over(ns, edges_via(edges_at(es, id, dir), filter), id)
}

/// A traversal in a direction moves from node `a` to node `b` in one step.
pub open spec fn steps_to(ns: Seq<Node>, es: Seq<Edge>, dir: TraverseDirection, a: u128, b: u128) -> bool {
    exists|i: int| 0 <= i < neighbors_of(ns, es, a, dir).len() && #[trigger] neighbors_of(ns, es, a, dir)[i].id == b
}

/// `id` can be reached from `start` in at most `k` steps.
pub open spec fn reachable(
    ns: Seq<Node>,
    es: Seq<Edge>,
    dir: TraverseDirection,
    start: u128,
    id: u128,
    k: nat,
) -> bool
    decreases k,
{
    id == start || (k > 0 && (reachable(ns, es, dir, start, id, (k - 1) as nat) || exists|m: u128|
        reachable(ns, es, dir, start, m, (k - 1) as nat) && #[trigger] steps_to(ns, es, dir, m, id)))
}

/// A traversal in a direction moves from node `a` to node `b` in one step
/// over an edge that the relation filter lets it follow.
pub open spec fn steps_via(ns: Seq<Node>, es: Seq<Edge>, dir: TraverseDirection, filter: Seq<Relation>, a: u128, b: u128) -> bool {
    exists|i: int| 0 <= i < next_nodes(ns, es, a, dir, filter).len() && #[trigger] next_nodes(ns, es, a, dir, filter)[i].id == b
}

/// `id` can be reached from `start` in at most `k` steps, each over an edge
/// that the relation filter lets a traversal follow.
pub open spec fn reachable_via(
    ns: Seq<Node>,
    es: Seq<Edge>,
    dir: TraverseDirection,
    filter: Seq<Relation>,
    start: u128,
    id: u128,
    k: nat,
) -> bool
    decreases k,
{
    id == start || (k > 0 && (reachable_via(ns, es, dir, filter, start, id, (k - 1) as nat) || exists|m: u128|
        reachable_via(ns, es, dir, filter, start, m, (k - 1) as nat) && #[trigger] steps_via(ns, es, dir, filter, m, id)))
}

/// The ids of a sequence of nodes.
pub open spec fn ids_of(ns: Seq<Node>) -> Seq<u128> {
    ns.map_values(|n: Node| n.id)
}

// ---------------------------------------------------------------------------
// Lemmas on the model.
// ---------------------------------------------------------------------------

/// A found node carries the id it was looked up by, and is in the sequence.
pub proof fn lemma_lookup(ns: Seq<Node>, id: u128)
    ensures
        lookup(ns, id) matches Some(n) ==> n.id == id && ns.contains(n),
        lookup(ns, id) is None <==> (forall|i: int| 0 <= i < ns.len() ==> ns[i].id != id),
    decreases ns.len(),
{
    if ns.len() > 0 {
        lemma_lookup(ns.drop_last(), id);
        if lookup(ns, id) is Some && ns.last().id != id {
            let n = lookup(ns, id)->0;
            let k = choose|k: int| 0 <= k < ns.drop_last().len() && ns.drop_last()[k] == n;
            assert(ns[k] == n);
        }
        if ns.last().id != id {
            assert forall|i: int| 0 <= i < ns.len() && ns[i].id == id implies lookup(ns, id) is Some by {
                assert(ns.drop_last()[i].id == id);
            }
        }
    }
}

/// With unique ids, the node at an index is what its id looks up.
pub proof fn lemma_lookup_index(ns: Seq<Node>, k: int)
    requires
        unique_ids(ns),
        0 <= k < ns.len(),
    ensures
        lookup(ns, ns[k].id) == Some(ns[k]),
    decreases ns.len(),
{
    if k < ns.len() - 1 {
        lemma_lookup_index(ns.drop_last(), k);
    }
}

/// Every node reached over edges is what its id looks up.
pub proof fn lemma_nodes_over(ns: Seq<Node>, es: Seq<Edge>, id: u128)
    ensures
        forall|i: int| 0 <= i < nodes_over(ns, es, id).len() ==> lookup(ns, #[trigger] nodes_over(ns, es, id)[i].id)
            == Some(nodes_over(ns, es, id)[i]),
    decreases es.len(),
{
    if es.len() > 0 {
        lemma_nodes_over(ns, es.drop_last(), id);
        lemma_lookup(ns, far_end(es.last(), id));
    }
}

/// An empty relation filter lets a traversal follow every edge.
pub proof fn lemma_edges_via_all(es: Seq<Edge>, filter: Seq<Relation>)
    requires
        filter.len() == 0,
    ensures
        edges_via(es, filter) == es,
    decreases es.len(),
{
    if es.len() > 0 {
        lemma_edges_via_all(es.drop_last(), filter);
        assert(es.drop_last().push(es.last()) =~= es);
    }
}

/// Every node reached over the edges a filter lets through is reached over
/// the edges themselves.
pub proof fn lemma_nodes_via(ns: Seq<Node>, es: Seq<Edge>, id: u128, filter: Seq<Relation>)
    ensures
        forall|i: int| 0 <= i < nodes_over(ns, edges_via(es, filter), id).len()
            ==> nodes_over(ns, es, id).contains(#[trigger] nodes_over(ns, edges_via(es, filter), id)[i]),
    decreases es.len(),
{
    if es.len() > 0 {
        let es1 = es.drop_last();
        lemma_nodes_via(ns, es1, id, filter);
        let v = edges_via(es, filter);
        let v1 = edges_via(es1, filter);
        if follows_relation(filter, es.last()) {
            assert(v.drop_last() =~= v1);
        }
        let a = nodes_over(ns, v, id);
        let a1 = nodes_over(ns, v1, id);
        let b = nodes_over(ns, es, id);
        let b1 = nodes_over(ns, es1, id);
        assert forall|i: int| 0 <= i < a.len() implies b.contains(#[trigger] a[i]) by {
            if i < a1.len() {
                assert(a[i] == a1[i]);
                assert(b1.contains(a1[i]));
                let k = choose|k: int| 0 <= k < b1.len() && b1[k] == a1[i];
                assert(b[k] == b1[k]);
            } else {
                assert(b[b.len() - 1] == a[i]);
            }
        }
    }
}

/// Reachability over followed edges within `a` steps is reachability within
/// any larger bound.
pub proof fn lemma_reachable_via_mono(
    ns: Seq<Node>,
    es: Seq<Edge>,
    dir: TraverseDirection,
    filter: Seq<Relation>,
    start: u128,
    id: u128,
    a: nat,
    b: nat,
)
    requires
        a <= b,
        reachable_via(ns, es, dir, filter, start, id, a),
    ensures
        reachable_via(ns, es, dir, filter, start, id, b),
    decreases b - a,
{
    if a < b {
        lemma_reachable_via_mono(ns, es, dir, filter, start, id, a, (b - 1) as nat);
    }
}

/// A sequence of distinct ids drawn from a pool is no longer than the pool.
pub proof fn lemma_distinct_within(r: Seq<u128>, pool: Seq<u128>)
    requires
        r.no_duplicates(),
        forall|i: int| 0 <= i < r.len() ==> pool.contains(#[trigger] r[i]),
    ensures
        r.len() <= pool.len(),
{
    broadcast use vstd::seq_lib::seq_to_set_is_finite;
    r.unique_seq_to_set();
    pool.lemma_cardinality_of_set();
    assert(r.to_set().subset_of(pool.to_set()));
    vstd::set_lib::lemma_len_subset(r.to_set(), pool.to_set());
}

/// Reachability within `a` steps is reachability within any larger bound.
pub proof fn lemma_reachable_mono(
    ns: Seq<Node>,
    es: Seq<Edge>,
    dir: TraverseDirection,
    start: u128,
    id: u128,
    a: nat,
    b: nat,
)
    requires
        a <= b,
        reachable(ns, es, dir, start, id, a),
    ensures
        reachable(ns, es, dir, start, id, b),
    decreases b - a,
{
    if a < b {
        lemma_reachable_mono(ns, es, dir, start, id, a, (b - 1) as nat);
    }
}

} // verus!

verus! {

/// Inserts a node as a map keyed by id does: a node with the same id is
/// replaced in place, otherwise the node is appended.
pub open spec fn insert_node(ns: Seq<Node>, n: Node) -> Seq<Node> {
    if exists|i: int| 0 <= i < ns.len() && ns[i].id == n.id {
        ns.update(choose|i: int| 0 <= i < ns.len() && ns[i].id == n.id, n)
    } else {
        ns.push(n)
    }
}

/// Inserts nodes one after the other.
pub open spec fn insert_nodes(ns: Seq<Node>, added: Seq<Node>) -> Seq<Node>
    decreases added.len(),
{
    if added.len() == 0 {
        ns
    } else {
        insert_node(insert_nodes(ns, added.drop_last()), added.last())
    }
}

/// The in-memory graph: nodes keyed by id, and edges in insertion order.
pub struct MemoryGraph {
    nodes: Vec<Node>,
    edges: Vec<Edge>,
}

impl MemoryGraph {
    #[verifier::type_invariant]
    spec fn wf(&self) -> bool {
        unique_ids(self.nodes@)
    }

    /// The nodes of the graph.
    pub closed spec fn node_seq(&self) -> Seq<Node> {
        self.nodes@
    }

    /// The edges of the graph, in insertion order.
    pub closed spec fn edge_seq(&self) -> Seq<Edge> {
        self.edges@
    }

    /// An empty graph.
    pub fn new() -> (g: MemoryGraph)
        ensures
            g.node_seq() == Seq::<Node>::empty(),
            g.edge_seq() == Seq::<Edge>::empty(),
    {
        MemoryGraph { nodes: Vec::new(), edges: Vec::new() }
    }

    fn index_of(&self, id: u128) -> (r: Option<usize>)
        ensures
            r matches Some(k) ==> k < self.nodes@.len() && self.nodes@[k as int].id == id,
            r is None ==> forall|i: int| 0 <= i < self.nodes@.len() ==> self.nodes@[i].id != id,
    {
        let mut i: usize = 0;
        while i < self.nodes.len()
            invariant
                i <= self.nodes@.len(),
                forall|j: int| 0 <= j < i ==> self.nodes@[j].id != id,
            decreases self.nodes@.len() - i,
        {
            if self.nodes[i].id == id {
                return Some(i);
            }
            i = i + 1;
        }
        None
    }

    /// Adds a node; a node whose id is already present is refused.
    pub fn add_node(&mut self, node: Node) -> (r: Result<(), GraphError>)
        ensures
            lookup(old(self).node_seq(), node.id) is Some ==> (r matches Err(GraphError::Custom(m))
                && m@ == duplicate_node_text(node.id) && final(self).node_seq() == old(self).node_seq()),
            lookup(old(self).node_seq(), node.id) is None ==> (r is Ok && final(self).node_seq() == old(
                self,
            ).node_seq().push(node)),
            final(self).edge_seq() == old(self).edge_seq(),
    {
        proof {
            use_type_invariant(&*self);
            lemma_lookup(self.nodes@, node.id);
        }
        match self.index_of(node.id) {
            Some(_) => {
                let t = id_to_string(node.id);
                let m = String::from_str("Node ").concat(t.as_str()).concat(" already exists");
                Err(GraphError::Custom(m))
            },
            None => {
                let mut ns: Vec<Node> = Vec::new();
                std::mem::swap(&mut ns, &mut self.nodes);
                ns.push(node);
                self.nodes = ns;
                Ok(())
            },
        }
    }

    /// Adds an edge; the end nodes need not exist.
    pub fn add_edge(&mut self, edge: Edge) -> (r: Result<(), GraphError>)
        ensures
            r is Ok,
            final(self).node_seq() == old(self).node_seq(),
            final(self).edge_seq() == old(self).edge_seq().push(edge),
    {
        proof {
            use_type_invariant(&*self);
        }
        let mut es: Vec<Edge> = Vec::new();
        std::mem::swap(&mut es, &mut self.edges);
        es.push(edge);
        self.edges = es;
        Ok(())
    }

    fn put_node(&mut self, node: Node)
        ensures
            final(self).nodes@ == insert_node(old(self).nodes@, node),
            final(self).edges@ == old(self).edges@,
    {
        proof {
            use_type_invariant(&*self);
        }
        match self.index_of(node.id) {
            Some(k) => {
                let ghost ns = self.nodes@;
                proof {
                    let c = choose|i: int| 0 <= i < ns.len() && ns[i].id == node.id;
                    assert(c == k as int);
                }
                let mut v: Vec<Node> = Vec::new();
                std::mem::swap(&mut v, &mut self.nodes);
                v.set(k, node);
                proof {
                    assert forall|i: int, j: int| 0 <= i < j < v@.len() implies v@[i].id != v@[j].id by {
                        assert(ns[i].id != ns[j].id);
                    }
                }
                self.nodes = v;
                proof {
                    assert forall|i: int, j: int| 0 <= i < j < self.nodes@.len() implies self.nodes@[i].id
                        != self.nodes@[j].id by {
                        assert(ns[i].id != ns[j].id);
                    }
                }
            },
            None => {
                let mut v: Vec<Node> = Vec::new();
                std::mem::swap(&mut v, &mut self.nodes);
                v.push(node);
                self.nodes = v;
            },
        }
    }

    /// A graph built from nodes and edges; nodes with the same id replace
    /// one another, the last one winning.
    pub fn from_parts(nodes: Vec<Node>, edges: Vec<Edge>) -> (r: Result<MemoryGraph, GraphError>)
        ensures
            r matches Ok(g) && g.node_seq() == insert_nodes(Seq::empty(), nodes@) && g.edge_seq()
                == edges@,
    {
        let mut g = MemoryGraph::new();
        let mut i: usize = 0;
        while i < nodes.len()
            invariant
                i <= nodes@.len(),
                g.nodes@ == insert_nodes(Seq::empty(), nodes@.take(i as int)),
                g.edges@ == Seq::<Edge>::empty(),
            decreases nodes@.len() - i,
        {
            assert(nodes@.take(i + 1).drop_last() =~= nodes@.take(i as int));
            g.put_node(nodes[i].clone());
            i = i + 1;
        }
        assert(nodes@.take(nodes@.len() as int) =~= nodes@);
        let mut j: usize = 0;
        while j < edges.len()
            invariant
                j <= edges@.len(),
                g.nodes@ == insert_nodes(Seq::empty(), nodes@),
                g.edges@ == edges@.take(j as int),
            decreases edges@.len() - j,
        {
            assert(edges@.take(j + 1) =~= edges@.take(j as int).push(edges@[j as int]));
            g.add_edge(edges[j].clone());
            j = j + 1;
        }
        assert(edges@.take(edges@.len() as int) =~= edges@);
        Ok(g)
    }

    /// Whether a node with the id exists.
    pub fn node_exists(&self, id: u128) -> (r: Result<bool, GraphError>)
        ensures
            r == Ok::<bool, GraphError>(lookup(self.node_seq(), id) is Some),
    {
        proof {
            lemma_lookup(self.nodes@, id);
        }
        Ok(self.index_of(id).is_some())
    }

    /// The node with the id, if any.
    pub fn get_node(&self, id: u128) -> (r: Result<Option<Node>, GraphError>)
        ensures
            r == Ok::<Option<Node>, GraphError>(lookup(self.node_seq(), id)),
    {
        proof {
            use_type_invariant(self);
            lemma_lookup(self.nodes@, id);
        }
        match self.index_of(id) {
            Some(k) => {
                proof {
                    lemma_lookup_index(self.nodes@, k as int);
                }
                Ok(Some(self.nodes[k].clone()))
            },
            None => Ok(None),
        }
    }

    /// The number of nodes.
    pub fn count_nodes(&self) -> (r: Result<usize, GraphError>)
        ensures
            r == Ok::<usize, GraphError>(self.node_seq().len() as usize),
    {
        Ok(self.nodes.len())
    }

    /// The number of edges.
    pub fn count_edges(&self) -> (r: Result<usize, GraphError>)
        ensures
            r == Ok::<usize, GraphError>(self.edge_seq().len() as usize),
    {
        Ok(self.edges.len())
    }

    fn collect_edges(&self, id: u128, outgoing: bool, out: &mut Vec<Edge>)
        ensures
            outgoing ==> final(out)@ == old(out)@ + out_edges(self.edges@, id),
            !outgoing ==> final(out)@ == old(out)@ + in_edges(self.edges@, id),
    {
        let ghost start = out@;
        let mut i: usize = 0;
        while i < self.edges.len()
            invariant
                i <= self.edges@.len(),
                outgoing ==> out@ == start + out_edges(self.edges@.take(i as int), id),
                !outgoing ==> out@ == start + in_edges(self.edges@.take(i as int), id),
            decreases self.edges@.len() - i,
        {
            assert(self.edges@.take(i + 1).drop_last() =~= self.edges@.take(i as int));
            let e = &self.edges[i];
            if (outgoing && e.source == id) || (!outgoing && e.target == id) {
                out.push(e.clone());
            }
            i = i + 1;
            proof {
                if outgoing {
                    assert(out@ =~= start + out_edges(self.edges@.take(i as int), id));
                } else {
                    assert(out@ =~= start + in_edges(self.edges@.take(i as int), id));
                }
            }
        }
        assert(self.edges@.take(self.edges@.len() as int) =~= self.edges@);
    }

    /// The edges at a node in a direction: outgoing ones first, then
    /// incoming ones, each in insertion order.
    pub fn edges(&self, id: u128, direction: TraverseDirection) -> (r: Result<Vec<Edge>, GraphError>)
        ensures
            r matches Ok(v) && v@ == edges_at(self.edge_seq(), id, direction),
    {
        let mut result: Vec<Edge> = Vec::new();
        if direction.includes_forward() {
            self.collect_edges(id, true, &mut result);
        }
        let ghost mid = result@;
        if direction.includes_backward() {
            self.collect_edges(id, false, &mut result);
        }
        assert(result@ =~= edges_at(self.edges@, id, direction));
        Ok(result)
    }

    /// The nodes one step away: for each edge at the node, in the order of
    /// `edges`, the node at its other end (the target of an outgoing edge,
    /// the source of an incoming one), when a node with that id exists.
    pub fn neighbors(&self, id: u128, direction: TraverseDirection) -> (r: Result<Vec<Node>, GraphError>)
        ensures
            r matches Ok(v) && v@ == neighbors_of(self.node_seq(), self.edge_seq(), id, direction),
    {
        let es = match self.edges(id, direction) {
            Ok(v) => v,
            Err(e) => {
                return Err(e);
            },
        };
        Ok(self.nodes_over_edges(&es, id))
    }

    /// The nodes a traversal moves to from a node in a direction, over the
    /// edges whose relation the filter names (every edge when it is empty).
    fn next_nodes(&self, id: u128, direction: TraverseDirection, filter: &Vec<Relation>) -> (r: Vec<Node>)
        ensures
            r@ == next_nodes(self.node_seq(), self.edge_seq(), id, direction, filter@),
    {
        let es = match self.edges(id, direction) {
            Ok(v) => v,
            Err(_) => Vec::new(),
        };
        let mut kept: Vec<Edge> = Vec::new();
        let mut i: usize = 0;
        while i < es.len()
            invariant
                i <= es@.len(),
                es@ == edges_at(self.edges@, id, direction),
                kept@ == edges_via(es@.take(i as int), filter@),
            decreases es@.len() - i,
        {
            assert(es@.take(i + 1).drop_last() =~= es@.take(i as int));
            if relation_followed(filter, &es[i]) {
                kept.push(es[i].clone());
            }
            i = i + 1;
        }
        assert(es@.take(es@.len() as int) =~= es@);
        self.nodes_over_edges(&kept, id)
    }

    /// For each edge at `id`, the node at its far end, when one exists.
    fn nodes_over_edges(&self, es: &Vec<Edge>, id: u128) -> (r: Vec<Node>)
        ensures
            r@ == nodes_over(self.node_seq(), es@, id),
    {
        proof {
            use_type_invariant(self);
        }
        let mut result: Vec<Node> = Vec::new();
        let mut i: usize = 0;
        while i < es.len()
            invariant
                i <= es@.len(),
                unique_ids(self.nodes@),
                result@ == nodes_over(self.nodes@, es@.take(i as int), id),
            decreases es@.len() - i,
        {
            assert(es@.take(i + 1).drop_last() =~= es@.take(i as int));
            let e = &es[i];
            let target_id = if e.source == id {
                e.target
            } else {
                e.source
            };
            proof {
                lemma_lookup(self.nodes@, target_id);
            }
            match self.index_of(target_id) {
                Some(k) => {
                    proof {
                        lemma_lookup_index(self.nodes@, k as int);
                    }
                    result.push(self.nodes[k].clone());
                },
                None => {},
            }
            i = i + 1;
        }
        assert(es@.take(es@.len() as int) =~= es@);
        result
    }
}

/// Whether a traversal with the given relation filter follows an edge.
fn relation_followed(filter: &Vec<Relation>, e: &Edge) -> (r: bool)
    ensures
        r == follows_relation(filter@, *e),
{
    if filter.len() == 0 {
        return true;
    }
    let mut j: usize = 0;
    while j < filter.len()
        invariant
            j <= filter@.len(),
            forall|t: int| 0 <= t < j ==> (#[trigger] filter@[t])@ != e.relation@,
        decreases filter@.len() - j,
    {
        if filter[j].same_as(&e.relation) {
            return true;
        }
        j = j + 1;
    }
    false
}

impl Default for MemoryGraph {
    fn default() -> (g: MemoryGraph)
        ensures
            g.node_seq() == Seq::<Node>::empty(),
            g.edge_seq() == Seq::<Edge>::empty(),
    {
        MemoryGraph::new()
    }
}

} // verus!

verus! {

/// Nodes found by id in `ns` with distinct ids are no more numerous than `ns`.
pub proof fn lemma_found_within(r: Seq<Node>, ns: Seq<Node>)
    requires
        ids_of(r).no_duplicates(),
        forall|j: int| 0 <= j < r.len() ==> lookup(ns, #[trigger] r[j].id) == Some(r[j]),
    ensures
        r.len() <= ns.len(),
{
    assert forall|j: int| 0 <= j < ids_of(r).len() implies ids_of(ns).contains(#[trigger] ids_of(r)[j]) by {
        lemma_lookup(ns, r[j].id);
        let k = choose|k: int| 0 <= k < ns.len() && ns[k] == r[j];
        assert(ids_of(ns)[k] == r[j].id);
    }
    lemma_distinct_within(ids_of(r), ids_of(ns));
}

/// One followed step from a reached node reaches the node it moves to with
/// one more step.
pub proof fn lemma_reach_step(
    ns: Seq<Node>,
    es: Seq<Edge>,
    dir: TraverseDirection,
    start: u128,
    cur: u128,
    d: nat,
    i: int,
    filter: Seq<Relation>,
)
    requires
        reachable(ns, es, dir, start, cur, d),
        reachable_via(ns, es, dir, filter, start, cur, d),
        0 <= i < next_nodes(ns, es, cur, dir, filter).len(),
    ensures
        reachable(ns, es, dir, start, next_nodes(ns, es, cur, dir, filter)[i].id, d + 1),
        reachable_via(ns, es, dir, filter, start, next_nodes(ns, es, cur, dir, filter)[i].id, d + 1),
{
    let n = next_nodes(ns, es, cur, dir, filter)[i];
    assert(steps_via(ns, es, dir, filter, cur, n.id));
    lemma_nodes_via(ns, edges_at(es, cur, dir), cur, filter);
    let nb = neighbors_of(ns, es, cur, dir);
    assert(nb.contains(n));
    let k = choose|k: int| 0 <= k < nb.len() && nb[k] == n;
    assert(nb[k].id == n.id);
    assert(steps_to(ns, es, dir, cur, n.id));
}

/// The nodes a traversal step collects from a node's neighbors, in order:
/// each one that is neither the start nor collected yet is collected and
/// queued at depth `d`.
pub open spec fn absorb(nb: Seq<Node>, start: u128, result: Seq<Node>, queue: Seq<(u128, usize)>, d: usize) -> (Seq<Node>, Seq<(u128, usize)>)
    decreases nb.len(),
{
    if nb.len() == 0 {
        (result, queue)
    } else {
        let (r, q) = absorb(nb.drop_last(), start, result, queue, d);
        let n = nb.last();
        if n.id == start || ids_of(r).contains(n.id) {
            (r, q)
        } else {
            (r.push(n), q.push((n.id, d)))
        }
    }
}

/// The breadth-first traversal from `start`, from the queue entry at `head`
/// on: the entry's depth becomes the depth reached when it is larger; the
/// walk stops at an entry that lies `max_depth` steps away or once
/// `max_nodes` nodes are collected, and otherwise collects the nodes it
/// moves to from the entry over the edges the filter lets through, and
/// goes on with the next entry. Gives the nodes collected and the depth
/// reached. (A queue can hold no more entries than the graph has nodes,
/// plus the start; past that the walk ends.)
pub open spec fn bfs_steps(
    ns: Seq<Node>,
    es: Seq<Edge>,
    dir: TraverseDirection,
    filter: Seq<Relation>,
    start: u128,
    max_depth: usize,
    max_nodes: usize,
    queue: Seq<(u128, usize)>,
    head: nat,
    result: Seq<Node>,
    depth: usize,
) -> (Seq<Node>, usize)
    decreases ns.len() + 1 - head,
{
    if head >= queue.len() || head > ns.len() {
        (result, depth)
    } else {
        let (cur, cd) = queue[head as int];
        let depth2 = if cd > depth { cd } else { depth };
        if cd >= max_depth || result.len() >= max_nodes {
            (result, depth2)
        } else {
            let (r, q) = absorb(next_nodes(ns, es, cur, dir, filter), start, result, queue, (cd + 1) as usize);
            bfs_steps(ns, es, dir, filter, start, max_depth, max_nodes, q, head + 1, r, depth2)
        }
    }
}

/// The nodes a breadth-first traversal from `start` collects and the depth
/// it reaches: the start first when it is to be included, then the walk
/// from the start at depth 0. The start counts as seen from the outset.
pub open spec fn bfs_walk(
    ns: Seq<Node>,
    es: Seq<Edge>,
    start: u128,
    dir: TraverseDirection,
    filter: Seq<Relation>,
    max_depth: usize,
    max_nodes: usize,
    include_start: bool,
) -> (Seq<Node>, usize) {
    let first = match lookup(ns, start) {
        Some(n) => seq![n],
        None => Seq::<Node>::empty(),
    };
    let init = if include_start { first } else { Seq::<Node>::empty() };
    bfs_steps(ns, es, dir, filter, start, max_depth, max_nodes, seq![(start, 0usize)], 0, init, 0)
}

/// What a breadth-first traversal from `start` gives: an unknown start is
/// refused; otherwise distinct nodes of the graph, each reachable within
/// the depth limit over edges the relation filter lets through, the start
/// first when it is to be included and nowhere
/// when it is not, every node one followed edge away from the start when
/// the limits allow a first step, and no edges; exactly the nodes and depth
/// of the breadth-first walk.
pub open spec fn bfs_outcome(
    ns: Seq<Node>,
    es: Seq<Edge>,
    start: u128,
    config: TraversalConfig,
    r: Result<TraversalResult, GraphError>,
) -> bool {
    &&& lookup(ns, start) is None ==> r == Err::<TraversalResult, GraphError>(GraphError::NodeNotFound(start))
    &&& lookup(ns, start) is Some ==> (r matches Ok(res) && {
        let got = res.nodes@;
        &&& ids_of(got).no_duplicates()
        &&& forall|j: int| 0 <= j < got.len() ==> lookup(ns, #[trigger] got[j].id) == Some(got[j])
        &&& forall|j: int| 0 <= j < got.len() ==> reachable(ns, es, config.direction, start, #[trigger] got[j].id, config.max_depth as nat)
        &&& forall|j: int| 0 <= j < got.len() ==> reachable_via(ns, es, config.direction, config.relation_filter@, start, #[trigger] got[j].id, config.max_depth as nat)
        &&& config.include_start ==> got.len() > 0 && got[0].id == start
        &&& !config.include_start ==> !ids_of(got).contains(start)
        &&& (config.max_depth == 0 || config.max_nodes <= (if config.include_start { 1nat } else { 0nat }))
            ==> got.len() == (if config.include_start { 1nat } else { 0nat })
        &&& (0 < config.max_depth && (if config.include_start { 1nat } else { 0nat }) < config.max_nodes)
            ==> forall|i: int| 0 <= i < next_nodes(ns, es, start, config.direction, config.relation_filter@).len()
                ==> #[trigger] next_nodes(ns, es, start, config.direction, config.relation_filter@)[i].id == start
                    || ids_of(got).contains(next_nodes(ns, es, start, config.direction, config.relation_filter@)[i].id)
        &&& res.depth <= config.max_depth
        &&& (res.nodes@, res.depth) == bfs_walk(
            ns,
            es,
            start,
            config.direction,
            config.relation_filter@,
            config.max_depth,
            config.max_nodes,
            config.include_start,
        )
        &&& res.edges@.len() == 0
        &&& !res.truncated
    })
}

impl MemoryGraph {
    /// Breadth-first traversal from `start`, visiting each node at most once.
    ///
    /// A node is taken from the queue, and the traversal stops as soon as the
    /// node taken lies `max_depth` steps away or `max_nodes` nodes have been
    /// collected; otherwise every neighbor not seen yet is collected and
    /// queued. The start node is collected first when `include_start` is set.
    #[verifier::loop_isolation(false)]
    pub fn bfs(&self, start: u128, config: TraversalConfig) -> (r: Result<TraversalResult, GraphError>)
        ensures
            bfs_outcome(self.node_seq(), self.edge_seq(), start, config, r),
    {
        proof {
            use_type_invariant(self);
            lemma_lookup(self.nodes@, start);
        }
        let ghost ns = self.nodes@;
        let ghost es = self.edges@;
        let ghost dir = config.direction;
        let ghost md = config.max_depth;
        let ghost mx = config.max_nodes;
        let ghost inc = config.include_start;
        let ghost init_len: nat = if inc { 1nat } else { 0nat };
        let ghost off: int = if inc { 0 } else { 1 };
        let ghost filt = config.relation_filter@;
        let ghost nb0 = next_nodes(ns, es, start, dir, filt);
        let ghost first_ok = 0 < md && init_len < mx;

        let start_index = match self.index_of(start) {
            Some(k) => k,
            None => {
                return Err(GraphError::NodeNotFound(start));
            },
        };
        proof {
            lemma_lookup_index(ns, start_index as int);
        }
        let mut visited: HashSet<u128> = HashSet::new();
        let mut queue: Vec<(u128, usize)> = Vec::new();
        let mut result: Vec<Node> = Vec::new();
        let mut depth: usize = 0;
        if config.include_start {
            result.push(self.nodes[start_index].clone());
        }
        visited.insert(start);
        queue.push((start, 0));
        proof {
            assert(ids_of(result@) =~= (if inc { seq![start] } else { Seq::<u128>::empty() }));
            if inc {
                assert(ids_of(result@)[0] == start);
            }
        }
        let mut head: usize = 0;
        let mut stopped = false;
        let ghost target = bfs_walk(ns, es, start, dir, filt, md, mx, inc);
        proof {
            assert(queue@ =~= seq![(start, 0usize)]);
            if inc {
                assert(result@ =~= seq![ns[start_index as int]]);
            } else {
                assert(result@ =~= Seq::<Node>::empty());
            }
        }
        while head < queue.len() && !stopped
            invariant
                !stopped ==> bfs_steps(ns, es, dir, filt, start, md, mx, queue@, head as nat, result@, depth) == target,
                stopped ==> (result@, depth) == target,
                head <= queue@.len(),
                queue@.len() == result@.len() + off,
                queue@.len() >= 1,
                queue@.len() <= ns.len() + 1,
                queue@[0] == (start, 0usize),
                forall|k: int| 1 <= k < queue@.len() ==> (#[trigger] queue@[k]).0 == result@[k - off].id,
                inc ==> result@.len() >= 1 && result@[0] == ns[start_index as int],
                forall|x: u128| visited@.contains(x) <==> (x == start || ids_of(result@).contains(x)),
                !inc ==> !ids_of(result@).contains(start),
                ids_of(result@).no_duplicates(),
                forall|j: int| 0 <= j < result@.len() ==> lookup(ns, #[trigger] result@[j].id) == Some(result@[j]),
                forall|j: int| 0 <= j < result@.len() ==> reachable(ns, es, dir, start, #[trigger] result@[j].id, md as nat),
                forall|j: int| 0 <= j < result@.len() ==> reachable_via(ns, es, dir, filt, start, #[trigger] result@[j].id, md as nat),
                forall|k: int| 0 <= k < queue@.len() ==> (#[trigger] queue@[k]).1 <= md && reachable(ns, es, dir, start, queue@[k].0, queue@[k].1 as nat)
                    && reachable_via(ns, es, dir, filt, start, queue@[k].0, queue@[k].1 as nat),
                depth <= md,
                head == 0 ==> result@.len() == init_len && !stopped,
                stopped ==> head >= 1,
                (md == 0 || mx <= init_len) ==> result@.len() == init_len,
                (head >= 1 && first_ok) ==> forall|i: int| 0 <= i < nb0.len() ==> visited@.contains(#[trigger] nb0[i].id),
            decreases ns.len() + 1 - head,
        {
            let ghost q_before = queue@;
            let ghost r_before = result@;
            let ghost h_before = head as nat;
            let ghost d_before = depth;
            let (cur, cd) = queue[head];
            head = head + 1;
            if cd > depth {
                depth = cd;
            }
            proof {
                assert(h_before <= ns.len());
            }
            if cd >= config.max_depth || result.len() >= config.max_nodes {
                stopped = true;
            } else {
                let nb = self.next_nodes(cur, config.direction, &config.relation_filter);
                proof {
                    lemma_nodes_over(ns, edges_via(edges_at(es, cur, dir), filt), cur);
                }
                let ghost was_first = head == 1;
                let mut i: usize = 0;
                proof {
                    assert(nb@.take(0) =~= Seq::<Node>::empty());
                }
                while i < nb.len()
                    invariant
                        (result@, queue@) == absorb(nb@.take(i as int), start, r_before, q_before, (cd + 1) as usize),
                        0 <= i <= nb@.len(),
                        nb@ == next_nodes(ns, es, cur, dir, filt),
                        cd < md,
                        reachable(ns, es, dir, start, cur, cd as nat),
                        reachable_via(ns, es, dir, filt, start, cur, cd as nat),
                        head >= 1,
                        was_first == (head == 1),
                        head <= queue@.len(),
                        was_first ==> cur == start,
                        queue@.len() == result@.len() + off,
                        queue@.len() >= 1,
                        queue@.len() <= ns.len() + 1,
                        queue@[0] == (start, 0usize),
                        forall|k: int| 1 <= k < queue@.len() ==> (#[trigger] queue@[k]).0 == result@[k - off].id,
                        inc ==> result@.len() >= 1 && result@[0] == ns[start_index as int],
                        forall|x: u128| visited@.contains(x) <==> (x == start || ids_of(result@).contains(x)),
                !inc ==> !ids_of(result@).contains(start),
                        ids_of(result@).no_duplicates(),
                        forall|j: int| 0 <= j < result@.len() ==> lookup(ns, #[trigger] result@[j].id) == Some(result@[j]),
                        forall|j: int| 0 <= j < result@.len() ==> reachable(ns, es, dir, start, #[trigger] result@[j].id, md as nat),
                forall|j: int| 0 <= j < result@.len() ==> reachable_via(ns, es, dir, filt, start, #[trigger] result@[j].id, md as nat),
                        forall|k: int| 0 <= k < queue@.len() ==> (#[trigger] queue@[k]).1 <= md && reachable(ns, es, dir, start, queue@[k].0, queue@[k].1 as nat)
                    && reachable_via(ns, es, dir, filt, start, queue@[k].0, queue@[k].1 as nat),
                        (md == 0 || mx <= init_len) ==> result@.len() == init_len,
                        (head >= 2 && first_ok) ==> forall|t: int| 0 <= t < nb0.len() ==> visited@.contains(#[trigger] nb0[t].id),
                        (was_first && first_ok) ==> forall|t: int| 0 <= t < i ==> visited@.contains(#[trigger] nb0[t].id),
                    decreases nb@.len() - i,
                {
                    let id = nb[i].id;
                    proof {
                        assert(nb@.take(i + 1).drop_last() =~= nb@.take(i as int));
                        assert(nb@.take(i + 1).last() == nb@[i as int]);
                    }
                    if !visited.contains(&id) {
                        let ghost old_ids = ids_of(result@);
                        let ghost old_result = result@;
                        let ghost old_queue = queue@;
                        let ghost old_vis = visited@;
                        visited.insert(id);
                        result.push(nb[i].clone());
                        proof {
                            assert(ids_of(result@) =~= old_ids.push(id));
                            assert forall|a: int, b: int| 0 <= a < b < ids_of(result@).len() implies ids_of(result@)[a] != ids_of(result@)[b] by {
                                if b == old_ids.len() {
                                    assert(old_ids.contains(old_ids[a]));
                                }
                            }
                            lemma_found_within(result@, ns);
                            lemma_reach_step(ns, es, dir, start, cur, cd as nat, i as int, filt);
                            lemma_reachable_mono(ns, es, dir, start, id, (cd + 1) as nat, md as nat);
                            lemma_reachable_via_mono(ns, es, dir, filt, start, id, (cd + 1) as nat, md as nat);
                            assert(!old_ids.contains(id));
                            assert(id != start);
                            assert forall|x: u128| visited@.contains(x) <==> (x == start || ids_of(result@).contains(x)) by {
                                assert(visited@.contains(x) == (old_vis.contains(x) || x == id));
                                assert(old_vis.contains(x) == (x == start || old_ids.contains(x)));
                                if x == id {
                                    assert(ids_of(result@)[old_ids.len() as int] == id);
                                }
                                if old_ids.contains(x) {
                                    let k = choose|k: int| 0 <= k < old_ids.len() && old_ids[k] == x;
                                    assert(ids_of(result@)[k] == x);
                                }
                                if ids_of(result@).contains(x) && x != id {
                                    let k = choose|k: int| 0 <= k < ids_of(result@).len() && ids_of(result@)[k] == x;
                                    assert(old_ids[k] == x);
                                }
                            }
                        }
                        queue.push((id, cd + 1));
                        proof {
                            assert forall|k: int| 1 <= k < queue@.len() implies (#[trigger] queue@[k]).0 == result@[k - off].id by {
                                if k < old_queue.len() {
                                    assert(old_queue[k] == queue@[k]);
                                    assert(old_result[k - off] == result@[k - off]);
                                }
                            }
                        }
                    }
                    i = i + 1;
                }
                proof {
                    assert(nb@.take(nb@.len() as int) =~= nb@);
                }
            }
        }
        proof {
            assert(head >= 1);
        }
        Ok(TraversalResult { nodes: result, edges: Vec::new(), depth, truncated: false })
    }
}

} // verus!

verus! {

/// The nodes a depth-first step collects from a node's neighbors, taken
/// from the last to the first: each one that is neither the start nor
/// collected yet is collected and stacked at depth `d`.
pub open spec fn absorb_rev(nb: Seq<Node>, start: u128, result: Seq<Node>, stack: Seq<(u128, usize)>, d: usize) -> (Seq<Node>, Seq<(u128, usize)>)
    decreases nb.len(),
{
    if nb.len() == 0 {
        (result, stack)
    } else {
        let n = nb.last();
        if n.id == start || ids_of(result).contains(n.id) {
            absorb_rev(nb.drop_last(), start, result, stack, d)
        } else {
            absorb_rev(nb.drop_last(), start, result.push(n), stack.push((n.id, d)), d)
        }
    }
}

/// Depth-first collection never loses nodes, and leaves the stack as it
/// was when it collects none.
pub proof fn lemma_absorb_rev_len(nb: Seq<Node>, start: u128, result: Seq<Node>, stack: Seq<(u128, usize)>, d: usize)
    ensures
        absorb_rev(nb, start, result, stack, d).0.len() >= result.len(),
        absorb_rev(nb, start, result, stack, d).0.len() == result.len() ==> absorb_rev(nb, start, result, stack, d).1 == stack,
    decreases nb.len(),
{
    if nb.len() > 0 {
        let n = nb.last();
        if n.id == start || ids_of(result).contains(n.id) {
            lemma_absorb_rev_len(nb.drop_last(), start, result, stack, d);
        } else {
            lemma_absorb_rev_len(nb.drop_last(), start, result.push(n), stack.push((n.id, d)), d);
        }
    }
}

/// How many more nodes a walk over the graph can still collect, plus one;
/// zero once it holds more nodes than the graph.
pub open spec fn room(ns: Seq<Node>, result: Seq<Node>) -> nat {
    if result.len() <= ns.len() {
        (ns.len() + 1 - result.len()) as nat
    } else {
        0
    }
}

/// The depth-first traversal from `start`, from the given stack on: the top
/// entry is taken off; it is passed over when it lies `max_depth` steps
/// away or `max_nodes` nodes are collected, and otherwise the nodes it
/// moves to over the edges the filter lets through are collected and
/// stacked, the last one first. Gives the nodes collected.
/// (A walk cannot collect more nodes than the graph has; past that it
/// ends.)
pub open spec fn dfs_steps(
    ns: Seq<Node>,
    es: Seq<Edge>,
    dir: TraverseDirection,
    filter: Seq<Relation>,
    start: u128,
    max_depth: usize,
    max_nodes: usize,
    stack: Seq<(u128, usize)>,
    result: Seq<Node>,
) -> Seq<Node>
    decreases room(ns, result), stack.len(),
{
    if stack.len() == 0 || result.len() > ns.len() {
        result
    } else {
        let (cur, d) = stack.last();
        let rest = stack.drop_last();
        if d >= max_depth || result.len() >= max_nodes {
            dfs_steps(ns, es, dir, filter, start, max_depth, max_nodes, rest, result)
        } else {
            let nb = next_nodes(ns, es, cur, dir, filter);
            proof {
                lemma_absorb_rev_len(nb, start, result, rest, (d + 1) as usize);
            }
            let (r, s) = absorb_rev(nb, start, result, rest, (d + 1) as usize);
            dfs_steps(ns, es, dir, filter, start, max_depth, max_nodes, s, r)
        }
    }
}

/// The nodes a depth-first traversal from `start` collects: the start
/// first when it is to be included, then the walk from the start at
/// depth 0. The start counts as seen from the outset.
pub open spec fn dfs_walk(ns: Seq<Node>, es: Seq<Edge>, start: u128, config: TraversalConfig) -> Seq<Node> {
    let first = match lookup(ns, start) {
        Some(n) => seq![n],
        None => Seq::<Node>::empty(),
    };
    let init = if config.include_start { first } else { Seq::<Node>::empty() };
    dfs_steps(ns, es, config.direction, config.relation_filter@, start, config.max_depth, config.max_nodes, seq![(start, 0usize)], init)
}

impl MemoryGraph {
    /// Depth-first traversal from `start`, visiting each node at most once.
    ///
    /// A node is taken from the top of the stack and skipped when it lies
    /// `max_depth` steps away or `max_nodes` nodes have been collected;
    /// otherwise its neighbors not seen yet are collected and stacked, the
    /// last neighbor first. The depth reported is one less than the number of
    /// nodes collected.
    #[verifier::loop_isolation(false)]
    pub fn dfs(&self, start: u128, config: TraversalConfig) -> (r: Result<TraversalResult, GraphError>)
        ensures
            lookup(self.node_seq(), start) is None ==> r == Err::<TraversalResult, GraphError>(
                GraphError::NodeNotFound(start),
            ),
            lookup(self.node_seq(), start) is Some ==> (r matches Ok(res) && {
                let got = res.nodes@;
                &&& ids_of(got).no_duplicates()
                &&& forall|j: int| 0 <= j < got.len() ==> lookup(self.node_seq(), #[trigger] got[j].id)
                    == Some(got[j])
                &&& forall|j: int| 0 <= j < got.len() ==> reachable(self.node_seq(), self.edge_seq(),
                    config.direction, start, #[trigger] got[j].id, config.max_depth as nat)
                &&& forall|j: int| 0 <= j < got.len() ==> reachable_via(self.node_seq(), self.edge_seq(),
                    config.direction, config.relation_filter@, start, #[trigger] got[j].id, config.max_depth as nat)
                &&& config.include_start ==> got.len() > 0 && got[0].id == start
                &&& !config.include_start ==> !ids_of(got).contains(start)
                &&& (config.max_depth == 0 || config.max_nodes <= (if config.include_start { 1nat } else { 0nat }))
                    ==> got.len() == (if config.include_start { 1nat } else { 0nat })
                &&& (0 < config.max_depth && (if config.include_start { 1nat } else { 0nat }) < config.max_nodes)
                    ==> forall|i: int| 0 <= i < next_nodes(self.node_seq(), self.edge_seq(), start, config.direction, config.relation_filter@).len()
                        ==> #[trigger] next_nodes(self.node_seq(), self.edge_seq(), start, config.direction, config.relation_filter@)[i].id == start
                            || ids_of(got).contains(next_nodes(self.node_seq(), self.edge_seq(), start, config.direction, config.relation_filter@)[i].id)
                &&& got == dfs_walk(self.node_seq(), self.edge_seq(), start, config)
                &&& res.depth == (if got.len() > 0 { got.len() - 1 } else { 0 })
                &&& res.edges@.len() == 0
                &&& !res.truncated
            }),
    {
        proof {
            use_type_invariant(self);
            lemma_lookup(self.nodes@, start);
        }
        let ghost ns = self.nodes@;
        let ghost es = self.edges@;
        let ghost dir = config.direction;
        let ghost md = config.max_depth;
        let ghost mx = config.max_nodes;
        let ghost inc = config.include_start;
        let ghost init_len: nat = if inc { 1nat } else { 0nat };
        let ghost filt = config.relation_filter@;
        let ghost nb0 = next_nodes(ns, es, start, dir, filt);
        let ghost first_ok = 0 < md && init_len < mx;

        let start_index = match self.index_of(start) {
            Some(k) => k,
            None => {
                return Err(GraphError::NodeNotFound(start));
            },
        };
        proof {
            lemma_lookup_index(ns, start_index as int);
        }
        let mut visited: HashSet<u128> = HashSet::new();
        let mut result: Vec<Node> = Vec::new();
        if config.include_start {
            result.push(self.nodes[start_index].clone());
        }
        visited.insert(start);
        proof {
            assert(ids_of(result@) =~= (if inc { seq![start] } else { Seq::<u128>::empty() }));
            if inc {
                assert(ids_of(result@)[0] == start);
            }
        }
        let mut stack: Vec<(u128, usize)> = Vec::new();
        stack.push((start, 0));
        let mut popped: usize = 0;
        let ghost target = dfs_walk(ns, es, start, config);
        proof {
            assert(stack@ =~= seq![(start, 0usize)]);
            if inc {
                assert(result@ =~= seq![ns[start_index as int]]);
            } else {
                assert(result@ =~= Seq::<Node>::empty());
            }
        }
        while stack.len() > 0
            invariant
                dfs_steps(ns, es, dir, filt, start, md, mx, stack@, result@) == target,
                result@.len() <= ns.len(),
                inc ==> result@.len() >= 1 && result@[0] == ns[start_index as int],
                forall|x: u128| visited@.contains(x) <==> (x == start || ids_of(result@).contains(x)),
                !inc ==> !ids_of(result@).contains(start),
                ids_of(result@).no_duplicates(),
                forall|j: int| 0 <= j < result@.len() ==> lookup(ns, #[trigger] result@[j].id) == Some(result@[j]),
                forall|j: int| 0 <= j < result@.len() ==> reachable(ns, es, dir, start, #[trigger] result@[j].id, md as nat),
                forall|j: int| 0 <= j < result@.len() ==> reachable_via(ns, es, dir, filt, start, #[trigger] result@[j].id, md as nat),
                forall|k: int| 0 <= k < stack@.len() ==> (#[trigger] stack@[k]).1 <= md && reachable(ns, es, dir, start, stack@[k].0, stack@[k].1 as nat)
                    && reachable_via(ns, es, dir, filt, start, stack@[k].0, stack@[k].1 as nat),
                popped == 0 ==> stack@ == seq![(start, 0usize)] && result@.len() == init_len,
                (md == 0 || mx <= init_len) ==> result@.len() == init_len,
                (popped >= 1 && first_ok) ==> forall|i: int| 0 <= i < nb0.len() ==> visited@.contains(#[trigger] nb0[i].id),
            decreases ns.len() + 1 - result@.len(), stack@.len(),
        {
            let ghost was_first = popped == 0;
            let ghost stack_full = stack@;
            let (cur, d) = match stack.pop() {
                Some(entry) => entry,
                None => {
                    proof {
                        assert(false);
                    }
                    (start, 0)
                },
            };
            if popped < 1 {
                popped = 1;
            }
            if d >= config.max_depth || result.len() >= config.max_nodes {
            } else {
                let nb = self.next_nodes(cur, config.direction, &config.relation_filter);
                proof {
                    lemma_nodes_over(ns, edges_via(edges_at(es, cur, dir), filt), cur);
                }
                let ghost len_before = result@.len();
                let ghost stack_before = stack@.len();
                let ghost pair = absorb_rev(nb@, start, result@, stack@, (d + 1) as usize);
                let mut i: usize = nb.len();
                proof {
                    assert(nb@.take(nb@.len() as int) =~= nb@);
                }
                while i > 0
                    invariant
                        absorb_rev(nb@.take(i as int), start, result@, stack@, (d + 1) as usize) == pair,
                        0 <= i <= nb@.len(),
                        nb@ == next_nodes(ns, es, cur, dir, filt),
                        d < md,
                        reachable(ns, es, dir, start, cur, d as nat),
                        reachable_via(ns, es, dir, filt, start, cur, d as nat),
                        popped >= 1,
                        was_first ==> cur == start,
                        result@.len() >= len_before,
                        result@.len() == len_before ==> stack@.len() == stack_before,
                        result@.len() <= ns.len(),
                        inc ==> result@.len() >= 1 && result@[0] == ns[start_index as int],
                        forall|x: u128| visited@.contains(x) <==> (x == start || ids_of(result@).contains(x)),
                !inc ==> !ids_of(result@).contains(start),
                        ids_of(result@).no_duplicates(),
                        forall|j: int| 0 <= j < result@.len() ==> lookup(ns, #[trigger] result@[j].id) == Some(result@[j]),
                        forall|j: int| 0 <= j < result@.len() ==> reachable(ns, es, dir, start, #[trigger] result@[j].id, md as nat),
                forall|j: int| 0 <= j < result@.len() ==> reachable_via(ns, es, dir, filt, start, #[trigger] result@[j].id, md as nat),
                        forall|k: int| 0 <= k < stack@.len() ==> (#[trigger] stack@[k]).1 <= md && reachable(ns, es, dir, start, stack@[k].0, stack@[k].1 as nat)
                    && reachable_via(ns, es, dir, filt, start, stack@[k].0, stack@[k].1 as nat),
                        (md == 0 || mx <= init_len) ==> result@.len() == init_len,
                        (!was_first && first_ok) ==> forall|t: int| 0 <= t < nb0.len() ==> visited@.contains(#[trigger] nb0[t].id),
                        (was_first && first_ok) ==> forall|t: int| i <= t < nb0.len() ==> visited@.contains(#[trigger] nb0[t].id),
                    decreases i,
                {
                    i = i - 1;
                    let id = nb[i].id;
                    let ghost old_ids = ids_of(result@);
                    let ghost old_vis = visited@;
                    proof {
                        assert(nb@.take(i + 1).drop_last() =~= nb@.take(i as int));
                        assert(nb@.take(i + 1).last() == nb@[i as int]);
                    }
                    if visited.insert(id) {
                        result.push(nb[i].clone());
                        proof {
                            assert(ids_of(result@) =~= old_ids.push(id));
                            assert(!old_ids.contains(id));
                            assert(id != start);
                            assert forall|a: int, b: int| 0 <= a < b < ids_of(result@).len() implies ids_of(result@)[a] != ids_of(result@)[b] by {
                                if b == old_ids.len() {
                                    assert(old_ids.contains(old_ids[a]));
                                }
                            }
                            lemma_found_within(result@, ns);
                            lemma_reach_step(ns, es, dir, start, cur, d as nat, i as int, filt);
                            lemma_reachable_mono(ns, es, dir, start, id, (d + 1) as nat, md as nat);
                            lemma_reachable_via_mono(ns, es, dir, filt, start, id, (d + 1) as nat, md as nat);
                            assert forall|x: u128| visited@.contains(x) <==> (x == start || ids_of(result@).contains(x)) by {
                                assert(visited@.contains(x) == (old_vis.contains(x) || x == id));
                                assert(old_vis.contains(x) == (x == start || old_ids.contains(x)));
                                if x == id {
                                    assert(ids_of(result@)[old_ids.len() as int] == id);
                                }
                                if old_ids.contains(x) {
                                    let k = choose|k: int| 0 <= k < old_ids.len() && old_ids[k] == x;
                                    assert(ids_of(result@)[k] == x);
                                }
                                if ids_of(result@).contains(x) && x != id {
                                    let k = choose|k: int| 0 <= k < ids_of(result@).len() && ids_of(result@)[k] == x;
                                    assert(old_ids[k] == x);
                                }
                            }
                        }
                        stack.push((id, d + 1));
                    }
                }
            }
        }
        let calc_depth = if result.len() > 0 {
            result.len() - 1
        } else {
            0
        };
        Ok(TraversalResult { nodes: result, edges: Vec::new(), depth: calc_depth, truncated: false })
    }
}

} // verus!

verus! {

/// The graph has an edge from `a` to `b`.
pub open spec fn has_edge(es: Seq<Edge>, a: u128, b: u128) -> bool {
    exists|j: int| 0 <= j < es.len() && (#[trigger] es[j]).source == a && es[j].target == b
}

/// Consecutive ids of the walk are joined by edges, followed forward.
pub open spec fn is_walk(es: Seq<Edge>, w: Seq<u128>) -> bool {
    forall|i: int| 0 <= i < w.len() - 1 ==> #[trigger] has_edge(es, w[i], w[i + 1])
}

/// The nodes met along a walk: each id of the walk that names a node.
pub open spec fn walk_nodes(ns: Seq<Node>, w: Seq<u128>) -> Seq<Node>
    decreases w.len(),
{
    if w.len() == 0 {
        Seq::empty()
    } else {
        let rest = walk_nodes(ns, w.drop_last());
        match lookup(ns, w.last()) {
            Some(n) => rest.push(n),
            None => rest,
        }
    }
}

/// The number of hops of a walk: one less than the number of its ids.
pub open spec fn tail_depth(w: Seq<u128>) -> nat {
    if w.len() == 0 { 0 } else { (w.len() - 1) as nat }
}

/// A record of the shortest-path search: an id reached, the index of the
/// record it was reached from, the depth the search gives it, and the node
/// the id names, if any.
pub struct Visit {
    /// The id reached.
    pub id: u128,
    /// Index of the record it was reached from.
    pub parent: usize,
    /// Its depth.
    pub depth: usize,
    /// The node with that id, if any.
    pub node: Option<Node>,
}

/// The ids from the first record to the record at `k`, following parents.
pub open spec fn chain(t: Seq<Visit>, k: int) -> Seq<u128>
    decreases k,
{
    if 0 < k < t.len() && t[k].parent < k {
        chain(t, t[k].parent as int).push(t[k].id)
    } else {
        seq![t[0].id]
    }
}

#[verifier::opaque]
spec fn tree_ok(t: Seq<Visit>, from: u128, ns: Seq<Node>, es: Seq<Edge>) -> bool {
    &&& t.len() >= 1
    &&& t[0].id == from
    &&& t[0].depth == 0
    &&& t[0].node == lookup(ns, from)
    &&& forall|k: int| 1 <= k < t.len() ==> {
        &&& (#[trigger] t[k]).parent < k
        &&& has_edge(es, t[t[k].parent as int].id, t[k].id)
        &&& t[k].depth == t[t[k].parent as int].depth + 1
    }
    &&& forall|k: int| 0 <= k < t.len() ==> (#[trigger] t[k]).node == lookup(ns, t[k].id)
    &&& forall|a: int, b: int| 0 <= a < b < t.len() ==> t[a].id != t[b].id
}

proof fn lemma_chain(t: Seq<Visit>, from: u128, ns: Seq<Node>, es: Seq<Edge>, k: int)
    requires
        tree_ok(t, from, ns, es),
        0 <= k < t.len(),
    ensures
        chain(t, k).len() >= 1,
        chain(t, k)[0] == from,
        chain(t, k).last() == t[k].id,
        is_walk(es, chain(t, k)),
        tail_depth(chain(t, k)) == t[k].depth,
        chain(t, k).no_duplicates(),
        forall|x: int| 0 <= x < chain(t, k).len() ==> exists|j: int| 0 <= j <= k && t[j].id == #[trigger] chain(t, k)[x],
    decreases k,
{
    reveal(tree_ok);
    if k > 0 {
        let p = t[k].parent as int;
        assert(t[k].parent < k);
        lemma_chain(t, from, ns, es, p);
        let c = chain(t, p);
        let w = chain(t, k);
        assert(w == c.push(t[k].id));
        assert(w.drop_last() =~= c);
        assert forall|i: int| 0 <= i < w.len() - 1 implies #[trigger] has_edge(es, w[i], w[i + 1]) by {
            if i < c.len() - 1 {
                assert(has_edge(es, c[i], c[i + 1]));
            } else {
                assert(w[i] == t[p].id);
            }
        }
        assert forall|x: int| 0 <= x < w.len() implies exists|j: int| 0 <= j <= k && t[j].id == #[trigger] w[x] by {
            if x < c.len() {
                let j = choose|j: int| 0 <= j <= p && t[j].id == c[x];
                assert(t[j].id == w[x]);
            } else {
                assert(t[k].id == w[x]);
            }
        }
        assert forall|a: int, b: int| 0 <= a < w.len() && 0 <= b < w.len() && a != b implies w[a] != w[b] by {
            if a < c.len() && b < c.len() {
                assert(c[a] != c[b]);
            } else if a < c.len() {
                let j = choose|j: int| 0 <= j <= p && t[j].id == c[a];
                assert(t[j].id != t[k].id);
            } else {
                let j = choose|j: int| 0 <= j <= p && t[j].id == c[b];
                assert(t[j].id != t[k].id);
            }
        }
    } else {
        assert(chain(t, 0) == seq![from]);
        assert(seq![from].drop_last() =~= Seq::<u128>::empty());
    }
}

impl MemoryGraph {
    fn path_to(&self, visits: &Vec<Visit>, k: usize, from: u128, from_index: usize) -> (path: Vec<Node>)
        requires
            tree_ok(visits@, from, self.nodes@, self.edges@),
            k < visits@.len(),
            from_index < self.nodes@.len(),
            lookup(self.nodes@, from) == Some(self.nodes@[from_index as int]),
        ensures
            path@ == walk_nodes(self.nodes@, chain(visits@, k as int)),
    {
        let ghost ns = self.nodes@;
        let ghost es = self.edges@;
        proof {
            reveal(tree_ok);
        }
        let mut rev: Vec<Node> = Vec::new();
        let mut c: usize = k;
        proof {
            lemma_chain(visits@, from, ns, es, k as int);
        }
        while visits[c].id != from
            invariant
                c < visits@.len(),
                tree_ok(visits@, from, ns, es),
                walk_nodes(ns, chain(visits@, c as int)) + rev@.reverse() == walk_nodes(ns, chain(visits@, k as int)),
            decreases c,
        {
            proof {
                reveal(tree_ok);
                let p = visits@[c as int].parent as int;
                assert(c > 0);
                assert(chain(visits@, c as int) == chain(visits@, p).push(visits@[c as int].id));
                assert(chain(visits@, c as int).drop_last() =~= chain(visits@, p));
            }
            let ghost before = rev@;
            match &visits[c].node {
                Some(n) => {
                    rev.push(n.clone());
                    proof {
                        assert(rev@.reverse() =~= seq![*n] + before.reverse());
                    }
                },
                None => {},
            }
            c = visits[c].parent;
        }
        proof {
            assert(c == 0);
            assert(chain(visits@, 0) == seq![from]);
            assert(seq![from].drop_last() =~= Seq::<u128>::empty());
            assert(walk_nodes(ns, seq![from]) == walk_nodes(ns, seq![from].drop_last()).push(ns[from_index as int]));
            assert(walk_nodes(ns, seq![from].drop_last()) == Seq::<Node>::empty());
        }
        let mut path: Vec<Node> = Vec::new();
        path.push(self.nodes[from_index].clone());
        let mut j: usize = rev.len();
        while j > 0
            invariant
                j <= rev@.len(),
                path@ == seq![ns[from_index as int]] + rev@.reverse().take((rev@.len() - j) as int),
            decreases j,
        {
            j = j - 1;
            let ghost before = path@;
            path.push(rev[j].clone());
            proof {
                assert(rev@.reverse().take((rev@.len() - j) as int) =~= rev@.reverse().take((rev@.len() - j - 1) as int).push(rev@[j as int]));
            }
        }
        proof {
            assert(rev@.reverse().take(rev@.len() as int) =~= rev@.reverse());
            assert(path@ =~= walk_nodes(ns, chain(visits@, k as int)));
        }
        path
    }
}

impl MemoryGraph {
    fn push_visit(
        &self,
        visits: &mut Vec<Visit>,
        seen: &mut HashSet<u128>,
        k: usize,
        target: u128,
        max_depth: usize,
        from: u128,
        Ghost(j): Ghost<int>,
    )
        requires
            tree_ok(old(visits)@, from, self.nodes@, self.edges@),
            unique_ids(self.nodes@),
            k < old(visits)@.len(),
            old(visits)@[k as int].depth < max_depth,
            0 <= j < self.edges@.len(),
            self.edges@[j].source == old(visits)@[k as int].id,
            self.edges@[j].target == target,
            !old(seen)@.contains(target),
            forall|x: u128| old(seen)@.contains(x) <==> exists|m: int| 0 <= m < old(visits)@.len() && (#[trigger] old(visits)@[m]).id == x,
            forall|m: int| 1 <= m < old(visits)@.len() ==> (#[trigger] old(visits)@[m]).depth <= max_depth,
        ensures
            tree_ok(final(visits)@, from, self.nodes@, self.edges@),
            final(visits)@ == old(visits)@.push(visit_of(self.nodes@, old(visits)@, k as int, target)),
            final(visits)@.len() == old(visits)@.len() + 1,
            forall|x: u128| final(seen)@.contains(x) <==> exists|m: int| 0 <= m < final(visits)@.len() && (#[trigger] final(visits)@[m]).id == x,
            forall|m: int| 1 <= m < final(visits)@.len() ==> (#[trigger] final(visits)@[m]).depth <= max_depth,
            forall|m: int| 0 <= m < old(visits)@.len() ==> final(visits)@[m] == old(visits)@[m],
    {
        let ghost ns = self.nodes@;
        let ghost es = self.edges@;
        let ghost old_visits = visits@;
        let ghost old_seen = seen@;
        let d = visits[k].depth;
        seen.insert(target);
        proof {
            lemma_lookup(ns, target);
            reveal(tree_ok);
        }
        let node = match self.index_of(target) {
            Some(t) => {
                proof {
                    lemma_lookup_index(ns, t as int);
                }
                Some(self.nodes[t].clone())
            },
            None => None,
        };
        let nd: usize = d + 1;
        visits.push(Visit { id: target, parent: k, depth: nd, node });
        proof {
            assert(has_edge(es, old_visits[k as int].id, target));
            assert(visits@[k as int] == old_visits[k as int]);
            assert forall|a: int, b: int| 0 <= a < b < visits@.len() implies visits@[a].id != visits@[b].id by {
                if b == old_visits.len() {
                    assert(old_seen.contains(visits@[a].id));
                }
            }
            assert forall|m: int| 1 <= m < visits@.len() implies {
                &&& (#[trigger] visits@[m]).parent < m
                &&& has_edge(es, visits@[visits@[m].parent as int].id, visits@[m].id)
                &&& visits@[m].depth == visits@[visits@[m].parent as int].depth + 1
            } by {
                if m < old_visits.len() {
                    assert(old_visits[m] == visits@[m]);
                    assert(old_visits[old_visits[m].parent as int] == visits@[visits@[m].parent as int]);
                }
            }
            assert forall|x: u128| seen@.contains(x) <==> exists|m: int| 0 <= m < visits@.len() && (#[trigger] visits@[m]).id == x by {
                if x == target {
                    assert(visits@[old_visits.len() as int].id == x);
                }
                if old_seen.contains(x) {
                    let m = choose|m: int| 0 <= m < old_visits.len() && old_visits[m].id == x;
                    assert(visits@[m].id == x);
                }
                if exists|m: int| 0 <= m < visits@.len() && (#[trigger] visits@[m]).id == x {
                    let m = choose|m: int| 0 <= m < visits@.len() && (#[trigger] visits@[m]).id == x;
                    if m < old_visits.len() {
                        assert(old_visits[m].id == x);
                    }
                }
            }
        }
    }

    fn expand_from(&self, visits: &mut Vec<Visit>, seen: &mut HashSet<u128>, k: usize, max_depth: usize, from: u128)
        requires
            tree_ok(old(visits)@, from, self.nodes@, self.edges@),
            unique_ids(self.nodes@),
            k < old(visits)@.len(),
            old(visits)@[k as int].depth < max_depth,
            forall|x: u128| old(seen)@.contains(x) <==> exists|m: int| 0 <= m < old(visits)@.len() && (#[trigger] old(visits)@[m]).id == x,
            forall|m: int| 1 <= m < old(visits)@.len() ==> (#[trigger] old(visits)@[m]).depth <= max_depth,
        ensures
            tree_ok(final(visits)@, from, self.nodes@, self.edges@),
            final(visits)@.len() >= old(visits)@.len(),
            forall|x: u128| final(seen)@.contains(x) <==> exists|m: int| 0 <= m < final(visits)@.len() && (#[trigger] final(visits)@[m]).id == x,
            forall|m: int| 1 <= m < final(visits)@.len() ==> (#[trigger] final(visits)@[m]).depth <= max_depth,
            forall|m: int| 0 <= m < old(visits)@.len() ==> final(visits)@[m] == old(visits)@[m],
            final(visits)@ == sp_expand(self.nodes@, self.edges@, old(visits)@, k as int),
    {
        let ghost orig = visits@;
        let cur = visits[k].id;
        proof {
            assert(self.edges@.take(0) =~= Seq::<Edge>::empty());
        }
        let mut i: usize = 0;
        while i < self.edges.len()
            invariant
                i <= self.edges@.len(),
                k < visits@.len(),
                k < orig.len(),
                orig[k as int].depth < max_depth,
                visits@[k as int] == orig[k as int],
                cur == orig[k as int].id,
                unique_ids(self.nodes@),
                tree_ok(visits@, from, self.nodes@, self.edges@),
                forall|x: u128| seen@.contains(x) <==> exists|m: int| 0 <= m < visits@.len() && (#[trigger] visits@[m]).id == x,
                forall|m: int| 1 <= m < visits@.len() ==> (#[trigger] visits@[m]).depth <= max_depth,
                visits@.len() >= orig.len(),
                forall|m: int| 0 <= m < orig.len() ==> visits@[m] == orig[m],
                visits@ == sp_expand(self.nodes@, self.edges@.take(i as int), orig, k as int),
            decreases self.edges@.len() - i,
        {
            let e = &self.edges[i];
            proof {
                assert(self.edges@.take(i + 1).drop_last() =~= self.edges@.take(i as int));
                assert(self.edges@.take(i + 1).last() == self.edges@[i as int]);
                assert(seen@.contains(e.target) <==> reached(visits@, e.target));
            }
            if e.source == cur && !seen.contains(&e.target) {
                self.push_visit(visits, seen, k, e.target, max_depth, from, Ghost(i as int));
            }
            i = i + 1;
        }
        proof {
            assert(self.edges@.take(self.edges@.len() as int) =~= self.edges@);
        }
    }
}

/// Whether a record of the search holds the id.
pub open spec fn reached(t: Seq<Visit>, x: u128) -> bool {
    exists|m: int| 0 <= m < t.len() && (#[trigger] t[m]).id == x
}

/// The record the search makes for an id reached from the record at `k`:
/// one hop further than the record at `k`.
pub open spec fn visit_of(ns: Seq<Node>, t: Seq<Visit>, k: int, target: u128) -> Visit {
    Visit {
        id: target,
        parent: k as usize,
        depth: (t[k].depth + 1) as usize,
        node: lookup(ns, target),
    }
}

/// The records after the record at `k` is expanded: each edge of `es` in
/// order that leaves the record's id for an id not reached yet adds a
/// record for its target.
pub open spec fn sp_expand(ns: Seq<Node>, es: Seq<Edge>, t: Seq<Visit>, k: int) -> Seq<Visit>
    decreases es.len(),
{
    if es.len() == 0 {
        t
    } else {
        let t1 = sp_expand(ns, es.drop_last(), t, k);
        let e = es.last();
        if e.source == t[k].id && !reached(t1, e.target) {
            t1.push(visit_of(ns, t, k, e.target))
        } else {
            t1
        }
    }
}

/// The search from the record at `head` on: a record holding `to` ends
/// the search with the ids leading to it; any other is expanded when it
/// lies fewer than `max_depth` hops away. `None` when the records run
/// out. (There can be no more records than edges, plus the
/// start; past that the search ends.)
pub open spec fn sp_search(ns: Seq<Node>, es: Seq<Edge>, to: u128, max_depth: usize, t: Seq<Visit>, head: nat) -> Option<Seq<u128>>
    decreases es.len() + 2 - head,
{
    if head >= t.len() || head > es.len() + 1 {
        None
    } else if t[head as int].id == to {
        Some(chain(t, head as int))
    } else if t[head as int].depth < max_depth {
        sp_search(ns, es, to, max_depth, sp_expand(ns, es, t, head as int), head + 1)
    } else {
        sp_search(ns, es, to, max_depth, t, head + 1)
    }
}

/// The walk the shortest-path search finds from `from` to `to`, if any:
/// the search starts from a record for `from`, zero hops away.
pub open spec fn shortest_walk(ns: Seq<Node>, es: Seq<Edge>, from: u128, to: u128, max_depth: usize) -> Option<Seq<u128>> {
    let t0 = seq![Visit { id: from, parent: 0, depth: 0usize, node: lookup(ns, from) }];
    sp_search(ns, es, to, max_depth, t0, 0)
}

/// The search holds no more records than the graph has edges, plus one.
proof fn lemma_visits_bounded(ns: Seq<Node>, es: Seq<Edge>, t: Seq<Visit>, from: u128)
    requires
        tree_ok(t, from, ns, es),
    ensures
        t.len() <= es.len() + 1,
{
    reveal(tree_ok);
    let pool: Seq<u128> = seq![from] + es.map_values(|e: Edge| e.target);
    let vids = t.map_values(|v: Visit| v.id);
    assert forall|a: int| 0 <= a < vids.len() implies pool.contains(#[trigger] vids[a]) by {
        if a == 0 {
            assert(pool[0] == from);
        } else {
            let pa = t[a].parent as int;
            assert(has_edge(es, t[pa].id, t[a].id));
            let jj = choose|jj: int| 0 <= jj < es.len() && (#[trigger] es[jj]).source == t[pa].id && es[jj].target == t[a].id;
            assert(pool[jj + 1] == vids[a]);
        }
    }
    lemma_distinct_within(vids, pool);
}

/// A record for an id not reached yet, one hop from an earlier record over
/// an edge, extends a search tree.
proof fn lemma_tree_push(ns: Seq<Node>, es: Seq<Edge>, t: Seq<Visit>, v: Visit, from: u128)
    requires
        tree_ok(t, from, ns, es),
        v.parent < t.len(),
        has_edge(es, t[v.parent as int].id, v.id),
        v.depth == t[v.parent as int].depth + 1,
        v.node == lookup(ns, v.id),
        !reached(t, v.id),
    ensures
        tree_ok(t.push(v), from, ns, es),
{
    reveal(tree_ok);
    let t2 = t.push(v);
    assert forall|a: int, b: int| 0 <= a < b < t2.len() implies t2[a].id != t2[b].id by {
        if b == t.len() {
            assert(t2[a] == t[a]);
            if t[a].id == v.id {
                assert(reached(t, v.id));
            }
        }
    }
    assert forall|j: int| 1 <= j < t2.len() implies {
        &&& (#[trigger] t2[j]).parent < j
        &&& has_edge(es, t2[t2[j].parent as int].id, t2[j].id)
        &&& t2[j].depth == t2[t2[j].parent as int].depth + 1
    } by {
        if j < t.len() {
            assert(t2[j] == t[j]);
            assert(t2[t[j].parent as int] == t[t[j].parent as int]);
        } else {
            assert(t2[v.parent as int] == t[v.parent as int]);
        }
    }
}

/// Expanding the record at `k` over a prefix of the edges keeps every
/// record, adds records one hop further than it, keeps the records a
/// search tree, and reaches the target of every edge of the prefix that
/// leaves the record's id.
proof fn lemma_sp_expand(ns: Seq<Node>, all: Seq<Edge>, es: Seq<Edge>, t: Seq<Visit>, k: int, from: u128)
    requires
        tree_ok(t, from, ns, all),
        0 <= k < t.len(),
        t[k].depth < usize::MAX,
        k < usize::MAX,
        es.len() <= all.len(),
        es == all.take(es.len() as int),
    ensures
        sp_expand(ns, es, t, k).len() >= t.len(),
        forall|j: int| 0 <= j < t.len() ==> sp_expand(ns, es, t, k)[j] == t[j],
        forall|j: int| t.len() <= j < sp_expand(ns, es, t, k).len() ==> (#[trigger] sp_expand(ns, es, t, k)[j]).depth == t[k].depth + 1,
        tree_ok(sp_expand(ns, es, t, k), from, ns, all),
        forall|j: int| 0 <= j < es.len() && (#[trigger] es[j]).source == t[k].id ==> reached(sp_expand(ns, es, t, k), es[j].target),
    decreases es.len(),
{
    if es.len() > 0 {
        let es1 = es.drop_last();
        assert(es1 == all.take(es1.len() as int));
        lemma_sp_expand(ns, all, es1, t, k, from);
        let t1 = sp_expand(ns, es1, t, k);
        let e = es.last();
        let t2 = sp_expand(ns, es, t, k);
        assert(es[es.len() - 1] == all[es.len() - 1]);
        if e.source == t[k].id && !reached(t1, e.target) {
            let v = visit_of(ns, t, k, e.target);
            assert(t2 == t1.push(v));
            assert(t1[k] == t[k]);
            assert(v.parent as int == k);
            assert(has_edge(all, t1[k].id, e.target)) by {
                assert(all[es.len() - 1].source == t1[k].id && all[es.len() - 1].target == e.target);
            }
            lemma_tree_push(ns, all, t1, v, from);
            assert forall|j: int| t.len() <= j < t2.len() implies (#[trigger] t2[j]).depth == t[k].depth + 1 by {
                if j < t1.len() {
                    assert(t2[j] == t1[j]);
                }
            }
            assert forall|j: int| 0 <= j < es.len() && (#[trigger] es[j]).source == t[k].id implies reached(t2, es[j].target) by {
                if j < es1.len() {
                    assert(es1[j] == es[j]);
                    assert(reached(t1, es[j].target));
                    let m = choose|m: int| 0 <= m < t1.len() && (#[trigger] t1[m]).id == es[j].target;
                    assert(t2[m] == t1[m]);
                } else {
                    assert(t2[t1.len() as int].id == e.target);
                }
            }
        } else {
            assert(t2 == t1);
            assert forall|j: int| 0 <= j < es.len() && (#[trigger] es[j]).source == t[k].id implies reached(t2, es[j].target) by {
                if j < es1.len() {
                    assert(es1[j] == es[j]);
                }
            }
        }
    }
}

/// The state of the shortest-path search before the record at `head` is
/// taken: a search tree whose depths never fall, all within one hop of the
/// record at `head`; no record taken holds `to`; and every edge leaving a
/// record taken below `max_depth` leads to a record at most one hop
/// further.
spec fn search_ready(ns: Seq<Node>, es: Seq<Edge>, to: u128, max_depth: usize, t: Seq<Visit>, head: nat, from: u128) -> bool {
    &&& tree_ok(t, from, ns, es)
    &&& head <= t.len()
    &&& t.len() <= es.len() + 1
    &&& es.len() < usize::MAX
    &&& forall|a: int, b: int| 0 <= a <= b < t.len() ==> (#[trigger] t[a]).depth <= (#[trigger] t[b]).depth
    &&& head < t.len() ==> forall|j: int| 0 <= j < t.len() ==> (#[trigger] t[j]).depth <= t[head as int].depth + 1
    &&& forall|k: int| 0 <= k < head ==> (#[trigger] t[k]).id != to
    &&& forall|k: int, j: int|
        0 <= k < head && 0 <= j < es.len() && (#[trigger] t[k]).depth < max_depth && (#[trigger] es[j]).source == t[k].id
            ==> exists|m: int| 0 <= m < t.len() && (#[trigger] t[m]).id == es[j].target && t[m].depth <= t[k].depth + 1
}

/// Along a walk from the start, each id up to the depth of the record at
/// `head` (and up to `max_depth`) is held by a record no deeper than its
/// place on the walk.
proof fn lemma_walk_reached(
    ns: Seq<Node>,
    es: Seq<Edge>,
    to: u128,
    max_depth: usize,
    t: Seq<Visit>,
    head: nat,
    from: u128,
    w: Seq<u128>,
    n: int,
)
    requires
        search_ready(ns, es, to, max_depth, t, head, from),
        w.len() >= 1,
        w[0] == from,
        is_walk(es, w),
        0 <= n < w.len(),
        n <= max_depth,
        head < t.len() ==> n <= t[head as int].depth,
    ensures
        exists|m: int| 0 <= m < t.len() && (#[trigger] t[m]).id == w[n] && t[m].depth <= n,
    decreases n,
{
    if n == 0 {
        reveal(tree_ok);
        assert(t[0].id == w[0]);
    } else {
        lemma_walk_reached(ns, es, to, max_depth, t, head, from, w, n - 1);
        let m = choose|m: int| 0 <= m < t.len() && (#[trigger] t[m]).id == w[n - 1] && t[m].depth <= n - 1;
        if head < t.len() && m >= head {
            assert(t[head as int].depth <= t[m].depth);
        }
        assert(m < head);
        let i = n - 1;
        assert(has_edge(es, w[i], w[i + 1]));
        let j = choose|j: int| 0 <= j < es.len() && (#[trigger] es[j]).source == w[n - 1] && es[j].target == w[n];
        assert(t[m].depth < max_depth);
        assert(es[j].source == t[m].id);
        let m2 = choose|m2: int| 0 <= m2 < t.len() && (#[trigger] t[m2]).id == es[j].target && t[m2].depth <= t[m].depth + 1;
        assert(t[m2].id == w[n]);
    }
}

/// One step of the search keeps it ready.
proof fn lemma_search_step(ns: Seq<Node>, es: Seq<Edge>, to: u128, max_depth: usize, t: Seq<Visit>, head: nat, from: u128)
    requires
        search_ready(ns, es, to, max_depth, t, head, from),
        head < t.len(),
        t[head as int].id != to,
    ensures
        t[head as int].depth < max_depth ==> search_ready(ns, es, to, max_depth, sp_expand(ns, es, t, head as int), head + 1, from),
        t[head as int].depth >= max_depth ==> search_ready(ns, es, to, max_depth, t, head + 1, from),
{
    let h = head as int;
    if t[h].depth < max_depth {
        assert(es == es.take(es.len() as int));
        lemma_sp_expand(ns, es, es, t, h, from);
        let t2 = sp_expand(ns, es, t, h);
        lemma_visits_bounded(ns, es, t2, from);
        assert forall|a: int, b: int| 0 <= a <= b < t2.len() implies (#[trigger] t2[a]).depth <= (#[trigger] t2[b]).depth by {
            if b < t.len() {
                assert(t2[a] == t[a] && t2[b] == t[b]);
            } else if a < t.len() {
                assert(t2[a] == t[a]);
                assert(t[a].depth <= t[h].depth + 1);
            }
        }
        if head + 1 < t2.len() {
            assert forall|j: int| 0 <= j < t2.len() implies (#[trigger] t2[j]).depth <= t2[h + 1].depth + 1 by {
                assert(t2[h] == t[h]);
                assert(t2[h].depth <= t2[h + 1].depth);
                if j < t.len() {
                    assert(t2[j] == t[j]);
                    assert(t[j].depth <= t[h].depth + 1);
                }
            }
        }
        assert forall|k: int| 0 <= k < head + 1 implies (#[trigger] t2[k]).id != to by {
            assert(t2[k] == t[k]);
        }
        assert forall|k: int, j: int|
            0 <= k < head + 1 && 0 <= j < es.len() && (#[trigger] t2[k]).depth < max_depth && (#[trigger] es[j]).source == t2[k].id
            implies exists|m: int| 0 <= m < t2.len() && (#[trigger] t2[m]).id == es[j].target && t2[m].depth <= t2[k].depth + 1 by {
            assert(t2[k] == t[k]);
            if k < head {
                let m = choose|m: int| 0 <= m < t.len() && (#[trigger] t[m]).id == es[j].target && t[m].depth <= t[k].depth + 1;
                assert(t2[m] == t[m]);
            } else {
                assert(reached(t2, es[j].target));
                let m = choose|m: int| 0 <= m < t2.len() && (#[trigger] t2[m]).id == es[j].target;
                if m < t.len() {
                    assert(t2[m] == t[m]);
                    assert(t[m].depth <= t[h].depth + 1);
                }
            }
        }
    } else {
        if head + 1 < t.len() {
            assert forall|j: int| 0 <= j < t.len() implies (#[trigger] t[j]).depth <= t[h + 1].depth + 1 by {
                assert(t[h].depth <= t[h + 1].depth);
            }
        }
    }
}

/// From a ready state, the search finds a walk no longer than any walk of
/// at most `max_depth` hops from the start to `to`.
proof fn lemma_search_finds(ns: Seq<Node>, es: Seq<Edge>, to: u128, max_depth: usize, t: Seq<Visit>, head: nat, from: u128, w: Seq<u128>)
    requires
        search_ready(ns, es, to, max_depth, t, head, from),
        w.len() >= 1,
        w[0] == from,
        w.last() == to,
        is_walk(es, w),
        tail_depth(w) <= max_depth,
    ensures
        sp_search(ns, es, to, max_depth, t, head) matches Some(c) && tail_depth(c) <= tail_depth(w),
    decreases es.len() + 2 - head,
{
    let n = w.len() - 1;
    if head >= t.len() {
        lemma_walk_reached(ns, es, to, max_depth, t, head, from, w, n);
        assert(false);
    } else {
        let h = head as int;
        if t[h].id == to {
            reveal(tree_ok);
            lemma_chain(t, from, ns, es, h);
            if t[h].depth > n {
                lemma_walk_reached(ns, es, to, max_depth, t, head, from, w, n);
                let m = choose|m: int| 0 <= m < t.len() && (#[trigger] t[m]).id == w[n] && t[m].depth <= n;
                assert(m == h);
            }
        } else {
            lemma_search_step(ns, es, to, max_depth, t, head, from);
            if t[h].depth < max_depth {
                lemma_search_finds(ns, es, to, max_depth, sp_expand(ns, es, t, h), head + 1, from, w);
            } else {
                lemma_search_finds(ns, es, to, max_depth, t, head + 1, from, w);
            }
        }
    }
}

/// A shortest-path search finds a walk whenever a walk of at most
/// `max_depth` hops leads from its first id to its last, and the walk it
/// finds has no more hops than that one: the path found is a shortest one.
/// (Stated for graphs whose number of edges fits in a machine word.)
pub proof fn law_shortest_walk_minimal(ns: Seq<Node>, es: Seq<Edge>, w: Seq<u128>, max_depth: usize)
    requires
        w.len() >= 1,
        is_walk(es, w),
        tail_depth(w) <= max_depth,
        es.len() < usize::MAX,
    ensures
        shortest_walk(ns, es, w[0], w.last(), max_depth) matches Some(c) && tail_depth(c) <= tail_depth(w),
{
    let from = w[0];
    let t0 = seq![Visit { id: from, parent: 0, depth: 0usize, node: lookup(ns, from) }];
    reveal(tree_ok);
    assert(tree_ok(t0, from, ns, es));
    assert(search_ready(ns, es, w.last(), max_depth, t0, 0, from));
    lemma_search_finds(ns, es, w.last(), max_depth, t0, 0, from, w);
}

impl MemoryGraph {
    /// A shortest forward path from `from` to `to`, searched breadth-first
    /// over outgoing edges.
    ///
    /// A path of at most `max_depth` hops is looked for: each reached id is
    /// compared with `to`, and expanded while it lies fewer than
    /// `max_depth` hops from `from`. The path lists the nodes met along the
    /// walk found; ids that name no node are passed over.
    #[verifier::loop_isolation(false)]
    pub fn shortest_path(&self, from: u128, to: u128, max_depth: usize) -> (r: Result<
        Option<Vec<Node>>,
        GraphError,
    >)
        ensures
            r is Ok,
            (lookup(self.node_seq(), from) is None || lookup(self.node_seq(), to) is None) ==> r
                matches Ok(None),
            r matches Ok(Some(p)) ==> exists|w: Seq<u128>|
                {
                    &&& w.len() >= 1
                    &&& w[0] == from
                    &&& w.last() == to
                    &&& is_walk(self.edge_seq(), w)
                    &&& w.no_duplicates()
                    &&& tail_depth(w) <= max_depth
                    &&& p@ == walk_nodes(self.node_seq(), w)
                },
            (lookup(self.node_seq(), from) is Some && from == to)
                ==> (r matches Ok(Some(p)) && p@ == seq![lookup(self.node_seq(), from)->0]),
            (lookup(self.node_seq(), from) is Some && lookup(self.node_seq(), to) is Some) ==> (r matches Ok(o) && match shortest_walk(
                self.node_seq(),
                self.edge_seq(),
                from,
                to,
                max_depth,
            ) {
                Some(w) => o matches Some(p) && p@ == walk_nodes(self.node_seq(), w),
                None => o is None,
            }),
    {
        proof {
            use_type_invariant(self);
            lemma_lookup(self.nodes@, from);
            lemma_lookup(self.nodes@, to);
        }
        let ghost ns = self.nodes@;
        let ghost es = self.edges@;
        let from_index = match self.index_of(from) {
            Some(k) => k,
            None => {
                return Ok(None);
            },
        };
        if self.index_of(to).is_none() {
            return Ok(None);
        }
        proof {
            lemma_lookup_index(ns, from_index as int);
        }
        let mut seen: HashSet<u128> = HashSet::new();
        seen.insert(from);
        let mut visits: Vec<Visit> = Vec::new();
        let first_depth: usize = 0;
        visits.push(Visit { id: from, parent: 0, depth: first_depth, node: Some(self.nodes[from_index].clone()) });
        proof {
            reveal(tree_ok);
            assert(seq![from].drop_last() =~= Seq::<u128>::empty());
            assert(seq![from].last() == from);
            assert(tail_depth(seq![from]) == first_depth);
            assert(walk_nodes(ns, seq![from]) == walk_nodes(ns, seq![from].drop_last()).push(ns[from_index as int]));
            assert(walk_nodes(ns, seq![from].drop_last()) == Seq::<Node>::empty());
        }
        let ghost same = from == to;
        let ghost target = shortest_walk(ns, es, from, to, max_depth);
        proof {
            lemma_lookup_index(ns, from_index as int);
            assert(visits@ =~= seq![
                Visit { id: from, parent: 0, depth: 0usize, node: lookup(ns, from) },
            ]);
        }
        let mut head: usize = 0;
        while head < visits.len()
            invariant
                sp_search(ns, es, to, max_depth, visits@, head as nat) == target,
                head <= visits@.len(),
                unique_ids(ns),
                visits@[0].id == from,
                visits@[0].depth == first_depth,
                tail_depth(seq![from]) == first_depth,
                walk_nodes(ns, seq![from]) == seq![ns[from_index as int]],
                lookup(ns, from) == Some(ns[from_index as int]),
                same ==> head == 0,
                tree_ok(visits@, from, ns, es),
                visits@.len() <= es.len() + 1,
                forall|x: u128| seen@.contains(x) <==> exists|k: int| 0 <= k < visits@.len() && (#[trigger] visits@[k]).id == x,
                forall|k: int| 0 <= k < visits@.len() ==> (#[trigger] visits@[k]).depth <= max_depth,
                head == 0 ==> visits@.len() == 1,
            decreases es.len() + 2 - head,
        {
            let k = head;
            head = head + 1;
            let cur = visits[k].id;
            let d = visits[k].depth;
            if cur == to {
                let path = self.path_to(&visits, k, from, from_index);
                proof {
                    lemma_chain(visits@, from, ns, es, k as int);
                    if k == 0 {
                        assert(chain(visits@, 0) == seq![from]);
                    }
                }
                return Ok(Some(path));
            }
            if d < max_depth {
                self.expand_from(&mut visits, &mut seen, k, max_depth, from);
                proof {
                    lemma_visits_bounded(self.nodes@, self.edges@, visits@, from);
                }
            }
        }
        Ok(None)
    }
}

} // verus!
