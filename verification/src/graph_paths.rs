//! Path-based reasoning over the graph: explanations of how two nodes are
//! related, subgraphs around seed nodes, and path enumeration.

use vstd::prelude::*;
use crate::edge::Edge;
use crate::graph::{GraphError, MemoryGraph, TraverseDirection, TraversalConfig, out_edges, edges_at, lookup, walk_nodes, is_walk, tail_depth, ids_of, reachable, neighbors_of, nodes_over, steps_to, lemma_lookup, shortest_walk, bfs_walk, next_nodes, edges_via, lemma_edges_via_all};
use std::collections::HashSet;
use vstd::std_specs::hash::group_hash_axioms;
use crate::node::Node;
use crate::path::{PathType, ReasoningPath};
use crate::relation::{Relation, RelationModel};
use crate::text::{cuttable, truncate, truncated};

verus! {

/// Every relation of the edges satisfies `p`.
pub open spec fn all_relations(es: Seq<Edge>, p: spec_fn(RelationModel) -> bool) -> bool {
    forall|i: int| 0 <= i < es.len() ==> p(#[trigger] es[i].relation@)
}

/// The kind of reasoning a chain of edges represents: associative when
/// empty; causal, hierarchical or temporal when every relation is of that
/// kind; hybrid otherwise.
pub open spec fn path_type_of(es: Seq<Edge>) -> PathType {
    if es.len() == 0 {
        PathType::Associative
    } else if all_relations(es, |r: RelationModel| r is Causes) {
        PathType::Causal
    } else if all_relations(es, |r: RelationModel| r is IsPartOf || r is IsA) {
        PathType::Hierarchical
    } else if all_relations(es, |r: RelationModel| r is HappenedAfter) {
        PathType::Temporal
    } else {
        PathType::Hybrid
    }
}

/// Classifies a chain of edges by the kind of reasoning it represents.
pub fn classify_path_type(edges: &[Edge]) -> (r: PathType)
    ensures
        r == path_type_of(edges@),
{
    if edges.len() == 0 {
        return PathType::Associative;
    }
    let mut all_causal = true;
    let mut all_hierarchical = true;
    let mut all_temporal = true;
    let mut i: usize = 0;
    while i < edges.len()
        invariant
            i <= edges@.len(),
            all_causal == (forall|j: int| 0 <= j < i ==> (#[trigger] edges@[j]).relation@ is Causes),
            all_hierarchical == (forall|j: int| 0 <= j < i ==> ((#[trigger] edges@[j]).relation@ is IsPartOf
                || edges@[j].relation@ is IsA)),
            all_temporal == (forall|j: int| 0 <= j < i ==> (#[trigger] edges@[j]).relation@ is HappenedAfter),
        decreases edges@.len() - i,
    {
        match &edges[i].relation {
            Relation::Causes => {
                all_hierarchical = false;
                all_temporal = false;
            },
            Relation::IsPartOf | Relation::IsA => {
                all_causal = false;
                all_temporal = false;
            },
            Relation::HappenedAfter => {
                all_causal = false;
                all_hierarchical = false;
            },
            _ => {
                all_causal = false;
                all_hierarchical = false;
                all_temporal = false;
            },
        }
        i = i + 1;
    }
    if all_causal && !all_hierarchical && !all_temporal {
        PathType::Causal
    } else if !all_causal && all_hierarchical && !all_temporal {
        PathType::Hierarchical
    } else if !all_causal && !all_hierarchical && all_temporal {
        PathType::Temporal
    } else {
        proof {
            assert(!(edges@[0].relation@ is Causes && edges@[0].relation@ is HappenedAfter));
        }
        PathType::Hybrid
    }
}

/// The phrase that names a relation in an explanation.
pub open spec fn relation_phrase(r: RelationModel) -> Seq<char> {
    match r {
        RelationModel::IsPartOf => "is part of"@,
        RelationModel::Causes => "causes"@,
        RelationModel::Contradicts => "contradicts"@,
        RelationModel::HappenedAfter => "happened after"@,
        RelationModel::SimilarTo => "is similar to"@,
        RelationModel::IsA => "is a"@,
        RelationModel::LocatedAt => "is located at"@,
        RelationModel::BelongsTo => "belongs to"@,
        RelationModel::Custom(s) => s,
    }
}

fn relation_phrase_of(r: &Relation) -> (s: String)
    ensures
        s@ == relation_phrase(r@),
{
    match r {
        Relation::IsPartOf => String::from_str("is part of"),
        Relation::Causes => String::from_str("causes"),
        Relation::Contradicts => String::from_str("contradicts"),
        Relation::HappenedAfter => String::from_str("happened after"),
        Relation::SimilarTo => String::from_str("is similar to"),
        Relation::IsA => String::from_str("is a"),
        Relation::LocatedAt => String::from_str("is located at"),
        Relation::BelongsTo => String::from_str("belongs to"),
        Relation::Custom(s) => s.clone(),
    }
}

/// The sentence for the hop from node `i` to node `i + 1` over edge `i`.
pub open spec fn hop_text(ns: Seq<Node>, es: Seq<Edge>, i: int) -> Seq<char> {
    truncated(ns[i].content@, 20) + " "@ + relation_phrase(es[i].relation@) + " "@ + truncated(
        ns[i + 1].content@,
        20,
    )
}

/// The sentences of the first `k` hops joined by ", which ".
pub open spec fn hops_text(ns: Seq<Node>, es: Seq<Edge>, k: int) -> Seq<char>
    decreases k,
{
    if k <= 0 {
        Seq::empty()
    } else if k == 1 {
        hop_text(ns, es, 0)
    } else {
        hops_text(ns, es, k - 1) + ", which "@ + hop_text(ns, es, k - 1)
    }
}

/// The number of hops an explanation describes: one per edge that joins
/// two listed nodes.
pub open spec fn hop_count(ns: Seq<Node>, es: Seq<Edge>) -> int {
    if ns.len() == 0 {
        0
    } else if es.len() < ns.len() - 1 {
        es.len() as int
    } else {
        ns.len() - 1
    }
}

/// The natural-language explanation of a path.
pub open spec fn explanation_text(ns: Seq<Node>, es: Seq<Edge>) -> Seq<char> {
    if ns.len() == 0 {
        Seq::empty()
    } else if es.len() == 0 {
        "Single node: "@ + ns[0].content@
    } else {
        hops_text(ns, es, hop_count(ns, es))
    }
}

/// The node contents an explanation cuts can be cut at 20 bytes.
pub open spec fn explainable(ns: Seq<Node>, es: Seq<Edge>) -> bool {
    forall|i: int| 0 <= i <= hop_count(ns, es) && i < ns.len() ==> cuttable(#[trigger] ns[i].content@, 20)
}

/// Explains a path in words: each hop as "A relation B", the node contents
/// cut to 20 bytes, joined by ", which ".
pub fn generate_explanation(nodes: &[Node], edges: &[Edge]) -> (r: String)
    requires
        explainable(nodes@, edges@),
    ensures
        r@ == explanation_text(nodes@, edges@),
{
    if nodes.len() == 0 {
        return String::new();
    }
    if edges.len() == 0 {
        return String::from_str("Single node: ").concat(nodes[0].content.as_str());
    }
    let hops: usize = if edges.len() < nodes.len() - 1 {
        edges.len()
    } else {
        nodes.len() - 1
    };
    let mut out = String::new();
    let mut i: usize = 0;
    while i < hops
        invariant
            i <= hops,
            hops as int == hop_count(nodes@, edges@),
            hops < nodes@.len(),
            hops <= edges@.len(),
            explainable(nodes@, edges@),
            out@ == hops_text(nodes@, edges@, i as int),
        decreases hops - i,
    {
        let a = truncate(nodes[i].content.as_str(), 20);
        let b = truncate(nodes[i + 1].content.as_str(), 20);
        let phrase = relation_phrase_of(&edges[i].relation);
        let hop = String::from_str(a).concat(" ").concat(phrase.as_str()).concat(" ").concat(b);
        if i == 0 {
            out = hop;
        } else {
            out = out.concat(", which ").concat(hop.as_str());
        }
        i = i + 1;
    }
    out
}

/// The first edge of a sequence that ends at `target`.
pub open spec fn first_to(es: Seq<Edge>, target: u128) -> Option<Edge>
    decreases es.len(),
{
    if es.len() == 0 {
        None
    } else if es[0].target == target {
        Some(es[0])
    } else {
        first_to(es.subrange(1, es.len() as int), target)
    }
}

/// The edges found between consecutive nodes of a path: for each pair, the
/// first outgoing edge of the first node that ends at the second, when there
/// is one.
pub open spec fn edges_between(es: Seq<Edge>, ns: Seq<Node>, k: int) -> Seq<Edge>
    decreases k,
{
    if k <= 0 {
        Seq::empty()
    } else {
        let rest = edges_between(es, ns, k - 1);
        match first_to(out_edges(es, ns[k - 1].id), ns[k].id) {
            Some(e) => rest.push(e),
            None => rest,
        }
    }
}

/// Every node of the graph can be cut at 20 bytes for an explanation.
pub open spec fn all_cuttable(ns: Seq<Node>) -> bool {
    forall|i: int| 0 <= i < ns.len() ==> cuttable(#[trigger] ns[i].content@, 20)
}

proof fn lemma_first_to_in(es: Seq<Edge>, target: u128)
    ensures
        first_to(es, target) matches Some(e) ==> es.contains(e),
    decreases es.len(),
{
    if es.len() > 0 && es[0].target != target {
        let rest = es.subrange(1, es.len() as int);
        lemma_first_to_in(rest, target);
        if first_to(rest, target) is Some {
            let e = first_to(rest, target)->0;
            let k = choose|k: int| 0 <= k < rest.len() && rest[k] == e;
            assert(es[k + 1] == e);
        }
    }
}

impl MemoryGraph {
    /// The first outgoing edge of `source` that ends at `target`.
    pub fn get_edge_between(&self, source: u128, target: u128) -> (r: Result<Option<Edge>, GraphError>)
        ensures
            r == Ok::<Option<Edge>, GraphError>(first_to(out_edges(self.edge_seq(), source), target)),
    {
        let es = match self.edges(source, TraverseDirection::Forward) {
            Ok(v) => v,
            Err(e) => {
                return Err(e);
            },
        };
        proof {
            assert(es@ =~= out_edges(self.edge_seq(), source));
        }
        proof {
            assert(es@.subrange(0, es@.len() as int) =~= es@);
        }
        let mut i: usize = 0;
        while i < es.len()
            invariant
                i <= es@.len(),
                es@ == out_edges(self.edge_seq(), source),
                first_to(es@, target) == first_to(es@.subrange(i as int, es@.len() as int), target),
            decreases es@.len() - i,
        {
            let ghost rest = es@.subrange(i as int, es@.len() as int);
            if es[i].target == target {
                let e = es[i].clone();
                proof {
                    assert(rest[0] == es@[i as int]);
                    assert(rest.len() > 0);
                    assert(first_to(rest, target) == Some(rest[0]));
                    assert(e == es@[i as int]);
                }
                return Ok(Some(e));
            }
            proof {
                assert(rest.subrange(1, rest.len() as int) =~= es@.subrange(i + 1, es@.len() as int));
            }
            i = i + 1;
        }
        Ok(None)
    }
}

} // verus!

verus! {

broadcast use group_hash_axioms;

/// Every node met along a walk is a node of the graph.
pub proof fn lemma_walk_nodes_in(ns: Seq<Node>, w: Seq<u128>)
    ensures
        forall|i: int| 0 <= i < walk_nodes(ns, w).len() ==> ns.contains(#[trigger] walk_nodes(ns, w)[i]),
    decreases w.len(),
{
    if w.len() > 0 {
        lemma_walk_nodes_in(ns, w.drop_last());
        lemma_lookup(ns, w.last());
        let rest = walk_nodes(ns, w.drop_last());
        assert forall|i: int| 0 <= i < walk_nodes(ns, w).len() implies ns.contains(#[trigger] walk_nodes(ns, w)[i]) by {
            if i < rest.len() {
                assert(walk_nodes(ns, w)[i] == rest[i]);
            }
        }
    }
}

/// Whether an id belongs to the subgraph around a seed: it is the seed, or
/// a node that a forward breadth-first traversal from the seed (within
/// `radius` steps and 100 nodes, the seed left out) collects.
pub open spec fn around_seed(ns: Seq<Node>, es: Seq<Edge>, seed: u128, radius: usize, x: u128) -> bool {
    x == seed || ids_of(bfs_walk(ns, es, seed, TraverseDirection::Forward, Seq::<Relation>::empty(), radius, 100, false).0).contains(x)
}

/// The ids collected so far are exactly those around the first `i` seeds.
#[verifier::opaque]
pub open spec fn collected_around(ids: Seq<u128>, ns: Seq<Node>, es: Seq<Edge>, seeds: Seq<u128>, i: int, radius: usize) -> bool {
    forall|x: u128| ids.contains(x) <==> exists|j: int| 0 <= j < i && #[trigger] around_seed(ns, es, seeds[j], radius, x)
}

/// The ids are those of `base` and of the first `j` nodes found.
#[verifier::opaque]
pub open spec fn collected_from(ids: Seq<u128>, base: Seq<u128>, found: Seq<Node>, j: int) -> bool {
    forall|x: u128| ids.contains(x) <==> (base.contains(x) || exists|k: int| 0 <= k < j && (#[trigger] found[k]).id == x)
}

proof fn lemma_collect_step(now: Seq<u128>, prev: Seq<u128>, base: Seq<u128>, found: Seq<Node>, j: int)
    requires
        0 <= j < found.len(),
        forall|x: u128| now.contains(x) <==> (prev.contains(x) || x == found[j].id),
        collected_from(prev, base, found, j),
    ensures
        collected_from(now, base, found, j + 1),
{
    reveal(collected_from);
    assert forall|x: u128| now.contains(x) <==> (base.contains(x) || exists|k: int| 0 <= k < j + 1 && (#[trigger] found[k]).id == x) by {
        if exists|k: int| 0 <= k < j + 1 && (#[trigger] found[k]).id == x {
            let k = choose|k: int| 0 <= k < j + 1 && (#[trigger] found[k]).id == x;
            if k < j {
                assert(prev.contains(x));
            }
        }
    }
}

proof fn lemma_seed_step(
    ns: Seq<Node>,
    es: Seq<Edge>,
    seeds: Seq<u128>,
    i: int,
    radius: usize,
    now: Seq<u128>,
    before: Seq<u128>,
    with_seed: Seq<u128>,
    found: Seq<Node>,
)
    requires
        0 <= i < seeds.len(),
        found == bfs_walk(ns, es, seeds[i], TraverseDirection::Forward, Seq::<Relation>::empty(), radius, 100, false).0,
        collected_around(before, ns, es, seeds, i, radius),
        forall|x: u128| with_seed.contains(x) <==> (before.contains(x) || x == seeds[i]),
        collected_from(now, with_seed, found, found.len() as int),
    ensures
        collected_around(now, ns, es, seeds, i + 1, radius),
{
    reveal(collected_around);
    reveal(collected_from);
    let seed = seeds[i];
    assert forall|x: u128| now.contains(x) <==> exists|j: int| 0 <= j < i + 1 && #[trigger] around_seed(ns, es, seeds[j], radius, x) by {
        if now.contains(x) {
            if before.contains(x) {
                let j = choose|j: int| 0 <= j < i && #[trigger] around_seed(ns, es, seeds[j], radius, x);
            } else if x == seed {
                assert(around_seed(ns, es, seeds[i], radius, x));
            } else {
                let k = choose|k: int| 0 <= k < found.len() && (#[trigger] found[k]).id == x;
                assert(ids_of(found)[k] == x);
                assert(around_seed(ns, es, seeds[i], radius, x));
            }
        }
        if exists|j: int| 0 <= j < i + 1 && #[trigger] around_seed(ns, es, seeds[j], radius, x) {
            let j = choose|j: int| 0 <= j < i + 1 && #[trigger] around_seed(ns, es, seeds[j], radius, x);
            if j < i {
                assert(before.contains(x));
            } else if x != seed {
                let k = choose|k: int| 0 <= k < ids_of(found).len() && ids_of(found)[k] == x;
                assert(found[k].id == x);
            }
        }
    }
}

impl MemoryGraph {
    /// Explains how `from` relates to `to`: the nodes of a shortest forward
    /// path, the edge found between each pair of consecutive nodes, the kind
    /// of reasoning these edges represent and a sentence describing them.
    /// The confidence of the explanation (the product of the edge weights)
    /// is computed by the services, which hold the weights.
    #[verifier::loop_isolation(false)]
    pub fn explain_relationship(&self, from: u128, to: u128, max_hops: usize) -> (r: Result<
        Option<ReasoningPath>,
        GraphError,
    >)
        requires
            all_cuttable(self.node_seq()),
        ensures
            r is Ok,
            (lookup(self.node_seq(), from) is None || lookup(self.node_seq(), to) is None) ==> r
                matches Ok(None),
            r matches Ok(Some(rp)) ==> {
                &&& exists|w: Seq<u128>|
                    {
                        &&& w.len() >= 1
                        &&& w[0] == from
                        &&& w.last() == to
                        &&& is_walk(self.edge_seq(), w)
                        &&& w.no_duplicates()
                        &&& tail_depth(w) <= max_hops
                        &&& rp.nodes@ == walk_nodes(self.node_seq(), w)
                    }
                &&& rp.nodes@.len() > 0
                &&& rp.edges@ == edges_between(self.edge_seq(), rp.nodes@, rp.nodes@.len() - 1)
                &&& rp.path_type == path_type_of(rp.edges@)
                &&& rp.explanation@ == explanation_text(rp.nodes@, rp.edges@)
            },
            (lookup(self.node_seq(), from) is Some && from == to)
                ==> (r matches Ok(Some(rp)) && rp.nodes@ == seq![lookup(self.node_seq(), from)->0]),
            (lookup(self.node_seq(), from) is Some && lookup(self.node_seq(), to) is Some) ==> (r matches Ok(o) && match shortest_walk(
                self.node_seq(),
                self.edge_seq(),
                from,
                to,
                max_hops,
            ) {
                Some(w) => o matches Some(rp) && rp.nodes@ == walk_nodes(self.node_seq(), w),
                None => o is None,
            }),
    {
        let found = match self.shortest_path(from, to, max_hops) {
            Ok(p) => p,
            Err(e) => {
                return Err(e);
            },
        };
        let nodes = match found {
            Some(p) => p,
            None => {
                return Ok(None);
            },
        };
        if nodes.len() == 0 {
            return Ok(None);
        }
        let ghost ns = self.node_seq();
        let ghost es = self.edge_seq();
        proof {
            let w = choose|w: Seq<u128>|
                {
                    &&& w.len() >= 1
                    &&& w[0] == from
                    &&& w.last() == to
                    &&& is_walk(es, w)
                    &&& w.no_duplicates()
                    &&& tail_depth(w) <= max_hops
                    &&& nodes@ == walk_nodes(ns, w)
                };
            lemma_walk_nodes_in(ns, w);
        }
        let mut edges: Vec<Edge> = Vec::new();
        let mut i: usize = 0;
        while i + 1 < nodes.len()
            invariant
                i < nodes@.len(),
                edges@ == edges_between(es, nodes@, i as int),
                edges@.len() <= i,
            decreases nodes@.len() - i,
        {
            match self.get_edge_between(nodes[i].id, nodes[i + 1].id) {
                Ok(Some(e)) => {
                    edges.push(e);
                },
                _ => {},
            }
            i = i + 1;
        }
        proof {
            assert forall|k: int| 0 <= k <= hop_count(nodes@, edges@) && k < nodes@.len() implies cuttable(#[trigger] nodes@[k].content@, 20) by {
                assert(ns.contains(nodes@[k]));
                let m = choose|m: int| 0 <= m < ns.len() && ns[m] == nodes@[k];
                assert(cuttable(ns[m].content@, 20));
            }
        }
        let path_type = classify_path_type(edges.as_slice());
        let explanation = generate_explanation(nodes.as_slice(), edges.as_slice());
        Ok(Some(ReasoningPath { nodes, edges, explanation, path_type }))
    }
}

/// A subgraph: nodes and the edges gathered around them.
#[derive(Debug, Clone, PartialEq)]
pub struct SubGraph {
    /// Nodes of the subgraph.
    pub nodes: Vec<Node>,
    /// Edges of the subgraph.
    pub edges: Vec<Edge>,
}

impl SubGraph {
    /// An empty subgraph.
    pub fn new() -> (r: SubGraph)
        ensures
            r.nodes@.len() == 0,
            r.edges@.len() == 0,
    {
        SubGraph { nodes: Vec::new(), edges: Vec::new() }
    }

    /// Whether the subgraph has no node.
    pub fn is_empty(&self) -> (r: bool)
        ensures
            r == (self.nodes@.len() == 0),
    {
        self.nodes.len() == 0
    }

    /// The number of nodes.
    pub fn len(&self) -> (r: usize)
        ensures
            r == self.nodes@.len(),
    {
        self.nodes.len()
    }
}

impl Default for SubGraph {
    fn default() -> (r: SubGraph)
        ensures
            r.nodes@.len() == 0,
            r.edges@.len() == 0,
    {
        SubGraph::new()
    }
}

/// The edges at each seed in both directions, seed after seed.
pub open spec fn edges_around(es: Seq<Edge>, seeds: Seq<u128>) -> Seq<Edge>
    decreases seeds.len(),
{
    if seeds.len() == 0 {
        Seq::empty()
    } else {
        edges_around(es, seeds.drop_last()) + edges_at(es, seeds.last(), TraverseDirection::Both)
    }
}

/// The id is reachable from one of the seeds within `radius` forward steps.
pub open spec fn near_seeds(ns: Seq<Node>, es: Seq<Edge>, seeds: Seq<u128>, id: u128, radius: nat) -> bool {
    exists|i: int| 0 <= i < seeds.len() && reachable(ns, es, TraverseDirection::Forward, #[trigger] seeds[i], id, radius)
}

impl MemoryGraph {
    fn note_id(ids: &mut Vec<u128>, seen: &mut HashSet<u128>, id: u128)
        requires
            old(ids)@.no_duplicates(),
            forall|x: u128| old(seen)@.contains(x) <==> old(ids)@.contains(x),
        ensures
            final(ids)@.no_duplicates(),
            forall|x: u128| final(seen)@.contains(x) <==> final(ids)@.contains(x),
            forall|x: u128| final(ids)@.contains(x) <==> (old(ids)@.contains(x) || x == id),
    {
        if !seen.contains(&id) {
            let ghost before = ids@;
            seen.insert(id);
            ids.push(id);
            proof {
                assert forall|x: u128| ids@.contains(x) <==> (before.contains(x) || x == id) by {
                    if before.contains(x) {
                        let k = choose|k: int| 0 <= k < before.len() && before[k] == x;
                        assert(ids@[k] == x);
                    }
                    if x == id {
                        assert(ids@[before.len() as int] == id);
                    }
                    if ids@.contains(x) && x != id {
                        let k = choose|k: int| 0 <= k < ids@.len() && ids@[k] == x;
                        assert(before[k] == x);
                    }
                }
            }
        }
    }

    /// The subgraph around seed nodes: each seed, the nodes a breadth-first
    /// traversal reaches from it within `radius` forward steps, and the edges
    /// at each seed in both directions. A seed that is not a node of the
    /// graph makes the whole request fail.
    #[verifier::loop_isolation(false)]
    pub fn subgraph(&self, seeds: Vec<u128>, radius: usize) -> (r: Result<SubGraph, GraphError>)
        ensures
            r is Ok <==> (forall|i: int| 0 <= i < seeds@.len() ==> lookup(self.node_seq(), #[trigger] seeds@[i]) is Some),
            r matches Err(e) ==> exists|i: int|
                0 <= i < seeds@.len() && lookup(self.node_seq(), #[trigger] seeds@[i]) is None && e == GraphError::NodeNotFound(seeds@[i])
                    && forall|j: int| 0 <= j < i ==> lookup(self.node_seq(), #[trigger] seeds@[j]) is Some,
            r matches Ok(sg) ==> {
                &&& sg.edges@ == edges_around(self.edge_seq(), seeds@)
                &&& ids_of(sg.nodes@).no_duplicates()
                &&& forall|j: int| 0 <= j < sg.nodes@.len() ==> lookup(self.node_seq(), #[trigger] sg.nodes@[j].id) == Some(sg.nodes@[j])
                &&& forall|i: int| 0 <= i < seeds@.len() ==> ids_of(sg.nodes@).contains(#[trigger] seeds@[i])
                &&& forall|j: int| 0 <= j < sg.nodes@.len() ==> near_seeds(self.node_seq(), self.edge_seq(), seeds@, #[trigger] sg.nodes@[j].id, radius as nat)
                &&& radius > 0 ==> forall|i: int, t: int| 0 <= i < seeds@.len() && 0 <= t < neighbors_of(self.node_seq(), self.edge_seq(), seeds@[i], TraverseDirection::Forward).len()
                    ==> ids_of(sg.nodes@).contains(#[trigger] neighbors_of(self.node_seq(), self.edge_seq(), #[trigger] seeds@[i], TraverseDirection::Forward)[t].id)
                &&& forall|x: u128| ids_of(sg.nodes@).contains(x) <==> exists|i: int|
                    0 <= i < seeds@.len() && #[trigger] around_seed(self.node_seq(), self.edge_seq(), seeds@[i], radius, x)
            },
    {
        let ghost ns = self.node_seq();
        let ghost es = self.edge_seq();
        let ghost fwd = TraverseDirection::Forward;
        let mut ids: Vec<u128> = Vec::new();
        let mut seen: HashSet<u128> = HashSet::new();
        let mut gathered: Vec<Edge> = Vec::new();
        proof {
            reveal(collected_around);
        }
        let mut i: usize = 0;
        while i < seeds.len()
            invariant
                i <= seeds@.len(),
                ids@.no_duplicates(),
                forall|x: u128| seen@.contains(x) <==> ids@.contains(x),
                forall|k: int| 0 <= k < ids@.len() ==> lookup(ns, #[trigger] ids@[k]) is Some,
                forall|k: int| 0 <= k < ids@.len() ==> near_seeds(ns, es, seeds@.take(i as int), #[trigger] ids@[k], radius as nat),
                forall|j: int| 0 <= j < i ==> ids@.contains(#[trigger] seeds@[j]),
                forall|j: int| 0 <= j < i ==> lookup(ns, #[trigger] seeds@[j]) is Some,
                radius > 0 ==> forall|j: int, t: int| 0 <= j < i && 0 <= t < neighbors_of(ns, es, seeds@[j], fwd).len()
                    ==> ids@.contains(#[trigger] neighbors_of(ns, es, #[trigger] seeds@[j], fwd)[t].id),
                gathered@ == edges_around(es, seeds@.take(i as int)),
                collected_around(ids@, ns, es, seeds@, i as int, radius),
            decreases seeds@.len() - i,
        {
            let seed = seeds[i];
            let ghost before = ids@;
            let ghost upto = seeds@.take(i as int + 1);
            proof {
                assert(upto.drop_last() =~= seeds@.take(i as int));
                assert(upto[i as int] == seed);
                assert forall|k: int| 0 <= k < ids@.len() implies near_seeds(ns, es, upto, #[trigger] ids@[k], radius as nat) by {
                    let j = choose|j: int| 0 <= j < i && reachable(ns, es, fwd, #[trigger] seeds@.take(i as int)[j], ids@[k], radius as nat);
                    assert(upto[j] == seeds@.take(i as int)[j]);
                }
            }
            let cfg = TraversalConfig::with_depth(radius);
            proof {
                assert(cfg.relation_filter@ =~= Seq::<Relation>::empty());
                lemma_edges_via_all(edges_at(es, seed, fwd), cfg.relation_filter@);
                assert(next_nodes(ns, es, seed, fwd, cfg.relation_filter@) == neighbors_of(ns, es, seed, fwd));
            }
            let res = match self.bfs(seed, cfg) {
                Ok(res) => res,
                Err(e) => {
                    return Err(e);
                },
            };
            MemoryGraph::note_id(&mut ids, &mut seen, seed);
            proof {
                assert(reachable(ns, es, fwd, seed, seed, radius as nat));
                assert(upto[i as int] == seed);
                assert forall|k: int| 0 <= k < ids@.len() implies lookup(ns, #[trigger] ids@[k]) is Some && near_seeds(ns, es, upto, ids@[k], radius as nat) by {
                    if ids@[k] != seed {
                        assert(before.contains(ids@[k]));
                        let kk = choose|kk: int| 0 <= kk < before.len() && before[kk] == ids@[k];
                        assert(near_seeds(ns, es, upto, before[kk], radius as nat));
                    }
                }
            }
            let found = res.nodes;
            let ghost walked = bfs_walk(ns, es, seed, fwd, Seq::<Relation>::empty(), radius, 100, false).0;
            assert(found@ == walked);
            let ghost with_seed = ids@;
            proof {
                reveal(collected_from);
            }
            let mut j: usize = 0;
            while j < found.len()
                invariant
                    found@ == walked,
                    collected_from(ids@, with_seed, found@, j as int),
                    j <= found@.len(),
                    ids@.no_duplicates(),
                    forall|x: u128| seen@.contains(x) <==> ids@.contains(x),
                    forall|k: int| 0 <= k < ids@.len() ==> lookup(ns, #[trigger] ids@[k]) is Some,
                    forall|k: int| 0 <= k < ids@.len() ==> near_seeds(ns, es, upto, #[trigger] ids@[k], radius as nat),
                    forall|k: int| 0 <= k < found@.len() ==> lookup(ns, #[trigger] found@[k].id) == Some(found@[k]),
                    forall|k: int| 0 <= k < found@.len() ==> reachable(ns, es, fwd, seed, #[trigger] found@[k].id, radius as nat),
                    upto[i as int] == seed,
                    0 <= i < upto.len(),
                    forall|x: u128| before.contains(x) ==> ids@.contains(x),
                    ids@.contains(seed),
                    forall|k: int| 0 <= k < j ==> ids@.contains(#[trigger] found@[k].id),
                decreases found@.len() - j,
            {
                let ghost prev = ids@;
                let id = found[j].id;
                MemoryGraph::note_id(&mut ids, &mut seen, id);
                proof {
                    lemma_collect_step(ids@, prev, with_seed, found@, j as int);
                    lemma_lookup(ns, id);
                    assert forall|k: int| 0 <= k < ids@.len() implies lookup(ns, #[trigger] ids@[k]) is Some && near_seeds(ns, es, upto, ids@[k], radius as nat) by {
                        if ids@[k] == id {
                            assert(reachable(ns, es, fwd, upto[i as int], id, radius as nat));
                        } else {
                            assert(prev.contains(ids@[k]));
                            let kk = choose|kk: int| 0 <= kk < prev.len() && prev[kk] == ids@[k];
                            assert(near_seeds(ns, es, upto, prev[kk], radius as nat));
                            assert(lookup(ns, prev[kk]) is Some);
                        }
                    }
                }
                j = j + 1;
            }
            let around = match self.edges(seed, TraverseDirection::Both) {
                Ok(v) => v,
                Err(e) => {
                    return Err(e);
                },
            };
            let mut more = around;
            gathered.append(&mut more);
            proof {
                lemma_seed_step(ns, es, seeds@, i as int, radius, ids@, before, with_seed, found@);
                assert(ids_of(found@).len() == found@.len());
                assert forall|j2: int| 0 <= j2 <= i implies ids@.contains(#[trigger] seeds@[j2]) by {
                    if j2 < i {
                        assert(before.contains(seeds@[j2]));
                    }
                }
                if radius > 0 {
                    assert forall|j2: int, t: int| 0 <= j2 <= i && 0 <= t < neighbors_of(ns, es, seeds@[j2], fwd).len()
                        implies ids@.contains(#[trigger] neighbors_of(ns, es, #[trigger] seeds@[j2], fwd)[t].id) by {
                        if j2 < i {
                            assert(before.contains(neighbors_of(ns, es, seeds@[j2], fwd)[t].id));
                        } else if neighbors_of(ns, es, seed, fwd)[t].id != seed {
                            assert(ids_of(found@).contains(neighbors_of(ns, es, seed, fwd)[t].id));
                            let kk = choose|kk: int| 0 <= kk < ids_of(found@).len() && ids_of(found@)[kk] == neighbors_of(ns, es, seed, fwd)[t].id;
                            assert(ids@.contains(found@[kk].id));
                        }
                    }
                }
            }
            i = i + 1;
        }
        proof {
            assert(seeds@.take(seeds@.len() as int) =~= seeds@);
        }
        let mut nodes: Vec<Node> = Vec::new();
        let mut k: usize = 0;
        while k < ids.len()
            invariant
                k <= ids@.len(),
                ids@.no_duplicates(),
                forall|m: int| 0 <= m < ids@.len() ==> lookup(ns, #[trigger] ids@[m]) is Some,
                nodes@.len() == k,
                forall|m: int| 0 <= m < k ==> lookup(ns, ids@[m]) == Some(#[trigger] nodes@[m]) && nodes@[m].id == ids@[m],
            decreases ids@.len() - k,
        {
            proof {
                lemma_lookup(ns, ids@[k as int]);
            }
            match self.get_node(ids[k]) {
                Ok(Some(n)) => {
                    nodes.push(n);
                },
                _ => {
                    proof {
                        assert(false);
                    }
                },
            }
            k = k + 1;
        }
        proof {
            reveal(collected_around);
            assert(ids_of(nodes@) =~= ids@);
            assert forall|m: int| 0 <= m < nodes@.len() implies near_seeds(ns, es, seeds@, #[trigger] nodes@[m].id, radius as nat) by {
                assert(near_seeds(ns, es, seeds@, ids@[m], radius as nat));
            }
        }
        Ok(SubGraph { nodes, edges: gathered })
    }
}

} // verus!

verus! {

/// Consecutive ids of the walk are forward neighbors: an outgoing edge joins
/// them and the later one names a node.
pub open spec fn is_forward_walk(ns: Seq<Node>, es: Seq<Edge>, w: Seq<u128>) -> bool {
    forall|i: int| 0 <= i < w.len() - 1 ==> #[trigger] steps_to(ns, es, TraverseDirection::Forward, w[i], w[i + 1])
}

/// A simple forward walk from `start` to `end` of at most `limit` ids.
pub open spec fn simple_walk(ns: Seq<Node>, es: Seq<Edge>, w: Seq<u128>, start: u128, end: u128, limit: nat) -> bool {
    &&& w.len() >= 1
    &&& w[0] == start
    &&& w.last() == end
    &&& w.no_duplicates()
    &&& is_forward_walk(ns, es, w)
    &&& w.len() <= limit
}

/// Each path found lists the nodes along a simple forward walk from
/// `start` to `end` of at most `limit` ids.
pub open spec fn walks_found(ns: Seq<Node>, es: Seq<Edge>, paths: Seq<Vec<Node>>, start: u128, end: u128, limit: nat) -> bool {
    forall|k: int| 0 <= k < paths.len() ==> exists|w: Seq<u128>|
        simple_walk(ns, es, w, start, end, limit) && (#[trigger] paths[k])@ == walk_nodes(ns, w)
}

/// `b` to the power `e`.
pub open spec fn power(b: nat, e: nat) -> nat
    decreases e,
{
    if e == 0 { 1 } else { b * power(b, (e - 1) as nat) }
}

/// A power of a positive base is positive.
pub proof fn lemma_power_pos(b: nat, e: nat)
    requires
        b >= 1,
    ensures
        power(b, e) >= 1,
    decreases e,
{
    if e > 0 {
        lemma_power_pos(b, (e - 1) as nat);
        assert(b * power(b, (e - 1) as nat) >= 1) by (nonlinear_arith)
            requires
                b >= 1,
                power(b, (e - 1) as nat) >= 1,
        ;
    }
}

/// The weight of a partial path of `len` ids in a search over `n` edges
/// that extends paths up to `d` ids: `(n + 1)` to the power of the ids it
/// may still gain, plus one.
pub open spec fn pending_weight(len: nat, n: nat, d: nat) -> nat {
    power(n + 1, if len <= d + 1 { (d + 1 - len) as nat } else { 0 })
}

spec fn pending_total(s: Seq<(u128, Vec<u128>)>, n: nat, d: nat) -> nat
    decreases s.len(),
{
    if s.len() == 0 {
        0
    } else {
        pending_total(s.drop_last(), n, d) + pending_weight(s.last().1@.len(), n, d)
    }
}

/// The entries of the path search as plain values: each entry's current
/// id and the ids of its partial path.
pub open spec fn entries_view(s: Seq<(u128, Vec<u128>)>) -> Seq<(u128, Seq<u128>)> {
    s.map_values(|e: (u128, Vec<u128>)| (e.0, e.1@))
}

/// The total weight of the partial paths waiting in the search.
pub open spec fn weight_total(s: Seq<(u128, Seq<u128>)>, n: nat, d: nat) -> nat
    decreases s.len(),
{
    if s.len() == 0 {
        0
    } else {
        weight_total(s.drop_last(), n, d) + pending_weight(s.last().1.len(), n, d)
    }
}

/// The entries a partial path adds to the search: for each neighbor in
/// order that is not on the path yet, the path extended by it.
pub open spec fn extend_paths(nb: Seq<Node>, path: Seq<u128>, stack: Seq<(u128, Seq<u128>)>) -> Seq<(u128, Seq<u128>)>
    decreases nb.len(),
{
    if nb.len() == 0 {
        stack
    } else {
        let s = extend_paths(nb.drop_last(), path, stack);
        let id = nb.last().id;
        if path.contains(id) {
            s
        } else {
            s.push((id, path.push(id)))
        }
    }
}

/// Extending a path adds at most the weight of one longer path per
/// neighbor.
pub proof fn lemma_extend_weight(nb: Seq<Node>, path: Seq<u128>, stack: Seq<(u128, Seq<u128>)>, n: nat, d: nat)
    ensures
        weight_total(extend_paths(nb, path, stack), n, d) <= weight_total(stack, n, d) + nb.len() * pending_weight(
            path.len() + 1,
            n,
            d,
        ),
    decreases nb.len(),
{
    if nb.len() > 0 {
        lemma_extend_weight(nb.drop_last(), path, stack, n, d);
        let w = pending_weight(path.len() + 1, n, d);
        let k = nb.len();
        assert((k - 1) * w + w == k * w) by (nonlinear_arith);
        let s = extend_paths(nb.drop_last(), path, stack);
        let id = nb.last().id;
        if !path.contains(id) {
            assert(s.push((id, path.push(id))).drop_last() =~= s);
        }
    }
}

/// The search for simple paths to `end`, from the given entries on: the
/// top entry is taken off; a path that reached `end` is reported; one of
/// `max_depth` ids or more is dropped; any other is extended by each
/// forward neighbor not on it. Gives the paths reported, in order.
pub open spec fn path_search(
    ns: Seq<Node>,
    es: Seq<Edge>,
    end: u128,
    max_depth: usize,
    stack: Seq<(u128, Seq<u128>)>,
    found: Seq<Seq<u128>>,
) -> Seq<Seq<u128>>
    decreases weight_total(stack, es.len(), max_depth as nat),
{
    if stack.len() == 0 {
        found
    } else {
        let (cur, path) = stack.last();
        let rest = stack.drop_last();
        proof {
            let d = max_depth as nat;
            lemma_power_pos(es.len() + 1, if path.len() <= d + 1 { (d + 1 - path.len()) as nat } else { 0 });
        }
        if cur == end {
            path_search(ns, es, end, max_depth, rest, found.push(path))
        } else if path.len() >= max_depth {
            path_search(ns, es, end, max_depth, rest, found)
        } else {
            let nb = neighbors_of(ns, es, cur, TraverseDirection::Forward);
            proof {
                let n = es.len();
                let d = max_depth as nat;
                assert(edges_at(es, cur, TraverseDirection::Forward) =~= out_edges(es, cur));
                lemma_out_edges_len(es, cur);
                lemma_nodes_over_len(ns, edges_at(es, cur, TraverseDirection::Forward), cur);
                lemma_extend_weight(nb, path, rest, n, d);
                let child = pending_weight(path.len() + 1, n, d);
                lemma_power_pos(n + 1, (d + 1 - (path.len() + 1)) as nat);
                assert(pending_weight(path.len(), n, d) == (n + 1) * child);
                assert(nb.len() * child <= n * child) by (nonlinear_arith)
                    requires
                        nb.len() <= n,
                ;
                assert(n * child < (n + 1) * child) by (nonlinear_arith)
                    requires
                        child >= 1,
                ;
            }
            path_search(ns, es, end, max_depth, extend_paths(nb, path, rest), found)
        }
    }
}

/// The walks that the search for simple paths from `start` to `end` finds,
/// in the order it reports them.
pub open spec fn all_walks(ns: Seq<Node>, es: Seq<Edge>, start: u128, end: u128, max_depth: usize) -> Seq<Seq<u128>> {
    path_search(ns, es, end, max_depth, seq![(start, seq![start])], Seq::empty())
}

/// A node has no more outgoing edges than the graph has edges.
pub proof fn lemma_out_edges_len(es: Seq<Edge>, id: u128)
    ensures
        out_edges(es, id).len() <= es.len(),
    decreases es.len(),
{
    if es.len() > 0 {
        lemma_out_edges_len(es.drop_last(), id);
    }
}

/// The nodes over some edges are no more than the edges.
pub proof fn lemma_nodes_over_len(ns: Seq<Node>, es: Seq<Edge>, id: u128)
    ensures
        nodes_over(ns, es, id).len() <= es.len(),
    decreases es.len(),
{
    if es.len() > 0 {
        lemma_nodes_over_len(ns, es.drop_last(), id);
    }
}

fn has_id(v: &Vec<u128>, x: u128) -> (r: bool)
    ensures
        r == v@.contains(x),
{
    let mut i: usize = 0;
    while i < v.len()
        invariant
            i <= v@.len(),
            forall|j: int| 0 <= j < i ==> v@[j] != x,
        decreases v@.len() - i,
    {
        if v[i] == x {
            return true;
        }
        i = i + 1;
    }
    false
}

fn extended(v: &Vec<u128>, x: u128) -> (r: Vec<u128>)
    ensures
        r@ == v@.push(x),
{
    let mut r: Vec<u128> = Vec::new();
    let mut i: usize = 0;
    while i < v.len()
        invariant
            i <= v@.len(),
            r@ == v@.take(i as int),
        decreases v@.len() - i,
    {
        r.push(v[i]);
        assert(v@.take(i + 1) =~= v@.take(i as int).push(v@[i as int]));
        i = i + 1;
    }
    assert(v@.take(v@.len() as int) =~= v@);
    r.push(x);
    r
}

impl MemoryGraph {
    fn nodes_along(&self, w: &Vec<u128>) -> (r: Vec<Node>)
        ensures
            r@ == walk_nodes(self.node_seq(), w@),
    {
        let mut r: Vec<Node> = Vec::new();
        let mut i: usize = 0;
        while i < w.len()
            invariant
                i <= w@.len(),
                r@ == walk_nodes(self.node_seq(), w@.take(i as int)),
            decreases w@.len() - i,
        {
            assert(w@.take(i + 1).drop_last() =~= w@.take(i as int));
            match self.get_node(w[i]) {
                Ok(Some(n)) => {
                    r.push(n);
                },
                _ => {},
            }
            i = i + 1;
        }
        assert(w@.take(w@.len() as int) =~= w@);
        r
    }

    /// All simple forward paths from `start` to `end`, found depth-first:
    /// a partial path that reaches `end` is reported and not extended; one
    /// of `max_depth` ids or more is dropped; any other is extended by each
    /// forward neighbor not already on it. Each path lists the nodes along
    /// its ids, passing over ids that name no node.
    #[verifier::loop_isolation(false)]
    pub fn find_all_paths(&self, start: u128, end: u128, max_depth: usize) -> (r: Result<Vec<Vec<Node>>, GraphError>)
        ensures
            r matches Ok(paths) && walks_found(self.node_seq(), self.edge_seq(), paths@, start, end,
                if max_depth >= 1 { max_depth as nat } else { 1nat }),
            r matches Ok(paths) && paths@.len() == all_walks(self.node_seq(), self.edge_seq(), start, end, max_depth).len(),
            r matches Ok(paths) && forall|k: int| 0 <= k < paths@.len() ==> (#[trigger] paths@[k])@ == walk_nodes(
                self.node_seq(),
                all_walks(self.node_seq(), self.edge_seq(), start, end, max_depth)[k],
            ),
    {
        let ghost ns = self.node_seq();
        let ghost es = self.edge_seq();
        let ghost fwd = TraverseDirection::Forward;
        let ghost n: nat = es.len();
        let ghost d: nat = max_depth as nat;
        let ghost limit: nat = if max_depth >= 1 { max_depth as nat } else { 1nat };
        let mut all_paths: Vec<Vec<Node>> = Vec::new();
        let mut stack: Vec<(u128, Vec<u128>)> = Vec::new();
        let mut first: Vec<u128> = Vec::new();
        first.push(start);
        stack.push((start, first));
        let ghost target = all_walks(ns, es, start, end, max_depth);
        let ghost mut found_ids: Seq<Seq<u128>> = Seq::empty();
        proof {
            assert(stack@.drop_last() =~= Seq::<(u128, Vec<u128>)>::empty());
            lemma_power_pos(n + 1, 0);
            assert(entries_view(stack@) =~= seq![(start, seq![start])]);
        }
        while stack.len() > 0
            invariant
                path_search(ns, es, end, max_depth, entries_view(stack@), found_ids) == target,
                all_paths@.len() == found_ids.len(),
                forall|k: int| 0 <= k < all_paths@.len() ==> (#[trigger] all_paths@[k])@ == walk_nodes(ns, found_ids[k]),
                forall|k: int| 0 <= k < stack@.len() ==> simple_walk(ns, es, (#[trigger] stack@[k]).1@, start, stack@[k].0, limit),
                walks_found(ns, es, all_paths@, start, end, limit),
            decreases pending_total(stack@, n, d),
        {
            let ghost before = stack@;
            let (cur, path) = match stack.pop() {
                Some(entry) => entry,
                None => {
                    proof {
                        assert(false);
                    }
                    return Ok(all_paths);
                },
            };
            let ghost rest = stack@;
            let ghost popped_weight = pending_weight(path@.len(), n, d);
            proof {
                assert(entries_view(rest) =~= entries_view(before).drop_last());
                assert(entries_view(before).last() == (cur, path@));
                assert(rest =~= before.drop_last());
                assert(pending_total(before, n, d) == pending_total(rest, n, d) + popped_weight);
                lemma_power_pos(n + 1, if path@.len() <= d + 1 { (d + 1 - path@.len()) as nat } else { 0 });
                assert(simple_walk(ns, es, before[before.len() - 1].1@, start, before[before.len() - 1].0, limit));
            }
            if cur == end {
                let nodes = self.nodes_along(&path);
                let ghost old_paths = all_paths@;
                all_paths.push(nodes);
                proof {
                    found_ids = found_ids.push(path@);
                    assert forall|k: int| 0 <= k < all_paths@.len() implies (#[trigger] all_paths@[k])@ == walk_nodes(ns, found_ids[k]) by {
                        if k < old_paths.len() {
                            assert(all_paths@[k] == old_paths[k]);
                        }
                    }
                    assert forall|k: int| 0 <= k < all_paths@.len() implies exists|w: Seq<u128>|
                        simple_walk(ns, es, w, start, end, limit) && (#[trigger] all_paths@[k])@ == walk_nodes(ns, w) by {
                        if k == all_paths@.len() - 1 {
                            assert(simple_walk(ns, es, path@, start, end, limit));
                            assert(all_paths@[k]@ == walk_nodes(ns, path@));
                        } else {
                            assert(all_paths@[k] == old_paths[k]);
                            assert(exists|w: Seq<u128>| simple_walk(ns, es, w, start, end, limit) && (#[trigger] old_paths[k])@ == walk_nodes(ns, w));
                        }
                    }
                }
                continue;
            }
            if path.len() >= max_depth {
                continue;
            }
            let nb = match self.neighbors(cur, TraverseDirection::Forward) {
                Ok(v) => v,
                Err(e) => {
                    return Err(e);
                },
            };
            proof {
                assert(edges_at(es, cur, fwd) =~= out_edges(es, cur));
                lemma_out_edges_len(es, cur);
                lemma_nodes_over_len(ns, edges_at(es, cur, fwd), cur);
            }
            let ghost child_weight = pending_weight(path@.len() + 1, n, d);
            proof {
                assert(path@.len() < d);
                assert(popped_weight == (n + 1) * child_weight);
            }
            let mut i: usize = 0;
            let ghost mut pushed: nat = 0;
            proof {
                assert(nb@.take(0) =~= Seq::<Node>::empty());
            }
            while i < nb.len()
                invariant
                    entries_view(stack@) == extend_paths(nb@.take(i as int), path@, entries_view(rest)),
                    i <= nb@.len(),
                    nb@ == neighbors_of(ns, es, cur, fwd),
                    nb@.len() <= n,
                    pushed <= i,
                    stack@.len() == rest.len() + pushed,
                    forall|k: int| 0 <= k < rest.len() ==> stack@[k] == rest[k],
                    forall|k: int| rest.len() <= k < stack@.len() ==> (#[trigger] stack@[k]).1@.len() == path@.len() + 1,
                    pending_total(stack@, n, d) == pending_total(rest, n, d) + pushed * child_weight,
                    forall|k: int| 0 <= k < stack@.len() ==> simple_walk(ns, es, (#[trigger] stack@[k]).1@, start, stack@[k].0, limit),
                    simple_walk(ns, es, path@, start, cur, limit),
                    path@.len() < max_depth,
                decreases nb@.len() - i,
            {
                let id = nb[i].id;
                proof {
                    assert(nb@.take(i + 1).drop_last() =~= nb@.take(i as int));
                    assert(nb@.take(i + 1).last() == nb@[i as int]);
                }
                if !has_id(&path, id) {
                    let next = extended(&path, id);
                    let ghost old_stack = stack@;
                    stack.push((id, next));
                    proof {
                        assert(entries_view(stack@) =~= entries_view(old_stack).push((id, path@.push(id))));
                        assert(steps_to(ns, es, fwd, cur, id));
                        assert(stack@.drop_last() =~= old_stack);
                        assert(pending_total(stack@, n, d) == pending_total(old_stack, n, d) + child_weight);
                        assert((pushed + 1) * child_weight == pushed * child_weight + child_weight) by (nonlinear_arith);
                        pushed = pushed + 1;
                        let w = next@;
                        assert(w.drop_last() =~= path@);
                        assert forall|a: int, b: int| 0 <= a < w.len() && 0 <= b < w.len() && a != b implies w[a] != w[b] by {
                            if a < path@.len() && b < path@.len() {
                                assert(path@[a] != path@[b]);
                            } else if a < path@.len() {
                                assert(path@.contains(path@[a]));
                            } else {
                                assert(path@.contains(path@[b]));
                            }
                        }
                        assert forall|j: int| 0 <= j < w.len() - 1 implies #[trigger] steps_to(ns, es, fwd, w[j], w[j + 1]) by {
                            if j < path@.len() - 1 {
                                assert(steps_to(ns, es, fwd, path@[j], path@[j + 1]));
                            }
                        }
                        assert(simple_walk(ns, es, w, start, id, limit));
                    }
                }
                i = i + 1;
            }
            proof {
                assert(nb@.take(nb@.len() as int) =~= nb@);
                assert(pushed * child_weight <= n * child_weight) by (nonlinear_arith)
                    requires pushed <= n;
                lemma_power_pos(n + 1, if path@.len() + 1 <= d + 1 { (d + 1 - (path@.len() + 1)) as nat } else { 0 });
                assert(n * child_weight < (n + 1) * child_weight) by (nonlinear_arith)
                    requires child_weight >= 1;
            }
        }
        Ok(all_paths)
    }

    /// All simple forward paths from `start` to `end`; the same search as
    /// `find_all_paths`.
    pub fn find_simple_paths(&self, start: u128, end: u128, max_depth: usize) -> (r: Result<Vec<Vec<Node>>, GraphError>)
        ensures
            r matches Ok(paths) && walks_found(self.node_seq(), self.edge_seq(), paths@, start, end,
                if max_depth >= 1 { max_depth as nat } else { 1nat }),
            r matches Ok(paths) && paths@.len() == all_walks(self.node_seq(), self.edge_seq(), start, end, max_depth).len(),
            r matches Ok(paths) && forall|k: int| 0 <= k < paths@.len() ==> (#[trigger] paths@[k])@ == walk_nodes(
                self.node_seq(),
                all_walks(self.node_seq(), self.edge_seq(), start, end, max_depth)[k],
            ),
    {
        self.find_all_paths(start, end, max_depth)
    }
}

} // verus!
