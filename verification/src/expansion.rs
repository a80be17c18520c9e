//! Neighbor expansion for Graph-RAG context: growing a set of retrieved
//! nodes by walking to their neighbors, breadth-first, within limits on
//! hops, added nodes and total size. Edge weights, fractions between 0 and
//! 1, are kept in thousandths.

use vstd::prelude::*;

verus! {

/// Strategy for selecting nodes during expansion.
#[derive(Debug, Clone, Copy, PartialEq, Eq)]
pub enum ExpansionStrategy {
    /// Unweighted breadth-first: explore all neighbors equally.
    Bfs,
    /// Prioritize by edge weight.
    Weighted,
    /// Expand to specific node types only.
    Typed,
    /// Adjust to the diversity of the current context.
    Adaptive,
}

/// Statistics about an expansion.
#[derive(Debug, Clone, Copy, PartialEq, Eq)]
pub struct ExpansionStats {
    /// Number of seed nodes.
    pub seed_count: usize,
    /// Number of nodes explored.
    pub explored_count: usize,
    /// Number of hops traversed.
    pub hop_count: usize,
    /// Number of edges traversed.
    pub edge_count: usize,
}

/// Configuration for context expansion.
#[derive(Debug, Clone, Copy, PartialEq, Eq)]
pub struct ExpansionConfig {
    /// Maximum number of nodes to add through expansion.
    pub max_expanded_nodes: usize,
    /// Maximum hop distance for expansion.
    pub max_expansion_hops: usize,
    /// Minimum edge weight to traverse, in thousandths.
    pub min_edge_weight: u32,
    /// Whether to expand in both directions.
    pub bidirectional: bool,
    /// Expansion strategy.
    pub strategy: ExpansionStrategy,
}

/// The default expansion settings: at most 10 added nodes, 2 hops, a
/// minimum edge weight of 0.3, both directions, weighted.
pub open spec fn default_expansion() -> ExpansionConfig {
    ExpansionConfig {
        max_expanded_nodes: 10,
        max_expansion_hops: 2,
        min_edge_weight: 300,
        bidirectional: true,
        strategy: ExpansionStrategy::Weighted,
    }
}

impl Default for ExpansionConfig {
    fn default() -> (r: ExpansionConfig)
        ensures
            r == default_expansion(),
    {
        ExpansionConfig {
            max_expanded_nodes: 10,
            max_expansion_hops: 2,
            min_edge_weight: 300,
            bidirectional: true,
            strategy: ExpansionStrategy::Weighted,
        }
    }
}

impl ExpansionConfig {
    /// The default configuration.
    pub fn new() -> (r: ExpansionConfig)
        ensures
            r == default_expansion(),
    {
        ExpansionConfig::default()
    }

    /// Sets the maximum number of added nodes.
    pub fn with_max_nodes(self, max: usize) -> (r: ExpansionConfig)
        ensures
            r == (ExpansionConfig { max_expanded_nodes: max, ..self }),
    {
        ExpansionConfig { max_expanded_nodes: max, ..self }
    }

    /// Sets the maximum hop distance.
    pub fn with_max_hops(self, hops: usize) -> (r: ExpansionConfig)
        ensures
            r == (ExpansionConfig { max_expansion_hops: hops, ..self }),
    {
        ExpansionConfig { max_expansion_hops: hops, ..self }
    }

    /// Sets the minimum edge weight, in thousandths.
    pub fn with_min_weight(self, weight: u32) -> (r: ExpansionConfig)
        ensures
            r == (ExpansionConfig { min_edge_weight: weight, ..self }),
    {
        ExpansionConfig { min_edge_weight: weight, ..self }
    }

    /// Sets the strategy.
    pub fn with_strategy(self, strategy: ExpansionStrategy) -> (r: ExpansionConfig)
        ensures
            r == (ExpansionConfig { strategy, ..self }),
    {
        ExpansionConfig { strategy, ..self }
    }
}

/// The result of an expansion.
#[derive(Debug, Clone, PartialEq, Eq)]
pub struct ExpansionResult {
    /// Ids of the added nodes, in the order they were added.
    pub added_ids: Vec<u128>,
    /// Ids of removed nodes (due to filtering).
    pub removed_ids: Vec<u128>,
    /// The node ids after expansion: the seeds, then the added nodes, cut
    /// to the total allowed.
    pub final_ids: Vec<u128>,
    /// Expansion statistics.
    pub stats: ExpansionStats,
}

/// The state of an expansion walk: the ids seen (seeds first, without
/// repeats), the queue of ids to explore with their hop distances and the
/// position of the next one, the ids added, how many nodes were explored
/// and edges read, and the largest hop distance explored.
pub struct ExpandWalk {
    /// Ids seen.
    pub vis: Seq<u128>,
    /// Ids to explore, with their hop distances.
    pub queue: Seq<(u128, usize)>,
    /// Position of the next entry of the queue.
    pub head: nat,
    /// Ids added.
    pub added: Seq<u128>,
    /// Nodes explored.
    pub explored: nat,
    /// Edges read (counted modulo the size of `usize`).
    pub edges: usize,
    /// Largest hop distance explored.
    pub max_hop: usize,
}

/// A count one higher, wrapping around at the size of `usize`.
pub open spec fn next_count(n: usize) -> usize {
    if n < usize::MAX { (n + 1) as usize } else { 0 }
}

/// The ids without repeats, first occurrences kept, in order.
pub open spec fn distinct_ids(s: Seq<u128>) -> Seq<u128>
    decreases s.len(),
{
    if s.len() == 0 {
        Seq::empty()
    } else {
        let d = distinct_ids(s.drop_last());
        if d.contains(s.last()) { d } else { d.push(s.last()) }
    }
}

/// Reading the neighbors of a node explored at distance `hop`, from
/// position `i` of the reply on: each neighbor counts as an edge read; one
/// whose weight is under the minimum is passed over; one not seen yet is
/// seen and added, and queued at distance `hop + 1` while fewer than
/// `max_expanded_nodes` nodes are added; the reading stops once
/// `max_total` ids are seen.
pub open spec fn take_reply(
    cfg: ExpansionConfig,
    max_total: usize,
    hop: usize,
    reply: Seq<(u128, u32)>,
    i: int,
    w: ExpandWalk,
) -> ExpandWalk
    decreases reply.len() - i,
{
    if i >= reply.len() {
        w
    } else {
        let (nid, weight) = reply[i];
        let edges = next_count(w.edges);
        if weight < cfg.min_edge_weight {
            take_reply(cfg, max_total, hop, reply, i + 1, ExpandWalk { edges, ..w })
        } else {
            let fresh = !w.vis.contains(nid);
            let vis = if fresh { w.vis.push(nid) } else { w.vis };
            let added = if fresh { w.added.push(nid) } else { w.added };
            let queue = if fresh && added.len() < cfg.max_expanded_nodes {
                w.queue.push((nid, (hop + 1) as usize))
            } else {
                w.queue
            };
            let w2 = ExpandWalk { vis, queue, added, edges, ..w };
            if vis.len() >= max_total {
                w2
            } else {
                take_reply(cfg, max_total, hop, reply, i + 1, w2)
            }
        }
    }
}

/// Whether the walk has no queue entry left.
pub open spec fn walk_done(w: ExpandWalk) -> bool {
    w.head >= w.queue.len()
}

/// The walk moved past the queue entries lying `max_expansion_hops` hops
/// away or more, up to the next entry to explore or the end of the queue.
/// (A queue holds at most the seeds and `max_expanded_nodes` more; past
/// that the walk stops.)
pub open spec fn advance(cfg: ExpansionConfig, bound: nat, w: ExpandWalk) -> ExpandWalk
    decreases bound + 1 - w.head,
{
    if w.head >= w.queue.len() || w.head > bound {
        w
    } else if w.queue[w.head as int].1 >= cfg.max_expansion_hops {
        advance(cfg, bound, ExpandWalk { head: w.head + 1, ..w })
    } else {
        w
    }
}

/// Exploring the queue entry at the head with the neighbors the lookup
/// gave for it.
pub open spec fn explore(cfg: ExpansionConfig, max_total: usize, w: ExpandWalk, reply: Seq<(u128, u32)>) -> ExpandWalk {
    let hop = w.queue[w.head as int].1;
    let w1 = ExpandWalk {
        head: w.head + 1,
        explored: w.explored + 1,
        max_hop: if hop > w.max_hop { hop } else { w.max_hop },
        ..w
    };
    take_reply(cfg, max_total, hop, reply, 0, w1)
}

/// The walk at its start: every seed seen and queued at distance zero.
pub open spec fn walk_start(seeds: Seq<u128>) -> ExpandWalk {
    ExpandWalk {
        vis: distinct_ids(seeds),
        queue: seeds.map_values(|id: u128| (id, 0usize)),
        head: 0,
        added: Seq::empty(),
        explored: 0,
        edges: 0,
        max_hop: 0,
    }
}

/// The walk after the lookup gave the replies, one per node explored, in
/// order: each reply is read at the next entry to explore, unless the walk
/// is over.
pub open spec fn run_walk(cfg: ExpansionConfig, max_total: usize, seeds: Seq<u128>, replies: Seq<Seq<(u128, u32)>>) -> ExpandWalk
    decreases replies.len(),
{
    let bound = (seeds.len() + cfg.max_expanded_nodes) as nat;
    if replies.len() == 0 {
        advance(cfg, bound, walk_start(seeds))
    } else {
        let w = run_walk(cfg, max_total, seeds, replies.drop_last());
        if walk_done(w) {
            w
        } else {
            advance(cfg, bound, explore(cfg, max_total, w, replies.last()))
        }
    }
}

/// The node explored next in a walk.
pub open spec fn next_explored(w: ExpandWalk) -> u128 {
    w.queue[w.head as int].0
}

/// The replies as plain values.
pub open spec fn reply_views(outs: Seq<Vec<(u128, u32)>>) -> Seq<Seq<(u128, u32)>> {
    outs.map_values(|v: Vec<(u128, u32)>| v@)
}

/// The first `n` ids, or all of them when there are fewer.
pub open spec fn first_ids(s: Seq<u128>, n: nat) -> Seq<u128> {
    if n < s.len() { s.take(n as int) } else { s }
}

/// The walk an expander is in, read from its parts.
pub open spec fn walk_of(
    vis: Seq<u128>,
    queue: Seq<(u128, usize)>,
    head: nat,
    added: Seq<u128>,
    explored: nat,
    edges: usize,
    max_hop: usize,
) -> ExpandWalk {
    ExpandWalk { vis, queue, head, added, explored, edges, max_hop }
}

fn seen_id(v: &Vec<u128>, x: u128) -> (r: bool)
    ensures
        r == v@.contains(x),
{
    let mut i: usize = 0;
    while i < v.len()
        invariant
            i <= v@.len(),
            forall|j: int| 0 <= j < i ==> v@[j] != x,
        decreases v@.len() - i,
    {
        if v[i] == x {
            return true;
        }
        i = i + 1;
    }
    false
}

/// Neighbor expander for context enhancement.
#[derive(Debug, Clone, Copy, PartialEq, Eq)]
pub struct NeighborExpander {
    /// The expansion settings.
    pub config: ExpansionConfig,
}

impl Default for NeighborExpander {
    fn default() -> (r: NeighborExpander)
        ensures
            r.config == default_expansion(),
    {
        NeighborExpander { config: ExpansionConfig::default() }
    }
}

impl NeighborExpander {
    /// An expander with the given settings.
    pub fn new(config: ExpansionConfig) -> (r: NeighborExpander)
        ensures
            r.config == config,
    {
        NeighborExpander { config }
    }

    /// An expander with the given settings.
    pub fn with_config(config: ExpansionConfig) -> (r: NeighborExpander)
        ensures
            r.config == config,
    {
        NeighborExpander::new(config)
    }

    /// Expands the seeds breadth-first over the neighbors that
    /// `get_neighbors` gives for a node (each with the weight of the edge to
    /// it, in thousandths). The seeds are seen and queued at distance zero;
    /// a queued node `max_expansion_hops` hops away or more is passed over;
    /// any other is explored: each neighbor counts as an edge read, one
    /// whose weight is under the minimum is passed over, one not seen yet is
    /// seen and added, and queued one hop further while fewer than
    /// `max_expanded_nodes` nodes are added; the neighbors of a node stop
    /// being read once `max_total` ids are seen. The final ids are the seeds
    /// and then the added nodes, cut to `max_total`. An error of the lookup
    /// ends the expansion with that error.
    pub fn expand<F, E>(&self, seed_ids: &[u128], get_neighbors: F, max_total: usize) -> (r: Result<ExpansionResult, E>)
        where
            F: Fn(u128) -> Result<Vec<(u128, u32)>, E>,
        requires
            forall|id: u128| get_neighbors.requires((id,)),
        ensures
            r matches Err(e) ==> exists|id: u128| get_neighbors.ensures((id,), Err::<Vec<(u128, u32)>, E>(e)),
            r matches Ok(res) ==> exists|outs: Seq<Vec<(u128, u32)>>|
                #![trigger reply_views(outs)]
                {
                    let w = run_walk(self.config, max_total, seed_ids@, reply_views(outs));
                    &&& walk_done(w)
                    &&& w.explored == outs.len()
                    &&& forall|k: int|
                        0 <= k < outs.len() ==> get_neighbors.ensures(
                            (next_explored(run_walk(self.config, max_total, seed_ids@, #[trigger] reply_views(outs).take(k))),),
                            Ok::<Vec<(u128, u32)>, E>(outs[k]),
                        )
                    &&& res.added_ids@ == w.added
                    &&& res.removed_ids@.len() == 0
                    &&& res.final_ids@ == first_ids(seed_ids@ + w.added, max_total as nat)
                    &&& res.stats == (ExpansionStats {
                        seed_count: seed_ids@.len() as usize,
                        explored_count: w.explored as usize,
                        hop_count: w.max_hop,
                        edge_count: w.edges,
                    })
                },
    {
        let cfg = self.config;
        let ghost seeds = seed_ids@;
        let ghost bound: nat = (seeds.len() + cfg.max_expanded_nodes) as nat;
        let mut vis: Vec<u128> = Vec::new();
        let mut queue: Vec<(u128, usize)> = Vec::new();
        let mut s: usize = 0;
        while s < seed_ids.len()
            invariant
                s <= seeds.len(),
                seeds == seed_ids@,
                vis@ == distinct_ids(seeds.take(s as int)),
                queue@ == seeds.take(s as int).map_values(|id: u128| (id, 0usize)),
            decreases seeds.len() - s,
        {
            let id = seed_ids[s];
            assert(seeds.take(s + 1).drop_last() =~= seeds.take(s as int));
            if !seen_id(&vis, id) {
                vis.push(id);
            }
            queue.push((id, 0));
            s = s + 1;
            assert(queue@ =~= seeds.take(s as int).map_values(|id: u128| (id, 0usize)));
        }
        assert(seeds.take(seeds.len() as int) =~= seeds);
        let mut added: Vec<u128> = Vec::new();
        let mut head: usize = 0;
        let mut explored: usize = 0;
        let mut edge_count: usize = 0;
        let mut max_hop: usize = 0;
        let ghost mut outs: Seq<Vec<(u128, u32)>> = Seq::empty();
        proof {
            assert(walk_of(vis@, queue@, 0, added@, 0, 0, 0) == walk_start(seeds));
            assert(reply_views(outs) =~= Seq::<Seq<(u128, u32)>>::empty());
        }
        while head < queue.len()
            invariant
                seeds == seed_ids@,
                bound == seeds.len() + cfg.max_expanded_nodes,
                cfg == self.config,
                forall|id: u128| get_neighbors.requires((id,)),
                queue@.len() <= bound,
                head <= queue@.len(),
                explored <= head,
                explored == outs.len(),
                advance(cfg, bound, walk_of(vis@, queue@, head as nat, added@, explored as nat, edge_count, max_hop))
                    == run_walk(cfg, max_total, seeds, reply_views(outs)),
                forall|k: int|
                    0 <= k < outs.len() ==> get_neighbors.ensures(
                        (next_explored(run_walk(cfg, max_total, seeds, #[trigger] reply_views(outs).take(k))),),
                        Ok::<Vec<(u128, u32)>, E>(outs[k]),
                    ),
                queue@.len() <= seeds.len() + added@.len(),
            decreases bound - head,
        {
            let (cur, hop) = queue[head];
            if hop >= cfg.max_expansion_hops {
                head = head + 1;
                continue;
            }
            let answer = get_neighbors(cur);
            let ghost given = answer;
            let reply = match answer {
                Ok(v) => v,
                Err(e) => {
                    assert(get_neighbors.ensures((cur,), given));
                    assert(given == Err::<Vec<(u128, u32)>, E>(e));
                    assert(get_neighbors.ensures((cur,), Err::<Vec<(u128, u32)>, E>(e)));
                    let r: Result<ExpansionResult, E> = Err(e);
                    assert(r matches Err(e2) && get_neighbors.ensures((cur,), Err::<Vec<(u128, u32)>, E>(e2)));
                    return r;
                },
            };
            let ghost before = walk_of(vis@, queue@, head as nat, added@, explored as nat, edge_count, max_hop);
            proof {
                assert(given == Ok::<Vec<(u128, u32)>, E>(reply));
                assert(advance(cfg, bound, before) == before);
                let old_outs = outs;
                let new_outs = outs.push(reply);
                assert(reply_views(new_outs).take(outs.len() as int) =~= reply_views(old_outs));
                assert(reply_views(new_outs).drop_last() =~= reply_views(old_outs));
                assert forall|k: int|
                    0 <= k < new_outs.len() implies get_neighbors.ensures(
                        (next_explored(run_walk(cfg, max_total, seeds, #[trigger] reply_views(new_outs).take(k))),),
                        Ok::<Vec<(u128, u32)>, E>(new_outs[k]),
                    ) by {
                    if k < old_outs.len() {
                        assert(reply_views(new_outs).take(k) =~= reply_views(old_outs).take(k));
                        assert(new_outs[k] == old_outs[k]);
                    } else {
                        assert(reply_views(new_outs).take(k) =~= reply_views(old_outs));
                        assert(new_outs[k] == reply);
                    }
                }
                outs = new_outs;
            }
            head = head + 1;
            explored = explored + 1;
            if hop > max_hop {
                max_hop = hop;
            }
            let ghost target = explore(cfg, max_total, before, reply@);
            let mut i: usize = 0;
            while i < reply.len()
                invariant_except_break
                    take_reply(cfg, max_total, hop, reply@, i as int,
                        walk_of(vis@, queue@, head as nat, added@, explored as nat, edge_count, max_hop)) == target,
                invariant
                    i <= reply@.len(),
                    hop < cfg.max_expansion_hops,
                    head <= queue@.len(),
                    seeds == seed_ids@,
                    bound == seeds.len() + cfg.max_expanded_nodes,
                    cfg == self.config,
                    queue@.len() <= seeds.len() + added@.len(),
                    queue@.len() <= bound,
                ensures
                    walk_of(vis@, queue@, head as nat, added@, explored as nat, edge_count, max_hop) == target,
                decreases reply@.len() - i,
            {
                let (nid, weight) = reply[i];
                edge_count = if edge_count < usize::MAX {
                    edge_count + 1
                } else {
                    0
                };
                if weight < cfg.min_edge_weight {
                    i = i + 1;
                    continue;
                }
                if !seen_id(&vis, nid) {
                    vis.push(nid);
                    added.push(nid);
                    if added.len() < cfg.max_expanded_nodes {
                        queue.push((nid, hop + 1));
                    }
                }
                if vis.len() >= max_total {
                    break;
                }
                i = i + 1;
            }
        }
        let ghost fin = walk_of(vis@, queue@, head as nat, added@, explored as nat, edge_count, max_hop);
        proof {
            assert(advance(cfg, bound, fin) == fin);
            assert(fin == run_walk(cfg, max_total, seeds, reply_views(outs)));
            assert(walk_done(fin));
        }
        let mut final_ids: Vec<u128> = Vec::new();
        let ghost all = seeds + added@;
        let mut j: usize = 0;
        while j < seed_ids.len() && final_ids.len() < max_total
            invariant
                all == seeds + added@,
                seeds == seed_ids@,
                j <= seeds.len(),
                final_ids@ == all.take(j as int),
                final_ids@.len() <= max_total,
            decreases seeds.len() - j,
        {
            final_ids.push(seed_ids[j]);
            j = j + 1;
            assert(final_ids@ =~= all.take(j as int));
        }
        let mut a: usize = 0;
        while a < added.len() && final_ids.len() < max_total
            invariant
                all == seeds + added@,
                seeds == seed_ids@,
                a <= added@.len(),
                a > 0 ==> j == seeds.len(),
                j <= seeds.len(),
                final_ids.len() < max_total ==> j == seeds.len(),
                final_ids@ == all.take(j + a),
                final_ids@.len() <= max_total,
            decreases added@.len() - a,
        {
            final_ids.push(added[a]);
            a = a + 1;
            assert(final_ids@ =~= all.take(j + a));
        }
        proof {
            assert(final_ids@.len() == j + a);
            if final_ids@.len() < max_total {
                assert(j == seeds.len());
                assert(a == added@.len());
                assert(all.take(all.len() as int) =~= all);
            } else {
                assert(final_ids@.len() == max_total);
                if max_total == all.len() {
                    assert(all.take(all.len() as int) =~= all);
                }
            }
            assert(final_ids@ == first_ids(all, max_total as nat));
        }
        let stats = ExpansionStats {
            seed_count: seed_ids.len(),
            explored_count: explored,
            hop_count: max_hop,
            edge_count,
        };
        let res = ExpansionResult { added_ids: added, removed_ids: Vec::new(), final_ids, stats };
        proof {
            let w = run_walk(self.config, max_total, seed_ids@, reply_views(outs));
            assert(w == fin);
            assert(res.final_ids@ == first_ids(seed_ids@ + w.added, max_total as nat));
            assert(res.stats == (ExpansionStats {
                seed_count: seed_ids@.len() as usize,
                explored_count: w.explored as usize,
                hop_count: w.max_hop,
                edge_count: w.edges,
            }));
        }
        Ok(res)
    }
}

} // verus!
