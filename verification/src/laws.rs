//! Properties that hold across the operations of the library.

use vstd::prelude::*;
use crate::api_models::{TraverseDirection, from_graph_direction, to_graph_direction};
use crate::graph;
use crate::graph::{lookup, unique_ids, lemma_lookup, lemma_lookup_index};
use crate::service::{bulk_outcome, edge_failures, made_edge_ids, remove_node};
use crate::api_models::{AddEdgeRequest, BulkOperationRequest, BulkOperationResponse};
use crate::node::Node;
use crate::node_type::{NodeType, node_type_name, node_type_named};
use crate::relation::{RelationModel, relation_from_name, relation_name, reverse_relation};
use crate::semantic::group_cuts;
use crate::fixed::fixed_plan;
use crate::span::SpanKind;
use crate::trace_query::{QueryFilter, SpanFacts, Instant, admits, kinds_agree};
use crate::strategy::{is_terminator, keep, paragraphs, paragraphs_from, sentences, sentences_from};
use crate::summary::{SummaryLevel, levels_from, summary_rank};
use crate::text::{is_white, lemma_trimmed_idempotent, trim_end, trim_start, trimmed};
use crate::views::{ExportFormat, LifecycleView, export_format_name, export_format_named, forest_preorder, forest_spans, tree_preorder, tree_spans};
use crate::words::{word_overlap, word_set};

verus! {

/// A node type is read back from its name.
pub proof fn law_node_type_name_round_trip(t: NodeType)
    ensures
        node_type_named(node_type_name(t)) == Some(t),
{
    reveal_strlit("entity");
    reveal_strlit("concept");
    reveal_strlit("fact");
    reveal_strlit("raw_chunk");
    assert("entity"@.len() == 6 && "concept"@.len() == 7 && "fact"@.len() == 4 && "raw_chunk"@.len() == 9);
    assert("entity"@[0] != "concept"@[0]);
}

/// Every node type is either structured or raw, never both.
pub proof fn law_node_type_structured_xor_raw(t: NodeType)
    ensures
        (t != NodeType::RawChunk) != (t == NodeType::RawChunk),
{
}

/// A relation is read back from its name: each standard relation, and each
/// custom relation whose name is not that of a standard one.
pub proof fn law_relation_name_round_trip(r: RelationModel)
    requires
        r matches RelationModel::Custom(s) ==> relation_from_name(s) == r,
    ensures
        relation_from_name(relation_name(r)) == r,
{
    reveal_strlit("is_part_of");
    reveal_strlit("causes");
    reveal_strlit("contradicts");
    reveal_strlit("happened_after");
    reveal_strlit("similar_to");
    reveal_strlit("is_a");
    reveal_strlit("located_at");
    reveal_strlit("belongs_to");
    assert("is_part_of"@.len() == 10 && "causes"@.len() == 6 && "contradicts"@.len() == 11);
    assert("happened_after"@.len() == 14 && "similar_to"@.len() == 10 && "is_a"@.len() == 4);
    assert("located_at"@.len() == 10 && "belongs_to"@.len() == 10);
    assert("is_part_of"@[0] != "similar_to"@[0] && "is_part_of"@[0] != "located_at"@[0] && "is_part_of"@[0]
        != "belongs_to"@[0]);
    assert("similar_to"@[0] != "located_at"@[0] && "similar_to"@[0] != "belongs_to"@[0] && "located_at"@[0]
        != "belongs_to"@[0]);
    assert("causes"@[0] != "happened_after"@[0]);
}

/// Reversing twice gives back composition, belonging and similarity:
/// `is_part_of` and `belongs_to` are each other's reverse and `similar_to`
/// is its own.
pub proof fn law_reverse_twice(r: RelationModel)
    requires
        r is IsPartOf || r is BelongsTo || r is SimilarTo,
    ensures
        reverse_relation(reverse_relation(r)) == r,
{
}

/// An export format is read back from its name.
pub proof fn law_export_format_round_trip(f: ExportFormat)
    ensures
        export_format_named(export_format_name(f)) == Some(f),
{
    reveal_strlit("json");
    reveal_strlit("mermaid");
    reveal_strlit("text");
    reveal_strlit("txt");
    assert("json"@.len() == 4 && "mermaid"@.len() == 7 && "text"@.len() == 4 && "txt"@.len() == 3);
    assert("json"@[0] != "text"@[0]);
}

/// Converting a traversal direction between the service's requests and the
/// graph, and back, gives it back, both ways round.
pub proof fn law_direction_round_trip(d: TraverseDirection, g: graph::TraverseDirection)
    ensures
        from_graph_direction(to_graph_direction(d)) == d,
        to_graph_direction(from_graph_direction(g)) == g,
{
}

/// A node added to a graph (with unique ids) that held no node of its id
/// is what its id then looks up, and every other id looks up what it did
/// before.
pub proof fn law_read_after_add(ns: Seq<Node>, n: Node, other: u128)
    requires
        unique_ids(ns),
        lookup(ns, n.id) is None,
    ensures
        lookup(ns.push(n), n.id) == Some(n),
        other != n.id ==> lookup(ns.push(n), other) == lookup(ns, other),
        unique_ids(ns.push(n)),
{
    lemma_lookup(ns, n.id);
    assert(ns.push(n).drop_last() =~= ns);
}

/// The levels from a summary level down start at that level and only get
/// more detailed.
pub proof fn law_inclusive_levels_ordered(l: SummaryLevel)
    ensures
        levels_from(l).len() > 0,
        levels_from(l)[0] == l,
        forall|i: int, j: int| 0 <= i < j < levels_from(l).len() ==> summary_rank(levels_from(l)[i]) < summary_rank(
            levels_from(l)[j],
        ),
        levels_from(l).last() == SummaryLevel::Sentence,
{
}

proof fn lemma_keep_trimmed(t: Seq<char>)
    ensures
        forall|k: int| 0 <= k < keep(trimmed(t)).len() ==> {
            &&& (#[trigger] keep(trimmed(t))[k]).len() > 0
            &&& trimmed(keep(trimmed(t))[k]) == keep(trimmed(t))[k]
        },
{
    lemma_trimmed_idempotent(t);
}

proof fn lemma_sentences_clean(s: Seq<char>, start: int, i: int)
    requires
        0 <= start <= i <= s.len(),
    ensures
        forall|k: int| 0 <= k < sentences_from(s, start, i).len() ==> {
            &&& (#[trigger] sentences_from(s, start, i)[k]).len() > 0
            &&& trimmed(sentences_from(s, start, i)[k]) == sentences_from(s, start, i)[k]
        },
    decreases s.len() - i,
{
    if i >= s.len() {
        lemma_keep_trimmed(s.subrange(start, s.len() as int));
        assert(sentences_from(s, start, i) == keep(trimmed(s.subrange(start, s.len() as int))));
    } else if crate::strategy::ends_sentence(s, i) {
        lemma_keep_trimmed(s.subrange(start, i + 1));
        lemma_sentences_clean(s, i + 1, i + 1);
        let a = keep(trimmed(s.subrange(start, i + 1)));
        let b = sentences_from(s, i + 1, i + 1);
        assert(sentences_from(s, start, i) == a + b);
        assert forall|k: int| 0 <= k < (a + b).len() implies {
            &&& (#[trigger] (a + b)[k]).len() > 0
            &&& trimmed((a + b)[k]) == (a + b)[k]
        } by {
            if k < a.len() {
                assert((a + b)[k] == a[k]);
            } else {
                assert((a + b)[k] == b[k - a.len()]);
            }
        }
    } else {
        lemma_sentences_clean(s, start, i + 1);
        assert(sentences_from(s, start, i) == sentences_from(s, start, i + 1));
    }
}

/// Every sentence that the splitter finds is non-empty and trimmed.
pub proof fn law_sentences_trimmed(s: Seq<char>)
    ensures
        forall|k: int| 0 <= k < sentences(s).len() ==> {
            &&& (#[trigger] sentences(s)[k]).len() > 0
            &&& trimmed(sentences(s)[k]) == sentences(s)[k]
        },
{
    lemma_sentences_clean(s, 0, 0);
}

/// Trimming keeps a last char that is not white space.
proof fn lemma_trim_keeps_last(s: Seq<char>)
    requires
        s.len() > 0,
        !is_white(s.last()),
    ensures
        trimmed(s).len() > 0,
        trimmed(s).last() == s.last(),
    decreases s.len(),
{
    lemma_trim_start_keeps_last(s);
    let u = trim_start(s);
    assert(trim_end(u) == u);
}

proof fn lemma_trim_start_keeps_last(s: Seq<char>)
    requires
        s.len() > 0,
        !is_white(s.last()),
    ensures
        trim_start(s).len() > 0,
        trim_start(s).last() == s.last(),
    decreases s.len(),
{
    if is_white(s[0]) {
        assert(s.len() > 1);
        assert(s.drop_first().last() == s.last());
        lemma_trim_start_keeps_last(s.drop_first());
    }
}

proof fn lemma_sentences_end(s: Seq<char>, start: int, i: int)
    requires
        0 <= start <= i <= s.len(),
    ensures
        forall|k: int| 0 <= k < sentences_from(s, start, i).len() - 1 ==> is_terminator((#[trigger] sentences_from(s, start, i)[k]).last()),
    decreases s.len() - i,
{
    if i >= s.len() {
    } else if crate::strategy::ends_sentence(s, i) {
        lemma_sentences_end(s, i + 1, i + 1);
        let piece = s.subrange(start, i + 1);
        assert(piece.last() == s[i]);
        assert(!is_white(s[i]));
        lemma_trim_keeps_last(piece);
        let a = keep(trimmed(piece));
        let b = sentences_from(s, i + 1, i + 1);
        assert(sentences_from(s, start, i) == a + b);
        assert forall|k: int| 0 <= k < (a + b).len() - 1 implies is_terminator((#[trigger] (a + b)[k]).last()) by {
            if k < a.len() {
                assert((a + b)[k] == a[k]);
            } else {
                assert((a + b)[k] == b[k - a.len()]);
            }
        }
    } else {
        lemma_sentences_end(s, start, i + 1);
        assert(sentences_from(s, start, i) == sentences_from(s, start, i + 1));
    }
}

/// Every sentence that the splitter finds but the last ends with `.`, `!`
/// or `?`: the text is cut only after one.
pub proof fn law_sentences_end_with_terminators(s: Seq<char>)
    ensures
        forall|k: int| 0 <= k < sentences(s).len() - 1 ==> is_terminator((#[trigger] sentences(s)[k]).last()),
{
    lemma_sentences_end(s, 0, 0);
}

proof fn lemma_paragraphs_clean(s: Seq<char>, start: int, i: int)
    requires
        0 <= start <= i <= s.len(),
    ensures
        forall|k: int| 0 <= k < paragraphs_from(s, start, i).len() ==> {
            &&& (#[trigger] paragraphs_from(s, start, i)[k]).len() > 0
            &&& trimmed(paragraphs_from(s, start, i)[k]) == paragraphs_from(s, start, i)[k]
        },
    decreases s.len() - i,
{
    if i + 1 >= s.len() {
        lemma_keep_trimmed(s.subrange(start, s.len() as int));
        assert(paragraphs_from(s, start, i) == keep(trimmed(s.subrange(start, s.len() as int))));
    } else if s[i] == '\n' && s[i + 1] == '\n' {
        lemma_keep_trimmed(s.subrange(start, i));
        lemma_paragraphs_clean(s, i + 2, i + 2);
        let a = keep(trimmed(s.subrange(start, i)));
        let b = paragraphs_from(s, i + 2, i + 2);
        assert(paragraphs_from(s, start, i) == a + b);
        assert forall|k: int| 0 <= k < (a + b).len() implies {
            &&& (#[trigger] (a + b)[k]).len() > 0
            &&& trimmed((a + b)[k]) == (a + b)[k]
        } by {
            if k < a.len() {
                assert((a + b)[k] == a[k]);
            } else {
                assert((a + b)[k] == b[k - a.len()]);
            }
        }
    } else {
        lemma_paragraphs_clean(s, start, i + 1);
        assert(paragraphs_from(s, start, i) == paragraphs_from(s, start, i + 1));
    }
}

/// Every paragraph that the splitter finds is non-empty and trimmed.
pub proof fn law_paragraphs_trimmed(s: Seq<char>)
    ensures
        forall|k: int| 0 <= k < paragraphs(s).len() ==> {
            &&& (#[trigger] paragraphs(s)[k]).len() > 0
            &&& trimmed(paragraphs(s)[k]) == paragraphs(s)[k]
        },
{
    lemma_paragraphs_clean(s, 0, 0);
}

/// Word overlap is symmetric: the similarity of two passages does not
/// depend on their order.
pub proof fn law_overlap_symmetric(a: Seq<char>, b: Seq<char>)
    ensures
        word_overlap(a, b) == word_overlap(b, a),
{
    assert(word_set(a).intersect(word_set(b)) =~= word_set(b).intersect(word_set(a)));
    assert(word_set(a).union(word_set(b)) =~= word_set(b).union(word_set(a)));
}

/// A passage shares all its words with itself: its similarity to itself is
/// 1 whenever it has words.
pub proof fn law_overlap_self(a: Seq<char>)
    ensures
        word_overlap(a, a).0 == word_overlap(a, a).1,
        word_overlap(a, a).1 == word_set(a).len(),
{
    assert(word_set(a).intersect(word_set(a)) =~= word_set(a));
    assert(word_set(a).union(word_set(a)) =~= word_set(a));
}

proof fn lemma_cuts_partition(lens: Seq<int>, fb: int, max: int, min: int, i: int, start: int, size: int)
    requires
        0 <= start <= i <= lens.len(),
        start < lens.len(),
        size == 0 || start < i,
    ensures
        ({
            let cuts = group_cuts(lens, fb, max, min, i, start, size);
            &&& cuts.len() > 0
            &&& cuts[0].0 == start
            &&& cuts.last().1 == lens.len()
            &&& forall|k: int| 0 <= k < cuts.len() ==> (#[trigger] cuts[k]).0 < cuts[k].1
            &&& forall|k: int| 0 <= k < cuts.len() - 1 ==> (#[trigger] cuts[k]).1 == cuts[k + 1].0
        }),
    decreases lens.len() - i,
{
    if i >= lens.len() {
    } else if size > 0 && size >= min && (size + lens[i] > max || fb == i) {
        lemma_cuts_partition(lens, fb, max, min, i + 1, i, lens[i]);
        let rest = group_cuts(lens, fb, max, min, i + 1, i, lens[i]);
        let cuts = seq![(start, i)] + rest;
        assert forall|k: int| 0 <= k < cuts.len() implies (#[trigger] cuts[k]).0 < cuts[k].1 by {
            if k > 0 {
                assert(cuts[k] == rest[k - 1]);
            }
        }
        assert forall|k: int| 0 <= k < cuts.len() - 1 implies (#[trigger] cuts[k]).1 == cuts[k + 1].0 by {
            if k > 0 {
                assert(cuts[k] == rest[k - 1]);
                assert(cuts[k + 1] == rest[k]);
            }
        }
    } else {
        lemma_cuts_partition(lens, fb, max, min, i + 1, start, size + lens[i]);
    }
}

/// Semantic grouping loses and repeats no sentence: the chunks' sentence
/// ranges are non-empty, follow each other without gap, and run from the
/// first sentence to the last.
pub proof fn law_grouping_partitions(lens: Seq<int>, fb: int, max: int, min: int)
    requires
        lens.len() > 0,
    ensures
        ({
            let cuts = group_cuts(lens, fb, max, min, 0, 0, 0);
            &&& cuts.len() > 0
            &&& cuts[0].0 == 0
            &&& cuts.last().1 == lens.len()
            &&& forall|k: int| 0 <= k < cuts.len() ==> (#[trigger] cuts[k]).0 < cuts[k].1
            &&& forall|k: int| 0 <= k < cuts.len() - 1 ==> (#[trigger] cuts[k]).1 == cuts[k + 1].0
        }),
{
    lemma_cuts_partition(lens, fb, max, min, 0, 0, 0);
}

/// A lifecycle lists, flattened, exactly as many spans as it counts.
pub proof fn law_flatten_counts_spans(t: LifecycleView)
    ensures
        tree_preorder(t).len() == tree_spans(t),
    decreases t, 1nat,
{
    lemma_forest_flatten_counts(t.children@);
}

proof fn lemma_forest_flatten_counts(s: Seq<LifecycleView>)
    ensures
        forest_preorder(s).len() == forest_spans(s),
    decreases s, 0nat,
{
    if s.len() > 0 {
        lemma_forest_flatten_counts(s.subrange(0, s.len() - 1));
        law_flatten_counts_spans(s[s.len() - 1]);
    }
}

/// Deleting a node from a table (with unique ids) leaves no node of its id,
/// and every other id looks up what it did before.
pub proof fn law_read_after_delete(ns: Seq<Node>, id: u128, other: u128)
    requires
        unique_ids(ns),
    ensures
        lookup(remove_node(ns, id), id) is None,
        other != id ==> lookup(remove_node(ns, id), other) == lookup(ns, other),
        unique_ids(remove_node(ns, id)),
{
    let rn = remove_node(ns, id);
    if exists|i: int| 0 <= i < ns.len() && ns[i].id == id {
        let k = choose|i: int| 0 <= i < ns.len() && ns[i].id == id;
        assert(rn == ns.remove(k));
        assert forall|i: int| 0 <= i < rn.len() implies rn[i] == ns[if i < k { i } else { i + 1 }] by {
        }
        assert forall|i: int, j: int| 0 <= i < j < rn.len() implies rn[i].id != rn[j].id by {
            assert(rn[i] == ns[if i < k { i } else { i + 1 }]);
            assert(rn[j] == ns[if j < k { j } else { j + 1 }]);
        }
        lemma_lookup(rn, id);
        assert forall|i: int| 0 <= i < rn.len() implies rn[i].id != id by {
            assert(rn[i] == ns[if i < k { i } else { i + 1 }]);
        }
        if other != id {
            lemma_lookup(ns, other);
            lemma_lookup(rn, other);
            if exists|j: int| 0 <= j < ns.len() && ns[j].id == other {
                let j = choose|j: int| 0 <= j < ns.len() && ns[j].id == other;
                assert(j != k);
                let j2 = if j < k { j } else { j - 1 };
                assert(rn[j2] == ns[j]);
                lemma_lookup_index(ns, j);
                lemma_lookup_index(rn, j2);
            } else {
                assert forall|i: int| 0 <= i < rn.len() implies rn[i].id != other by {
                    assert(rn[i] == ns[if i < k { i } else { i + 1 }]);
                }
            }
        }
    } else {
        assert(rn == ns);
        lemma_lookup(ns, id);
    }
}

proof fn lemma_bulk_edges_accounted(t: Seq<Node>, reqs: Seq<AddEdgeRequest>)
    ensures
        made_edge_ids(t, reqs).len() + edge_failures(t, reqs).len() == reqs.len(),
    decreases reqs.len(),
{
    if reqs.len() > 0 {
        lemma_bulk_edges_accounted(t, reqs.drop_last());
    }
}

/// Every operation of a bulk request is counted once, as a success or as a
/// failure, and every failure has its message.
pub proof fn law_bulk_accounts(
    before: crate::service::SyntonDbService,
    after: crate::service::SyntonDbService,
    request: BulkOperationRequest,
    r: BulkOperationResponse,
)
    requires
        bulk_outcome(before, after, request, r),
    ensures
        r.success_count + r.failure_count == request.nodes@.len() + request.edges@.len(),
{
    lemma_bulk_edges_accounted(after.table(), request.edges@);
    let ne = choose|ne: Seq<Seq<char>>|
        {
            &&& ne.len() + r.node_ids@.len() == request.nodes@.len()
            &&& forall|k: int| 0 <= k < ne.len() ==> crate::service::is_node_failure(#[trigger] ne[k])
            &&& crate::strategy::views(r.errors@) == ne + edge_failures(after.table(), request.edges@)
        };
    assert(crate::strategy::views(r.errors@).len() == r.errors@.len());
    assert(crate::strategy::views(r.edge_ids@).len() == r.edge_ids@.len());
}

/// The fixed-size chunks from `start` on: each chunk after the first
/// starts `overlap` chars before the end of the one before it (one char
/// past that one's start when the chunk before is too short for the
/// overlap), while a whole step of `size - overlap` chars still fits before
/// the end of the text; once it does not, the next chunk starts where the
/// one before it ends.
proof fn lemma_fixed_steps(c: Seq<char>, size: int, overlap: int, start: int)
    ensures
        ({
            let p = crate::fixed::fixed_ranges(c, size, overlap, start);
            &&& p.len() > 0 ==> p[0].0 == start
            &&& forall|k: int| 0 <= k < p.len() - 1 ==> {
                &&& (#[trigger] p[k]).1 + (size - overlap) < c.len() ==> p[k + 1].0 == (if p[k].1 - overlap > p[k].0 {
                    p[k].1 - overlap
                } else {
                    p[k].0 + 1
                })
                &&& p[k].1 + (size - overlap) >= c.len() ==> p[k + 1].0 == p[k].1
            }
        }),
    decreases c.len() - start,
{
    let total = c.len() as int;
    if !(start >= total || start < 0) {
        let end = if start + size < total { start + size } else { total };
        let cut = if end < total { crate::fixed::breaking_point(c, start, end) } else { end };
        let next = crate::fixed::next_start(total, size, overlap, start, cut);
        let p = crate::fixed::fixed_ranges(c, size, overlap, start);
        if start < next <= total {
            lemma_fixed_steps(c, size, overlap, next);
            let rest = crate::fixed::fixed_ranges(c, size, overlap, next);
            assert(p == seq![(start, cut)] + rest);
            assert forall|k: int| 0 <= k < p.len() - 1 implies {
                &&& (#[trigger] p[k]).1 + (size - overlap) < c.len() ==> p[k + 1].0 == (if p[k].1 - overlap > p[k].0 {
                    p[k].1 - overlap
                } else {
                    p[k].0 + 1
                })
                &&& p[k].1 + (size - overlap) >= c.len() ==> p[k + 1].0 == p[k].1
            } by {
                if k == 0 {
                    assert(p[0] == (start, cut));
                    assert(p[1] == rest[0]);
                } else {
                    assert(p[k] == rest[k - 1]);
                    assert(p[k + 1] == rest[k]);
                }
            }
        }
    }
}

proof fn lemma_first_newline_within(c: Seq<char>, from: int, end: int)
    requires
        from <= end,
    ensures
        from <= crate::fixed::first_newline(c, from, end) <= end,
    decreases end - from,
{
    if from < end && c[from] != '\n' {
        lemma_first_newline_within(c, from + 1, end);
    }
}

proof fn lemma_last_space_within(c: Seq<char>, lo: int, hi: int)
    ensures
        hi - 1 <= lo ==> crate::fixed::last_space(c, lo, hi) == lo,
        hi - 1 > lo ==> lo <= crate::fixed::last_space(c, lo, hi) < hi,
    decreases hi - lo,
{
    if hi - 1 > lo && c[hi - 1] != ' ' {
        lemma_last_space_within(c, lo, hi - 1);
    }
}

/// A window is cut strictly after its start and no later than its end.
proof fn lemma_breaking_point_within(c: Seq<char>, start: int, end: int)
    requires
        start < end,
    ensures
        start < crate::fixed::breaking_point(c, start, end) <= end,
{
    let from = if end >= start + 100 { end - 100 } else { start };
    lemma_first_newline_within(c, from, end);
    lemma_last_space_within(c, start, end);
}

/// The fixed-size chunks from `start` on lie inside the text, each
/// non-empty and no longer than `size`, and the last one ends at the end of
/// the text.
proof fn lemma_fixed_bounds(c: Seq<char>, size: int, overlap: int, start: int)
    requires
        0 <= overlap < size,
        0 <= start,
    ensures
        ({
            let p = crate::fixed::fixed_ranges(c, size, overlap, start);
            &&& forall|k: int| 0 <= k < p.len() ==> start <= (#[trigger] p[k]).0 < p[k].1 <= c.len() && p[k].1 <= p[k].0 + size
            &&& p.len() > 0 ==> p.last().1 == c.len()
        }),
    decreases c.len() - start,
{
    let total = c.len() as int;
    if start < total {
        let end = if start + size < total { start + size } else { total };
        let cut = if end < total { crate::fixed::breaking_point(c, start, end) } else { end };
        if end < total {
            lemma_breaking_point_within(c, start, end);
        }
        let next = crate::fixed::next_start(total, size, overlap, start, cut);
        let p = crate::fixed::fixed_ranges(c, size, overlap, start);
        assert(start < next <= total);
        lemma_fixed_bounds(c, size, overlap, next);
        let rest = crate::fixed::fixed_ranges(c, size, overlap, next);
        assert(p == seq![(start, cut)] + rest);
        assert forall|k: int| 0 <= k < p.len() implies start <= (#[trigger] p[k]).0 < p[k].1 <= c.len() && p[k].1 <= p[k].0 + size by {
            if k > 0 {
                assert(p[k] == rest[k - 1]);
            }
        }
        if rest.len() > 0 {
            assert(p.last() == rest.last());
        } else {
            assert(next == total);
        }
    }
}

/// Fixed-size chunks overlap as configured: each chunk after the first
/// starts `overlap` chars before the end of the chunk before it (or one
/// char past that chunk's start, when it is no longer than the overlap),
/// as long as a whole step of `size - overlap` chars fits before the end
/// of the text; once it does not, the next chunk starts where the one
/// before it ends. The first chunk starts at the beginning of the text;
/// with a valid configuration every chunk is non-empty, lies inside the
/// text and holds at most `size` chars, and the last ends at the text's
/// end.
pub proof fn law_fixed_chunks_overlap(c: Seq<char>, size: int, overlap: int)
    ensures
        ({
            let p = fixed_plan(c, size, overlap);
            &&& c.len() > 0 ==> p.len() > 0 && p[0].0 == 0
            &&& 0 <= overlap < size ==> forall|k: int| 0 <= k < p.len() ==> 0 <= (#[trigger] p[k]).0 < p[k].1 <= c.len() && p[k].1 <= p[k].0 + size
            &&& 0 <= overlap < size && p.len() > 0 ==> p.last().1 == c.len()
            &&& forall|k: int| 0 <= k < p.len() - 1 ==> {
                &&& (#[trigger] p[k]).1 + (size - overlap) < c.len() ==> p[k + 1].0 == (if p[k].1 - overlap > p[k].0 {
                    p[k].1 - overlap
                } else {
                    p[k].0 + 1
                })
                &&& p[k].1 + (size - overlap) >= c.len() ==> p[k + 1].0 == p[k].1
            }
        }),
{
    lemma_fixed_steps(c, size, overlap, 0);
    if 0 <= overlap < size {
        lemma_fixed_bounds(c, size, overlap, 0);
    }
}

/// The number of bytes of the sentences `a` to `b - 1`.
pub open spec fn lens_sum(lens: Seq<int>, a: int, b: int) -> int
    decreases b - a,
{
    if b <= a {
        0
    } else {
        lens_sum(lens, a, b - 1) + lens[b - 1]
    }
}

proof fn lemma_cuts_fit(lens: Seq<int>, fb: int, max: int, min: int, i: int, start: int, size: int)
    requires
        0 <= start <= i <= lens.len(),
        forall|j: int| 0 <= j < lens.len() ==> #[trigger] lens[j] >= 0,
        0 <= min <= max,
        size == lens_sum(lens, start, i),
        i - start >= 2 ==> lens_sum(lens, start, i - 1) <= max,
    ensures
        ({
            let cuts = group_cuts(lens, fb, max, min, i, start, size);
            forall|k: int| 0 <= k < cuts.len() && (#[trigger] cuts[k]).1 - cuts[k].0 >= 2
                ==> lens_sum(lens, cuts[k].0, cuts[k].1 - 1) <= max
        }),
    decreases lens.len() - i,
{
    let cuts = group_cuts(lens, fb, max, min, i, start, size);
    if i >= lens.len() {
        if start < lens.len() {
            assert(cuts == seq![(start, lens.len() as int)]);
            assert(cuts[0] == (start, i));
        } else {
            assert(cuts.len() == 0);
        }
    } else if size > 0 && size >= min && (size + lens[i] > max || fb == i) {
        assert(lens_sum(lens, i, i + 1) == lens_sum(lens, i, i) + lens[i]);
        lemma_cuts_fit(lens, fb, max, min, i + 1, i, lens[i]);
        let rest = group_cuts(lens, fb, max, min, i + 1, i, lens[i]);
        assert(cuts == seq![(start, i)] + rest);
        assert forall|k: int| 0 <= k < cuts.len() && (#[trigger] cuts[k]).1 - cuts[k].0 >= 2
            implies lens_sum(lens, cuts[k].0, cuts[k].1 - 1) <= max by {
            if k > 0 {
                assert(cuts[k] == rest[k - 1]);
            }
        }
    } else {
        assert(lens[i] >= 0);
        assert(lens_sum(lens, start, i + 1) == size + lens[i]);
        assert(cuts == group_cuts(lens, fb, max, min, i + 1, start, size + lens[i]));
        lemma_cuts_fit(lens, fb, max, min, i + 1, start, size + lens[i]);
    }
}

/// A semantic chunk of more than one sentence is closed in time: its
/// sentences other than the last hold at most `max` bytes, since a chunk
/// that has reached the minimum size is closed before a sentence that
/// would take it past the maximum.
pub proof fn law_grouping_fits(lens: Seq<int>, fb: int, max: int, min: int)
    requires
        forall|j: int| 0 <= j < lens.len() ==> #[trigger] lens[j] >= 0,
        0 <= min <= max,
    ensures
        ({
            let cuts = group_cuts(lens, fb, max, min, 0, 0, 0);
            forall|k: int| 0 <= k < cuts.len() && (#[trigger] cuts[k]).1 - cuts[k].0 >= 2
                ==> lens_sum(lens, cuts[k].0, cuts[k].1 - 1) <= max
        }),
{
    lemma_cuts_fit(lens, fb, max, min, 0, 0, 0);
}

/// Whether a chunk that starts at sentence `a` is closed before sentence
/// `j`: it holds some bytes, at least `min`, and sentence `j` would take it
/// past `max` or `j` is the first boundary.
pub open spec fn closed_before(lens: Seq<int>, fb: int, max: int, min: int, a: int, j: int) -> bool {
    let held = lens_sum(lens, a, j);
    held > 0 && held >= min && (held + lens[j] > max || fb == j)
}

proof fn lemma_cuts_where(lens: Seq<int>, fb: int, max: int, min: int, i: int, start: int, size: int)
    requires
        0 <= start <= i <= lens.len(),
        start < i || size == 0,
        size == lens_sum(lens, start, i),
        forall|j: int| start < j < i ==> !#[trigger] closed_before(lens, fb, max, min, start, j),
    ensures
        ({
            let cuts = group_cuts(lens, fb, max, min, i, start, size);
            &&& forall|k: int, j: int| 0 <= k < cuts.len() && (#[trigger] cuts[k]).0 < j < cuts[k].1
                ==> !#[trigger] closed_before(lens, fb, max, min, cuts[k].0, j)
            &&& forall|k: int| 0 <= k < cuts.len() - 1 ==> #[trigger] closed_before(lens, fb, max, min, cuts[k].0, cuts[k].1)
        }),
    decreases lens.len() - i,
{
    let cuts = group_cuts(lens, fb, max, min, i, start, size);
    if i >= lens.len() {
        if start < lens.len() {
            assert(cuts == seq![(start, lens.len() as int)]);
        }
    } else if size > 0 && size >= min && (size + lens[i] > max || fb == i) {
        assert(lens_sum(lens, i, i + 1) == lens_sum(lens, i, i) + lens[i]);
        lemma_cuts_where(lens, fb, max, min, i + 1, i, lens[i]);
        let rest = group_cuts(lens, fb, max, min, i + 1, i, lens[i]);
        assert(cuts == seq![(start, i)] + rest);
        assert(closed_before(lens, fb, max, min, start, i));
        assert forall|k: int, j: int| 0 <= k < cuts.len() && (#[trigger] cuts[k]).0 < j < cuts[k].1
            implies !#[trigger] closed_before(lens, fb, max, min, cuts[k].0, j) by {
            if k > 0 {
                assert(cuts[k] == rest[k - 1]);
            }
        }
        assert forall|k: int| 0 <= k < cuts.len() - 1 implies #[trigger] closed_before(lens, fb, max, min, cuts[k].0, cuts[k].1) by {
            if k > 0 {
                assert(cuts[k] == rest[k - 1]);
            } else {
                assert(cuts[0] == (start, i));
            }
        }
    } else {
        assert(lens_sum(lens, start, i + 1) == size + lens[i]);
        if start == i {
            assert(lens_sum(lens, start, i) == 0);
        } else {
            assert(!closed_before(lens, fb, max, min, start, i));
        }
        assert(cuts == group_cuts(lens, fb, max, min, i + 1, start, size + lens[i]));
        lemma_cuts_where(lens, fb, max, min, i + 1, start, size + lens[i]);
    }
}

/// Semantic chunks end exactly where they must: each chunk but the last
/// ends before the first sentence before which it holds some bytes, at
/// least the minimum, and that sentence would take it past the maximum or
/// is the first boundary; no chunk passes such a sentence.
pub proof fn law_grouping_cuts_where_needed(lens: Seq<int>, fb: int, max: int, min: int)
    ensures
        ({
            let cuts = group_cuts(lens, fb, max, min, 0, 0, 0);
            &&& forall|k: int, j: int| 0 <= k < cuts.len() && (#[trigger] cuts[k]).0 < j < cuts[k].1
                ==> !#[trigger] closed_before(lens, fb, max, min, cuts[k].0, j)
            &&& forall|k: int| 0 <= k < cuts.len() - 1 ==> #[trigger] closed_before(lens, fb, max, min, cuts[k].0, cuts[k].1)
        }),
{
    lemma_cuts_where(lens, fb, max, min, 0, 0, 0);
}

/// A kind filter admits a span exactly when the span is of the requested
/// kind: the same kind, and for custom kinds the same name.
pub proof fn law_kind_filter_exact(a: SpanKind, b: SpanKind, x: String, y: String)
    ensures
        kinds_agree(a, b) ==> (a is Custom <==> b is Custom),
        kinds_agree(a, b) && !(a is Custom) ==> a == b,
        kinds_agree(SpanKind::Custom(x), SpanKind::Custom(y)) <==> x@ == y@,
        !(a is Custom) ==> kinds_agree(a, a),
        kinds_agree(a, b) ==> kinds_agree(b, a),
{
}

/// A filter on a kind lets a span through only when the span's kind is
/// that kind; a filter with nothing else set lets through every span of
/// that kind.
pub proof fn law_kind_filter_admits(f: QueryFilter, s: SpanFacts, now: Instant, k: SpanKind)
    requires
        f.kind == Some(k),
    ensures
        admits(f, s, now) ==> (s.kind is Custom <==> k is Custom),
        admits(f, s, now) && k is Custom ==> s.kind->Custom_0@ == k->Custom_0@,
        admits(f, s, now) && !(k is Custom) ==> s.kind == k,
        (f.trace_id is None && f.name is None && f.start_after is None && f.end_before is None) ==> (admits(f, s, now)
            <==> match (s.kind, k) {
            (SpanKind::Custom(x), SpanKind::Custom(y)) => x@ == y@,
            (a, b) => !(a is Custom) && a == b,
        }),
{
}

} // verus!
