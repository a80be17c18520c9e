//! The bookkeeping of Graph-RAG context assembly: dropping nodes met twice,
//! keeping what fits a size budget, and the previews of context sources.
//! (Relevance scores are floating point numbers and are ranked by the
//! retriever beside this.)

use vstd::prelude::*;
use crate::cli::{shortened, truncate};
use crate::strategy::views;
use crate::summary::token_estimate;
use crate::text::cuttable;

verus! {

/// Whether position `i` holds the first occurrence of its id.
pub open spec fn first_occurrence(ids: Seq<u128>, i: int) -> bool {
    forall|j: int| 0 <= j < i ==> #[trigger] ids[j] != ids[i]
}

/// The positions of the nodes kept when nodes met twice are dropped: the
/// first occurrence of each id, in order.
pub fn deduplicate_ids(ids: &[u128]) -> (r: Vec<usize>)
    ensures
        forall|k: int| 0 <= k < r@.len() ==> (#[trigger] r@[k]) < ids@.len(),
        forall|k: int, m: int| 0 <= k < m < r@.len() ==> r@[k] < r@[m],
        forall|i: int| 0 <= i < ids@.len() ==> (r@.contains(i as usize) <==> first_occurrence(ids@, i)),
{
    let mut kept: Vec<usize> = Vec::new();
    let mut i: usize = 0;
    while i < ids.len()
        invariant
            i <= ids@.len(),
            forall|k: int| 0 <= k < kept@.len() ==> (#[trigger] kept@[k]) < i,
            forall|k: int, m: int| 0 <= k < m < kept@.len() ==> kept@[k] < kept@[m],
            forall|q: int| 0 <= q < i ==> (kept@.contains(q as usize) <==> first_occurrence(ids@, q)),
        decreases ids@.len() - i,
    {
        let mut seen = false;
        let mut j: usize = 0;
        while j < i
            invariant
                i < ids@.len(),
                j <= i,
                seen <==> exists|q: int| 0 <= q < j && #[trigger] ids@[q] == ids@[i as int],
            decreases i - j,
        {
            if ids[j] == ids[i] {
                seen = true;
            }
            j = j + 1;
        }
        let ghost before = kept@;
        if !seen {
            kept.push(i);
        }
        proof {
            assert forall|q: int| 0 <= q < i + 1 implies (kept@.contains(q as usize) <==> first_occurrence(ids@, q)) by {
                if q < i {
                    if kept@.contains(q as usize) {
                        let k = choose|k: int| 0 <= k < kept@.len() && kept@[k] == q as usize;
                        if k < before.len() {
                            assert(before[k] == q as usize);
                        }
                    }
                    if before.contains(q as usize) {
                        let k = choose|k: int| 0 <= k < before.len() && before[k] == q as usize;
                        assert(kept@[k] == q as usize);
                    }
                } else {
                    if seen {
                        let w = choose|w: int| 0 <= w < i && #[trigger] ids@[w] == ids@[i as int];
                        assert(!first_occurrence(ids@, q));
                        if kept@.contains(q as usize) {
                            let k = choose|k: int| 0 <= k < kept@.len() && kept@[k] == q as usize;
                            assert(before[k] < i);
                        }
                    } else {
                        assert(kept@[kept@.len() - 1] == i);
                    }
                }
            }
        }
        i = i + 1;
    }
    kept
}

/// How many leading nodes fit a size budget: nodes are taken in order
/// while the total of their estimated sizes (a quarter of their bytes)
/// stays within `max_size`; the first one that would pass it ends the
/// selection.
pub fn fit_to_size(contents: &[String], max_size: usize) -> (r: usize)
    ensures
        r <= contents@.len(),
        token_estimate(views(contents@).take(r as int)) <= max_size,
        r < contents@.len() ==> token_estimate(views(contents@).take(r + 1)) > max_size,
{
    let ghost texts = views(contents@);
    let mut total: usize = 0;
    let mut i: usize = 0;
    assert(texts.take(0) =~= Seq::<Seq<char>>::empty());
    while i < contents.len()
        invariant
            texts == views(contents@),
            i <= contents@.len(),
            total == token_estimate(texts.take(i as int)),
            total <= max_size,
        decreases contents@.len() - i,
    {
        let size = contents[i].as_str().len() / 4;
        assert(texts.take(i + 1).drop_last() =~= texts.take(i as int));
        assert(texts[i as int] == contents@[i as int]@);
        if size > max_size - total {
            return i;
        }
        total = total + size;
        i = i + 1;
    }
    assert(texts.take(contents@.len() as int) =~= texts);
    i
}

/// The preview of a context source: its content, or, when that is longer
/// than 100 bytes, its first 97 bytes followed by `...`.
pub fn source_preview(content: &str) -> (r: String)
    requires
        cuttable(content@, 100),
    ensures
        r@ == shortened(content@, 100),
{
    truncate(content, 100)
}

} // verus!
