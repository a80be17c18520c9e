//! Words of a text and the overlap of two texts' vocabularies, which the
//! semantic chunker takes as the similarity of two passages.

use vstd::prelude::*;
use crate::text::{chars_of, copy_range, is_white, is_whitespace};

verus! {

/// A one-element sequence of the word `w`, or nothing when `w` is empty.
pub open spec fn keep_word(w: Seq<char>) -> Seq<Seq<char>> {
    if w.len() == 0 {
        Seq::empty()
    } else {
        seq![w]
    }
}

/// The words of `s[start..]`, scanning from `i`: the runs of chars between
/// white space, as `str::split_whitespace` yields them.
pub open spec fn words_from(s: Seq<char>, start: int, i: int) -> Seq<Seq<char>>
    decreases s.len() - i,
{
    if i < 0 || i >= s.len() {
        keep_word(s.subrange(start, s.len() as int))
    } else if is_white(s[i]) {
        keep_word(s.subrange(start, i)) + words_from(s, i + 1, i + 1)
    } else {
        words_from(s, start, i + 1)
    }
}

/// The words of a text, in order.
pub open spec fn words(s: Seq<char>) -> Seq<Seq<char>> {
    words_from(s, 0, 0)
}

/// The set of words of a text.
pub open spec fn word_set(s: Seq<char>) -> Set<Seq<char>> {
    words(s).to_set()
}

/// The contents of a list of char vectors.
pub open spec fn char_views(v: Seq<Vec<char>>) -> Seq<Seq<char>> {
    v.map_values(|w: Vec<char>| w@)
}

/// Whether two char vectors hold the same chars.
pub fn same_chars(a: &Vec<char>, b: &Vec<char>) -> (r: bool)
    ensures
        r == (a@ == b@),
{
    if a.len() != b.len() {
        return false;
    }
    let mut i: usize = 0;
    while i < a.len()
        invariant
            a@.len() == b@.len(),
            i <= a@.len(),
            forall|j: int| 0 <= j < i ==> a@[j] == b@[j],
        decreases a@.len() - i,
    {
        if a[i] != b[i] {
            return false;
        }
        i = i + 1;
    }
    assert(a@ =~= b@);
    true
}

/// Whether a list of words holds the given word.
pub fn holds_word(ws: &Vec<Vec<char>>, w: &Vec<char>) -> (r: bool)
    ensures
        r == char_views(ws@).contains(w@),
{
    let mut i: usize = 0;
    while i < ws.len()
        invariant
            i <= ws@.len(),
            forall|j: int| 0 <= j < i ==> ws@[j]@ != w@,
        decreases ws@.len() - i,
    {
        if same_chars(&ws[i], w) {
            assert(char_views(ws@)[i as int] == w@);
            return true;
        }
        i = i + 1;
    }
    assert(!char_views(ws@).contains(w@)) by {
        if char_views(ws@).contains(w@) {
            let j = choose|j: int| 0 <= j < char_views(ws@).len() && char_views(ws@)[j] == w@;
            assert(ws@[j]@ == w@);
        }
    }
    false
}

/// The words of a char vector, as `str::split_whitespace` yields them.
pub fn words_of(v: &Vec<char>) -> (r: Vec<Vec<char>>)
    ensures
        char_views(r@) == words(v@),
{
    let mut out: Vec<Vec<char>> = Vec::new();
    let mut start: usize = 0;
    let mut i: usize = 0;
    assert(char_views(out@) =~= Seq::<Seq<char>>::empty());
    while i < v.len()
        invariant
            start <= i <= v@.len(),
            char_views(out@) + words_from(v@, start as int, i as int) == words(v@),
        decreases v@.len() - i,
    {
        if is_whitespace(v[i]) {
            let ghost before = char_views(out@);
            let ghost piece = keep_word(v@.subrange(start as int, i as int));
            if start < i {
                let w = copy_range(v, start, i);
                out.push(w);
            }
            assert(char_views(out@) =~= before + piece);
            assert(before + (piece + words_from(v@, i + 1, i + 1)) =~= (before + piece) + words_from(v@, i + 1, i + 1));
            start = i + 1;
        }
        i = i + 1;
    }
    let ghost before = char_views(out@);
    if start < v.len() {
        let w = copy_range(v, start, v.len());
        out.push(w);
    }
    assert(char_views(out@) =~= before + keep_word(v@.subrange(start as int, v@.len() as int)));
    out
}

/// The distinct words of a list, each once, in the order of first
/// appearance.
pub fn distinct_words(ws: &Vec<Vec<char>>) -> (r: Vec<Vec<char>>)
    ensures
        char_views(r@).no_duplicates(),
        char_views(r@).to_set() == char_views(ws@).to_set(),
{
    let mut out: Vec<Vec<char>> = Vec::new();
    let mut i: usize = 0;
    while i < ws.len()
        invariant
            i <= ws@.len(),
            char_views(out@).no_duplicates(),
            char_views(out@).to_set() == char_views(ws@.take(i as int)).to_set(),
        decreases ws@.len() - i,
    {
        let ghost before = char_views(out@);
        assert(char_views(ws@.take(i + 1)) =~= char_views(ws@.take(i as int)).push(ws@[i as int]@));
        if !holds_word(&out, &ws[i]) {
            let w = copy_range(&ws[i], 0, ws[i].len());
            assert(w@ =~= ws@[i as int]@);
            out.push(w);
            assert(char_views(out@) =~= before.push(ws@[i as int]@));
        }
        proof {
            before.lemma_push_to_set_commute(ws@[i as int]@);
            char_views(ws@.take(i as int)).lemma_push_to_set_commute(ws@[i as int]@);
            if before.to_set().contains(ws@[i as int]@) {
                assert(before.to_set().insert(ws@[i as int]@) =~= before.to_set());
            }
        }
        assert(char_views(out@).to_set() =~= char_views(ws@.take(i + 1)).to_set());
        i = i + 1;
    }
    assert(ws@.take(ws@.len() as int) =~= ws@);
    out
}

/// How far the word sets of two texts overlap: the number of words that
/// both hold, and the number of words that either holds.
pub open spec fn word_overlap(a: Seq<char>, b: Seq<char>) -> (nat, nat) {
    (word_set(a).intersect(word_set(b)).len(), word_set(a).union(word_set(b)).len())
}

/// Counts the words that two texts share and the words of either: the
/// similarity of the texts is the first over the second, or 0 when the
/// second is 0 (when either text has no words, it is 0 too).
pub fn overlap_counts(a: &Vec<char>, b: &Vec<char>) -> (r: (usize, usize))
    ensures
        r.0 == word_overlap(a@, b@).0,
        r.1 == word_overlap(a@, b@).1,
{
    let wa = words_of(a);
    let wb = words_of(b);
    let da = distinct_words(&wa);
    let db = distinct_words(&wb);
    let ghost sa = char_views(da@);
    let ghost sb = char_views(db@);
    let mut shared: Vec<Vec<char>> = Vec::new();
    let mut either: Vec<Vec<char>> = Vec::new();
    let mut i: usize = 0;
    while i < da.len()
        invariant
            sa == char_views(da@),
            sb == char_views(db@),
            sa.no_duplicates(),
            i <= sa.len(),
            char_views(shared@).no_duplicates(),
            char_views(shared@).to_set() == sa.take(i as int).to_set().intersect(sb.to_set()),
            char_views(either@) == sa.take(i as int),
        decreases sa.len() - i,
    {
        let ghost before = char_views(shared@);
        assert(sa.take(i + 1) =~= sa.take(i as int).push(sa[i as int]));
        let w = copy_range(&da[i], 0, da[i].len());
        assert(w@ =~= sa[i as int]);
        let w2 = copy_range(&da[i], 0, da[i].len());
        assert(w2@ =~= sa[i as int]);
        if holds_word(&db, &da[i]) {
            shared.push(w);
            assert(char_views(shared@) =~= before.push(sa[i as int]));
            assert(!before.contains(sa[i as int])) by {
                if before.contains(sa[i as int]) {
                    assert(before.to_set().contains(sa[i as int]));
                    let j = choose|j: int| 0 <= j < i && sa[j] == sa[i as int];
                    assert(sa.take(i as int)[j] == sa[j]);
                }
            }
        }
        let ghost before_either = char_views(either@);
        either.push(w2);
        assert(char_views(either@) =~= before_either.push(sa[i as int]));
        proof {
            before.lemma_push_to_set_commute(sa[i as int]);
            sa.take(i as int).lemma_push_to_set_commute(sa[i as int]);
        }
        assert(char_views(shared@).to_set() =~= sa.take(i + 1).to_set().intersect(sb.to_set()));
        i = i + 1;
    }
    assert(sa.take(sa.len() as int) =~= sa);
    let mut j: usize = 0;
    while j < db.len()
        invariant
            sa == char_views(da@),
            sb == char_views(db@),
            sa.no_duplicates(),
            sb.no_duplicates(),
            j <= sb.len(),
            char_views(either@).no_duplicates(),
            char_views(either@).to_set() == sa.to_set().union(sb.take(j as int).to_set()),
        decreases sb.len() - j,
    {
        let ghost before = char_views(either@);
        assert(sb.take(j + 1) =~= sb.take(j as int).push(sb[j as int]));
        if !holds_word(&da, &db[j]) {
            let w = copy_range(&db[j], 0, db[j].len());
            assert(w@ =~= sb[j as int]);
            either.push(w);
            assert(char_views(either@) =~= before.push(sb[j as int]));
            assert(!before.contains(sb[j as int])) by {
                if before.contains(sb[j as int]) {
                    assert(before.to_set().contains(sb[j as int]));
                    if sa.to_set().contains(sb[j as int]) {
                    } else {
                        let k = choose|k: int| 0 <= k < j && sb[k] == sb[j as int];
                        assert(sb.take(j as int)[k] == sb[k]);
                    }
                }
            }
        }
        proof {
            before.lemma_push_to_set_commute(sb[j as int]);
            sb.take(j as int).lemma_push_to_set_commute(sb[j as int]);
        }
        assert(char_views(either@).to_set() =~= sa.to_set().union(sb.take(j + 1).to_set()));
        j = j + 1;
    }
    assert(sb.take(sb.len() as int) =~= sb);
    proof {
        char_views(shared@).unique_seq_to_set();
        char_views(either@).unique_seq_to_set();
        assert(sa.to_set() == word_set(a@));
        assert(sb.to_set() == word_set(b@));
        assert(shared@.len() == char_views(shared@).len());
        assert(either@.len() == char_views(either@).len());
    }
    (shared.len(), either.len())
}

} // verus!
