//! The type under which the statistics count a failed span's error: the
//! first word of its message. (The durations the statistics aggregate are
//! floating point numbers and are kept beside this.)

use vstd::prelude::*;
use crate::text::{chars_of, is_white, is_whitespace, string_from_chars, trim_start};

verus! {

broadcast use vstd::string::group_string_axioms;

/// The leading run of chars that are not white space.
pub open spec fn leading_word(s: Seq<char>) -> Seq<char>
    decreases s.len(),
{
    if s.len() > 0 && !is_white(s[0]) {
        seq![s[0]] + leading_word(s.drop_first())
    } else {
        Seq::empty()
    }
}

/// The type of an error: the first white-space separated word of its
/// message, or `unknown` when the message has none.
pub open spec fn error_kind(message: Seq<char>) -> Seq<char> {
    let w = leading_word(trim_start(message));
    if w.len() == 0 {
        "unknown"@
    } else {
        w
    }
}

proof fn lemma_skip_white(s: Seq<char>, i: int)
    requires
        0 <= i <= s.len(),
        forall|k: int| 0 <= k < i ==> is_white(#[trigger] s[k]),
    ensures
        trim_start(s) == trim_start(s.subrange(i, s.len() as int)),
    decreases i,
{
    if i > 0 {
        assert(s.drop_first() =~= s.subrange(1, s.len() as int));
        let t = s.drop_first();
        assert forall|k: int| 0 <= k < i - 1 implies is_white(#[trigger] t[k]) by {
            assert(t[k] == s[k + 1]);
        }
        lemma_skip_white(t, i - 1);
        assert(t.subrange(i - 1, t.len() as int) =~= s.subrange(i, s.len() as int));
    } else {
        assert(s.subrange(0, s.len() as int) =~= s);
    }
}

proof fn lemma_word(s: Seq<char>, j: int)
    requires
        0 <= j <= s.len(),
        forall|k: int| 0 <= k < j ==> !is_white(#[trigger] s[k]),
    ensures
        leading_word(s) == s.subrange(0, j) + leading_word(s.subrange(j, s.len() as int)),
    decreases j,
{
    if j > 0 {
        let t = s.drop_first();
        assert forall|k: int| 0 <= k < j - 1 implies !is_white(#[trigger] t[k]) by {
            assert(t[k] == s[k + 1]);
        }
        lemma_word(t, j - 1);
        assert(t.subrange(j - 1, t.len() as int) =~= s.subrange(j, s.len() as int));
        assert(seq![s[0]] + t.subrange(0, j - 1) =~= s.subrange(0, j));
        assert(leading_word(s) == seq![s[0]] + leading_word(t));
    } else {
        assert(s.subrange(0, s.len() as int) =~= s);
        assert(s.subrange(0, 0) + leading_word(s) =~= leading_word(s));
    }
}

/// The type of an error for the statistics: the first word of its
/// message, or `unknown`.
pub fn error_type(message: &str) -> (r: String)
    ensures
        r@ == error_kind(message@),
{
    let v = chars_of(message);
    let mut i: usize = 0;
    while i < v.len() && is_whitespace(v[i])
        invariant
            v@ == message@,
            i <= v@.len(),
            forall|k: int| 0 <= k < i ==> is_white(#[trigger] v@[k]),
        decreases v@.len() - i,
    {
        i = i + 1;
    }
    proof {
        lemma_skip_white(v@, i as int);
    }
    let ghost rest = v@.subrange(i as int, v@.len() as int);
    assert(trim_start(rest) == rest) by {
        if rest.len() > 0 {
            assert(rest[0] == v@[i as int]);
        }
    }
    let mut j: usize = i;
    while j < v.len() && !is_whitespace(v[j])
        invariant
            v@ == message@,
            i <= j <= v@.len(),
            rest == v@.subrange(i as int, v@.len() as int),
            forall|k: int| i <= k < j ==> !is_white(#[trigger] v@[k]),
        decreases v@.len() - j,
    {
        j = j + 1;
    }
    proof {
        assert forall|k: int| 0 <= k < j - i implies !is_white(#[trigger] rest[k]) by {
            assert(rest[k] == v@[i + k]);
        }
        lemma_word(rest, j - i);
        let tail = rest.subrange(j - i, rest.len() as int);
        if tail.len() > 0 {
            assert(tail[0] == v@[j as int]);
        }
        assert(leading_word(tail) =~= Seq::<char>::empty());
        assert(rest.subrange(0, j - i) =~= v@.subrange(i as int, j as int));
    }
    if j == i {
        String::from_str("unknown")
    } else {
        string_from_chars(&v.as_slice()[i..j])
    }
}

} // verus!
