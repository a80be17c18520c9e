//! The spans a trace collector keeps in memory: their parent and child
//! links, their status, the trace tree under a root span, and its export as
//! a Mermaid flowchart. (Times, durations, results and the event log are
//! kept beside the spans by the collector.)

use vstd::prelude::*;
use std::collections::HashSet;
use vstd::std_specs::hash::group_hash_axioms;
use crate::ids::{id_to_string, new_id, uuid_text};
use crate::span::{SpanKind, SpanStatus};
use crate::text::push_char;

verus! {

broadcast use {vstd::string::group_string_axioms, group_hash_axioms};

/// A span as the collector keeps it.
#[derive(Debug, PartialEq, Eq)]
pub struct SpanEntry {
    /// Span id.
    pub id: u128,
    /// Parent span id, if any.
    pub parent_id: Option<u128>,
    /// Span name.
    pub name: String,
    /// Span kind.
    pub kind: SpanKind,
    /// Span status.
    pub status: SpanStatus,
    /// Whether the span has ended (completed or failed).
    pub ended: bool,
    /// Child span ids, each once, in the order they were entered.
    pub children: Vec<u128>,
}

/// The ids of the spans are distinct.
pub open spec fn distinct_spans(ss: Seq<SpanEntry>) -> bool {
    forall|i: int, j: int| 0 <= i < j < ss.len() ==> ss[i].id != ss[j].id
}

/// The span with the given id, if any.
pub open spec fn span_of(ss: Seq<SpanEntry>, id: u128) -> Option<SpanEntry>
    decreases ss.len(),
{
    if ss.len() == 0 {
        None
    } else if ss.last().id == id {
        Some(ss.last())
    } else {
        span_of(ss.drop_last(), id)
    }
}

/// Puts a span into a store keyed by id: a span with the same id is
/// replaced in place, otherwise the span is appended.
pub open spec fn put_span(ss: Seq<SpanEntry>, s: SpanEntry) -> Seq<SpanEntry> {
    if exists|i: int| 0 <= i < ss.len() && ss[i].id == s.id {
        ss.update(choose|i: int| 0 <= i < ss.len() && ss[i].id == s.id, s)
    } else {
        ss.push(s)
    }
}

/// `b` is a child of the stored span `a`.
pub open spec fn child_step(ss: Seq<SpanEntry>, a: u128, b: u128) -> bool {
    span_of(ss, a) matches Some(s) && s.children@.contains(b)
}

/// Each id of the path is a child of the stored span before it.
pub open spec fn is_chain(ss: Seq<SpanEntry>, path: Seq<u128>) -> bool {
    forall|i: int| 0 <= i < path.len() - 1 ==> #[trigger] child_step(ss, path[i], path[i + 1])
}

/// `id` is reached from `root` over child links: a chain leads from the
/// one to the other.
pub open spec fn reaches(ss: Seq<SpanEntry>, root: u128, id: u128) -> bool {
    exists|path: Seq<u128>| path.len() >= 1 && path[0] == root && path.last() == id && #[trigger] is_chain(ss, path)
}

/// The ids of a trace tree: distinct ids of stored spans, each reached
/// from the root over child links, and every stored span so reached; the
/// root first when it is stored.
pub open spec fn trace_tree(ss: Seq<SpanEntry>, root: u128, r: Seq<u128>) -> bool {
    &&& r.no_duplicates()
    &&& forall|k: int| 0 <= k < r.len() ==> span_of(ss, #[trigger] r[k]) is Some
    &&& forall|k: int| 0 <= k < r.len() ==> reaches(ss, root, #[trigger] r[k])
    &&& forall|id: u128| #[trigger] reaches(ss, root, id) && span_of(ss, id) is Some ==> r.contains(id)
    &&& span_of(ss, root) is Some ==> r.len() > 0 && r[0] == root
    &&& span_of(ss, root) is None ==> r.len() == 0
}

/// A set of ids closed under the child links of the stored spans.
pub open spec fn closed_under_children(ss: Seq<SpanEntry>, v: Set<u128>) -> bool {
    forall|x: u128, c: u128| v.contains(x) && #[trigger] child_step(ss, x, c) ==> v.contains(c)
}

proof fn lemma_reached_in_closed(ss: Seq<SpanEntry>, v: Set<u128>, root: u128, id: u128)
    requires
        v.contains(root),
        closed_under_children(ss, v),
        reaches(ss, root, id),
    ensures
        v.contains(id),
{
    let path = choose|path: Seq<u128>| path.len() >= 1 && path[0] == root && path.last() == id && #[trigger] is_chain(ss, path);
    lemma_chain_in_closed(ss, v, path, path.len() - 1);
}

proof fn lemma_chain_in_closed(ss: Seq<SpanEntry>, v: Set<u128>, path: Seq<u128>, i: int)
    requires
        0 <= i < path.len(),
        v.contains(path[0]),
        closed_under_children(ss, v),
        is_chain(ss, path),
    ensures
        v.contains(path[i]),
    decreases i,
{
    if i > 0 {
        lemma_chain_in_closed(ss, v, path, i - 1);
        assert(child_step(ss, path[i - 1], path[(i - 1) + 1]));
    }
}

proof fn lemma_unstored_root(ss: Seq<SpanEntry>, root: u128, x: u128)
    requires
        span_of(ss, root) is None,
        reaches(ss, root, x),
    ensures
        x == root,
{
    let path = choose|path: Seq<u128>| path.len() >= 1 && path[0] == root && path.last() == x && #[trigger] is_chain(ss, path);
    if path.len() > 1 {
        assert(child_step(ss, path[0int], path[0int + 1]));
    }
}

proof fn lemma_reach_root(ss: Seq<SpanEntry>, root: u128)
    ensures
        reaches(ss, root, root),
{
    assert(is_chain(ss, seq![root]));
}

proof fn lemma_reach_child(ss: Seq<SpanEntry>, root: u128, m: u128, c: u128)
    requires
        reaches(ss, root, m),
        child_step(ss, m, c),
    ensures
        reaches(ss, root, c),
{
    let path = choose|path: Seq<u128>| path.len() >= 1 && path[0] == root && path.last() == m && #[trigger] is_chain(ss, path);
    let p2 = path.push(c);
    assert forall|i: int| 0 <= i < p2.len() - 1 implies #[trigger] child_step(ss, p2[i], p2[i + 1]) by {
        if i < path.len() - 1 {
            assert(p2[i] == path[i] && p2[i + 1] == path[i + 1]);
        }
    }
    assert(is_chain(ss, p2));
}

proof fn lemma_span_of(ss: Seq<SpanEntry>, id: u128)
    ensures
        span_of(ss, id) matches Some(s) ==> s.id == id && ss.contains(s),
        span_of(ss, id) is None <==> (forall|i: int| 0 <= i < ss.len() ==> ss[i].id != id),
    decreases ss.len(),
{
    if ss.len() > 0 {
        lemma_span_of(ss.drop_last(), id);
        if span_of(ss, id) is Some && ss.last().id != id {
            let s = span_of(ss, id)->0;
            let k = choose|k: int| 0 <= k < ss.drop_last().len() && ss.drop_last()[k] == s;
            assert(ss[k] == s);
        }
        if ss.last().id != id {
            assert forall|i: int| 0 <= i < ss.len() && ss[i].id == id implies span_of(ss, id) is Some by {
                assert(ss.drop_last()[i].id == id);
            }
        }
    }
}

proof fn lemma_span_of_index(ss: Seq<SpanEntry>, k: int)
    requires
        distinct_spans(ss),
        0 <= k < ss.len(),
    ensures
        span_of(ss, ss[k].id) == Some(ss[k]),
    decreases ss.len(),
{
    if k < ss.len() - 1 {
        lemma_span_of_index(ss.drop_last(), k);
    }
}

/// `b` is `a` with `c` among its children: added last unless already
/// there.
pub open spec fn child_added(a: SpanEntry, b: SpanEntry, c: u128) -> bool {
    &&& b.id == a.id
    &&& b.parent_id == a.parent_id
    &&& b.name == a.name
    &&& b.kind == a.kind
    &&& b.status == a.status
    &&& b.ended == a.ended
    &&& b.children@ == (if a.children@.contains(c) {
        a.children@
    } else {
        a.children@.push(c)
    })
}

/// `linked` is the store after a new span `id` was linked to its parent:
/// a stored parent gains it as a child; otherwise nothing changes.
pub open spec fn linked_by(before: Seq<SpanEntry>, linked: Seq<SpanEntry>, id: u128, parent_id: Option<u128>) -> bool {
    match parent_id {
        Some(p) => match span_of(before, p) {
            Some(ps) => exists|ps2: SpanEntry| child_added(ps, ps2, id) && linked == put_span(before, ps2),
            None => linked == before,
        },
        None => linked == before,
    }
}

/// `s` is a new span: running, not ended, without children.
pub open spec fn is_fresh(s: SpanEntry, id: u128, parent_id: Option<u128>, name: Seq<char>, kind: SpanKind) -> bool {
    &&& s.id == id
    &&& s.parent_id == parent_id
    &&& s.name@ == name
    &&& s.kind == kind
    &&& s.status == SpanStatus::Running
    &&& !s.ended
    &&& s.children@.len() == 0
}

/// Entering span `id` took the store from `before` to `after`: the span is
/// linked to its parent, then stored fresh.
pub open spec fn entered(
    before: Seq<SpanEntry>,
    after: Seq<SpanEntry>,
    id: u128,
    parent_id: Option<u128>,
    name: Seq<char>,
    kind: SpanKind,
) -> bool {
    exists|linked: Seq<SpanEntry>, s: SpanEntry|
        linked_by(before, linked, id, parent_id) && is_fresh(s, id, parent_id, name, kind) && after == put_span(linked, s)
}

impl SpanEntry {
    /// A new span: running, not ended, without children.
    pub fn new(name: String, id: u128, parent_id: Option<u128>, kind: SpanKind) -> (r: SpanEntry)
        ensures
            is_fresh(r, id, parent_id, name@, kind),
            r.name == name,
    {
        SpanEntry { id, parent_id, name, kind, status: SpanStatus::Running, ended: false, children: Vec::new() }
    }

    /// Whether the span is a root span (without a parent).
    pub fn is_root(&self) -> (r: bool)
        ensures
            r == (self.parent_id is None),
    {
        self.parent_id.is_none()
    }

    /// Whether the span has ended.
    pub fn is_complete(&self) -> (r: bool)
        ensures
            r == self.ended,
    {
        self.ended
    }

    /// This span with `c` among its children (added last unless there).
    pub fn add_child(self, c: u128) -> (r: SpanEntry)
        ensures
            child_added(self, r, c),
    {
        let mut found = false;
        let mut i: usize = 0;
        while i < self.children.len()
            invariant
                i <= self.children@.len(),
                found == (exists|j: int| 0 <= j < i && self.children@[j] == c),
            decreases self.children@.len() - i,
        {
            if self.children[i] == c {
                found = true;
            }
            i = i + 1;
        }
        if found {
            self
        } else {
            let mut children = self.children;
            children.push(c);
            SpanEntry { children, ..self }
        }
    }
}

/// The spans a trace collector keeps in memory, keyed by id.
pub struct SpanStore {
    spans: Vec<SpanEntry>,
    next_span: u64,
}

impl SpanStore {
    #[verifier::type_invariant]
    spec fn wf(&self) -> bool {
        distinct_spans(self.spans@)
    }

    /// The stored spans.
    pub closed spec fn span_seq(&self) -> Seq<SpanEntry> {
        self.spans@
    }

    /// The counter the next span id is made from.
    pub closed spec fn next_counter(&self) -> u64 {
        self.next_span
    }

    /// An empty store, whose first span id is 1.
    pub fn new() -> (r: SpanStore)
        ensures
            r.span_seq() == Seq::<SpanEntry>::empty(),
            r.next_counter() == 1,
    {
        SpanStore { spans: Vec::new(), next_span: 1 }
    }

    /// A new span id: the UUID whose high half is zero and whose low half
    /// is the counter, which then moves on by one (wrapping).
    pub fn new_span_id(&mut self) -> (r: u128)
        ensures
            r == old(self).next_counter() as u128,
            final(self).next_counter() == old(self).next_counter().wrapping_add(1),
            final(self).span_seq() == old(self).span_seq(),
    {
        proof {
            use_type_invariant(&*self);
        }
        let counter = self.next_span;
        self.next_span = self.next_span.wrapping_add(1);
        counter as u128
    }

    /// The number of spans in memory.
    pub fn span_count(&self) -> (r: usize)
        ensures
            r == self.span_seq().len(),
    {
        self.spans.len()
    }

    fn index_of(&self, id: u128) -> (r: Option<usize>)
        ensures
            r matches Some(k) ==> k < self.spans@.len() && self.spans@[k as int].id == id,
            r is None ==> forall|i: int| 0 <= i < self.spans@.len() ==> self.spans@[i].id != id,
    {
        let mut i: usize = 0;
        while i < self.spans.len()
            invariant
                i <= self.spans@.len(),
                forall|j: int| 0 <= j < i ==> self.spans@[j].id != id,
            decreases self.spans@.len() - i,
        {
            if self.spans[i].id == id {
                return Some(i);
            }
            i = i + 1;
        }
        None
    }

    /// The span with the id, if any.
    pub fn get_span(&self, id: u128) -> (r: Option<&SpanEntry>)
        ensures
            r matches Some(s) ==> span_of(self.span_seq(), id) == Some(*s),
            r is None <==> span_of(self.span_seq(), id) is None,
    {
        proof {
            use_type_invariant(self);
            lemma_span_of(self.spans@, id);
        }
        match self.index_of(id) {
            Some(k) => {
                proof {
                    lemma_span_of_index(self.spans@, k as int);
                }
                Some(&self.spans[k])
            },
            None => None,
        }
    }

    fn take_at(&mut self, k: usize) -> (r: SpanEntry)
        requires
            k < old(self).span_seq().len(),
        ensures
            r == old(self).span_seq()[k as int],
            final(self).span_seq() == old(self).span_seq().remove(k as int),
            final(self).next_counter() == old(self).next_counter(),
    {
        proof {
            use_type_invariant(&*self);
        }
        let mut v: Vec<SpanEntry> = Vec::new();
        std::mem::swap(&mut v, &mut self.spans);
        let ghost ss = v@;
        let e = v.remove(k);
        proof {
            assert forall|i: int, j: int| 0 <= i < j < v@.len() implies v@[i].id != v@[j].id by {
                let a = if i < k { i } else { i + 1 };
                let b = if j < k { j } else { j + 1 };
                assert(v@[i] == ss[a]);
                assert(v@[j] == ss[b]);
            }
        }
        self.spans = v;
        e
    }

    fn restore_at(&mut self, k: usize, e: SpanEntry, Ghost(before): Ghost<Seq<SpanEntry>>)
        requires
            k < before.len(),
            distinct_spans(before),
            old(self).span_seq() == before.remove(k as int),
            e.id == before[k as int].id,
        ensures
            final(self).span_seq() == before.update(k as int, e),
            final(self).next_counter() == old(self).next_counter(),
    {
        let mut v: Vec<SpanEntry> = Vec::new();
        std::mem::swap(&mut v, &mut self.spans);
        v.insert(k, e);
        proof {
            assert(v@ =~= before.update(k as int, e));
            assert forall|i: int, j: int| 0 <= i < j < v@.len() implies v@[i].id != v@[j].id by {
                assert(before[i].id != before[j].id);
            }
        }
        self.spans = v;
    }

    fn put(&mut self, s: SpanEntry)
        ensures
            final(self).span_seq() == put_span(old(self).span_seq(), s),
            final(self).next_counter() == old(self).next_counter(),
    {
        proof {
            use_type_invariant(&*self);
        }
        match self.index_of(s.id) {
            Some(k) => {
                let ghost ss = self.spans@;
                proof {
                    let c = choose|i: int| 0 <= i < ss.len() && ss[i].id == s.id;
                    assert(c == k as int);
                }
                let mut v: Vec<SpanEntry> = Vec::new();
                std::mem::swap(&mut v, &mut self.spans);
                v.set(k, s);
                proof {
                    assert forall|i: int, j: int| 0 <= i < j < v@.len() implies v@[i].id != v@[j].id by {
                        assert(ss[i].id != ss[j].id);
                    }
                }
                self.spans = v;
            },
            None => {
                let mut v: Vec<SpanEntry> = Vec::new();
                std::mem::swap(&mut v, &mut self.spans);
                v.push(s);
                self.spans = v;
            },
        }
    }

    /// Enters a new span with a fresh id: it is running, with no children,
    /// and the parent (when it is stored) lists it as its last child unless
    /// it already did.
    pub fn enter_span(&mut self, name: String, parent_id: Option<u128>, kind: SpanKind) -> (r: u128)
        ensures
            r == old(self).next_counter() as u128,
            final(self).next_counter() == old(self).next_counter().wrapping_add(1),
            entered(old(self).span_seq(), final(self).span_seq(), r, parent_id, name@, kind),
    {
        let span_id = self.new_span_id();
        proof {
            use_type_invariant(&*self);
        }
        let ghost before = self.span_seq();
        let ghost mut linked = before;
        if let Some(parent) = parent_id {
            proof {
                lemma_span_of(before, parent);
            }
            if let Some(k) = self.index_of(parent) {
                proof {
                    lemma_span_of_index(before, k as int);
                }
                let parent_span = self.take_at(k);
                let updated = parent_span.add_child(span_id);
                self.restore_at(k, updated, Ghost(before));
                proof {
                    linked = self.span_seq();
                    let c = choose|i: int| 0 <= i < before.len() && before[i].id == updated.id;
                    assert(c == k as int);
                    assert(linked == put_span(before, updated));
                }
            }
        }
        let span = SpanEntry::new(name, span_id, parent_id, kind);
        proof {
            assert(linked_by(before, linked, span_id, parent_id));
            assert(is_fresh(span, span_id, parent_id, span.name@, kind));
        }
        self.put(span);
        span_id
    }

    /// Marks a stored span ended with the given status; other spans are
    /// left as they are.
    fn end_span(&mut self, id: u128, status: SpanStatus)
        ensures
            match span_of(old(self).span_seq(), id) {
                Some(s) => final(self).span_seq() == put_span(
                    old(self).span_seq(),
                    SpanEntry { status: status, ended: true, ..s },
                ),
                None => final(self).span_seq() == old(self).span_seq(),
            },
    {
        proof {
            use_type_invariant(&*self);
            lemma_span_of(self.spans@, id);
        }
        let ghost before = self.span_seq();
        if let Some(k) = self.index_of(id) {
            proof {
                lemma_span_of_index(before, k as int);
            }
            let e = self.take_at(k);
            let ended = SpanEntry { status, ended: true, ..e };
            self.restore_at(k, ended, Ghost(before));
            proof {
                let c = choose|i: int| 0 <= i < before.len() && before[i].id == id;
                assert(c == k as int);
            }
        }
    }

    /// Marks a stored span completed (and ended); other spans are left as
    /// they are.
    pub fn complete_span(&mut self, id: u128)
        ensures
            match span_of(old(self).span_seq(), id) {
                Some(s) => final(self).span_seq() == put_span(
                    old(self).span_seq(),
                    SpanEntry { status: SpanStatus::Completed, ended: true, ..s },
                ),
                None => final(self).span_seq() == old(self).span_seq(),
            },
    {
        self.end_span(id, SpanStatus::Completed)
    }

    /// Marks a stored span failed with the error (and ended); other spans
    /// are left as they are.
    pub fn fail_span(&mut self, id: u128, error: String)
        ensures
            match span_of(old(self).span_seq(), id) {
                Some(s) => final(self).span_seq() == put_span(
                    old(self).span_seq(),
                    SpanEntry { status: SpanStatus::Failed(error), ended: true, ..s },
                ),
                None => final(self).span_seq() == old(self).span_seq(),
            },
    {
        self.end_span(id, SpanStatus::Failed(error))
    }
}


/// A new trace id: a random UUID, never the nil one.
pub fn new_trace_id() -> (r: u128)
    ensures
        r != 0,
{
    new_id()
}

/// The ids of the stored spans.
pub open spec fn stored_ids(ss: Seq<SpanEntry>) -> Set<u128> {
    Set::new(|x: u128| span_of(ss, x) is Some)
}

/// A store holds finitely many ids.
pub proof fn lemma_stored_ids_finite(ss: Seq<SpanEntry>)
    ensures
        stored_ids(ss).finite(),
    decreases ss.len(),
{
    if ss.len() == 0 {
        assert(stored_ids(ss) =~= Set::<u128>::empty());
    } else {
        lemma_stored_ids_finite(ss.drop_last());
        assert(stored_ids(ss) =~= stored_ids(ss.drop_last()).insert(ss.last().id));
    }
}

/// The depth-first walk over the spans from a stack of ids: the top id is
/// taken off and passed over once seen; otherwise it is marked seen and,
/// when it is stored, its children go on the stack (the last one on top)
/// and it joins the result. Gives the ids collected, in order.
pub open spec fn tree_walk(ss: Seq<SpanEntry>, stack: Seq<u128>, visited: Set<u128>, result: Seq<u128>) -> Seq<u128>
    decreases (stored_ids(ss) - visited).len(), stack.len(),
{
    if stack.len() == 0 {
        result
    } else {
        let id = stack.last();
        let rest = stack.drop_last();
        if visited.contains(id) {
            tree_walk(ss, rest, visited, result)
        } else {
            proof {
                lemma_stored_ids_finite(ss);
                if span_of(ss, id) is Some {
                    assert((stored_ids(ss) - visited.insert(id)) =~= (stored_ids(ss) - visited).remove(id));
                } else {
                    assert((stored_ids(ss) - visited.insert(id)) =~= (stored_ids(ss) - visited));
                }
            }
            match span_of(ss, id) {
                Some(sp) => tree_walk(ss, rest + sp.children@, visited.insert(id), result.push(id)),
                None => tree_walk(ss, rest, visited.insert(id), result),
            }
        }
    }
}

impl SpanStore {
    /// The ids of the trace tree under `root`, found depth-first: a span
    /// taken from the stack is passed over once seen; otherwise, when it is
    /// stored, its children go on the stack and it joins the tree.
    pub fn collect_trace_tree(&self, root: u128) -> (r: Vec<u128>)
        ensures
            trace_tree(self.span_seq(), root, r@),
            r@ == tree_walk(self.span_seq(), seq![root], Set::empty(), Seq::empty()),
    {
        let ghost ss = self.span_seq();
        proof {
            lemma_stored_ids_finite(ss);
        }
        let mut result: Vec<u128> = Vec::new();
        let mut to_visit: Vec<u128> = Vec::new();
        to_visit.push(root);
        proof {
            lemma_reach_root(ss, root);
        }
        let mut visited: HashSet<u128> = HashSet::new();
        let ghost target = tree_walk(ss, seq![root], Set::empty(), Seq::empty());
        proof {
            assert(to_visit@ =~= seq![root]);
            assert(visited@ =~= Set::<u128>::empty());
            assert(result@ =~= Seq::<u128>::empty());
        }
        loop
            invariant_except_break
                tree_walk(ss, to_visit@, visited@, result@) == target,
                visited@.contains(root) || (to_visit@ == seq![root] && visited@ =~= Set::<u128>::empty()
                    && result@.len() == 0),
                forall|x: u128, c: u128| visited@.contains(x) && #[trigger] child_step(ss, x, c) ==> visited@.contains(c)
                    || to_visit@.contains(c),
                forall|k: int| 0 <= k < to_visit@.len() ==> reaches(ss, root, #[trigger] to_visit@[k]),
            invariant
                ss == self.span_seq(),
                stored_ids(ss).finite(),
                result@.no_duplicates(),
                forall|x: u128| result@.contains(x) <==> (visited@.contains(x) && span_of(ss, x) is Some),
                forall|x: u128| #[trigger] visited@.contains(x) ==> reaches(ss, root, x),
                span_of(ss, root) is Some && visited@.contains(root) ==> result@.len() > 0 && result@[0] == root,
            ensures
                visited@.contains(root),
                closed_under_children(ss, visited@),
                result@ == target,
            decreases (stored_ids(ss) - visited@).len(), to_visit@.len(),
        {
            let ghost before_stack = to_visit@;
            let ghost before_visited = visited@;
            let ghost r0 = result@;
            assert(forall|x: u128| r0.contains(x) <==> (before_visited.contains(x) && span_of(ss, x) is Some));
            let id = match to_visit.pop() {
                Some(x) => x,
                None => {
                    proof {
                        assert(to_visit@.len() == 0);
                        assert forall|x: u128, c: u128| visited@.contains(x) && #[trigger] child_step(ss, x, c)
                            implies visited@.contains(c) by {
                            assert(!to_visit@.contains(c));
                        }
                    }
                    break;
                },
            };
            proof {
                assert(to_visit@ =~= before_stack.drop_last());
                assert(id == before_stack.last());
                assert(reaches(ss, root, before_stack[before_stack.len() - 1]));
                assert forall|c: u128| #[trigger] before_stack.contains(c) implies to_visit@.contains(c) || c == id by {
                    let k = choose|k: int| 0 <= k < before_stack.len() && before_stack[k] == c;
                    if k < before_stack.len() - 1 {
                        assert(to_visit@[k] == c);
                    }
                }
            }
            if visited.contains(&id) {
                continue;
            }
            visited.insert(id);
            proof {
                assert(visited@ =~= before_visited.insert(id));
                if span_of(ss, id) is Some {
                    assert(stored_ids(ss).contains(id));
                    assert((stored_ids(ss) - visited@) =~= (stored_ids(ss) - before_visited).remove(id));
                } else {
                    assert((stored_ids(ss) - visited@) =~= (stored_ids(ss) - before_visited));
                }
            }
            match self.get_span(id) {
                Some(span) => {
                    let ghost mid_stack = to_visit@;
                    let mut i: usize = 0;
                    while i < span.children.len()
                        invariant
                            i <= span.children@.len(),
                            to_visit@ == mid_stack + span.children@.take(i as int),
                        decreases span.children@.len() - i,
                    {
                        to_visit.push(span.children[i]);
                        i = i + 1;
                        assert(to_visit@ =~= mid_stack + span.children@.take(i as int));
                    }
                    assert(span.children@.take(span.children@.len() as int) =~= span.children@);
                    let ghost before_result = result@;
                    result.push(id);
                    proof {
                        assert forall|k: int| 0 <= k < to_visit@.len() implies reaches(ss, root, #[trigger] to_visit@[k]) by {
                            if k < mid_stack.len() {
                                assert(to_visit@[k] == mid_stack[k]);
                                assert(mid_stack[k] == before_stack[k]);
                            } else {
                                let c = span.children@[k - mid_stack.len()];
                                assert(to_visit@[k] == c);
                                assert(child_step(ss, id, c));
                                lemma_reach_child(ss, root, id, c);
                            }
                        }
                        assert forall|x: u128, c: u128| visited@.contains(x) && #[trigger] child_step(ss, x, c)
                            implies visited@.contains(c) || to_visit@.contains(c) by {
                            if x == id {
                                let j = choose|j: int| 0 <= j < span.children@.len() && span.children@[j] == c;
                                assert(to_visit@[mid_stack.len() + j] == c);
                            } else {
                                assert(before_visited.contains(x));
                                if before_stack.contains(c) && c != id {
                                    let k = choose|k: int| 0 <= k < mid_stack.len() && mid_stack[k] == c;
                                    assert(to_visit@[k] == c);
                                }
                            }
                        }
                        assert(before_result == r0);
                        assert(!before_result.contains(id));
                        assert(result@ == before_result.push(id));
                        assert forall|x: u128| result@.contains(x) <==> (visited@.contains(x) && span_of(ss, x) is Some) by {
                            if x == id {
                                assert(result@[result@.len() - 1] == id);
                            } else {
                                if result@.contains(x) {
                                    let k = choose|k: int| 0 <= k < result@.len() && result@[k] == x;
                                    assert(k < before_result.len());
                                    assert(before_result[k] == x);
                                    assert(r0.contains(x));
                                }
                                if visited@.contains(x) && span_of(ss, x) is Some {
                                    assert(before_visited.contains(x));
                                    assert(r0.contains(x));
                                    let k = choose|k: int| 0 <= k < before_result.len() && before_result[k] == x;
                                    assert(result@[k] == x);
                                }
                            }
                        }
                        if id == root {
                            assert(result@[0] == root);
                        }
                    }
                },
                None => {},
            }
        }
        proof {
            assert forall|id: u128| #[trigger] reaches(ss, root, id) && span_of(ss, id) is Some implies result@.contains(id) by {
                lemma_reached_in_closed(ss, visited@, root, id);
            }
            if span_of(ss, root) is None && result@.len() > 0 {
                assert(result@.contains(result@[0]));
                lemma_unstored_root(ss, root, result@[0]);
            }
            assert(result@.no_duplicates());
            assert forall|k: int| 0 <= k < result@.len() implies span_of(ss, #[trigger] result@[k]) is Some by {
                assert(result@.contains(result@[k]));
            }
            assert forall|k: int| 0 <= k < result@.len() implies reaches(ss, root, #[trigger] result@[k]) by {
                assert(result@.contains(result@[k]));
                assert(visited@.contains(result@[k]));
            }
            assert(span_of(ss, root) is Some ==> result@.len() > 0 && result@[0] == root);
            assert(span_of(ss, root) is None ==> result@.len() == 0);
        }
        result
    }
}

/// A text with its dashes left out.
pub open spec fn strip_dashes(s: Seq<char>) -> Seq<char>
    decreases s.len(),
{
    if s.len() == 0 {
        s
    } else if s.last() == '-' {
        strip_dashes(s.drop_last())
    } else {
        strip_dashes(s.drop_last()).push(s.last())
    }
}

/// The flowchart node of a span: `N` and its id without dashes.
pub open spec fn node_label(id: u128) -> Seq<char> {
    "N"@ + strip_dashes(uuid_text(id))
}

/// The flowchart line of a span: its node, labelled with its name, drawn
/// from its parent's node when it has a parent.
pub open spec fn mermaid_line(s: SpanEntry) -> Seq<char> {
    let label = node_label(s.id) + "[\""@ + s.name@ + "\"]"@;
    match s.parent_id {
        Some(p) => "    "@ + node_label(p) + " --> "@ + label + "\n"@,
        None => "    "@ + label + "\n"@,
    }
}

/// The flowchart lines of the spans with the given ids, in order.
pub open spec fn mermaid_body(ss: Seq<SpanEntry>, ids: Seq<u128>) -> Seq<char>
    decreases ids.len(),
{
    if ids.len() == 0 {
        Seq::empty()
    } else {
        mermaid_body(ss, ids.drop_last()) + mermaid_line(span_of(ss, ids.last())->0)
    }
}

/// The number of spans that have not ended.
pub open spec fn active_count(ss: Seq<SpanEntry>) -> nat
    decreases ss.len(),
{
    if ss.len() == 0 {
        0
    } else {
        active_count(ss.drop_last()) + if ss.last().ended {
            0nat
        } else {
            1nat
        }
    }
}

/// The ids of the spans without a parent, in order.
pub open spec fn root_ids(ss: Seq<SpanEntry>) -> Seq<u128>
    decreases ss.len(),
{
    if ss.len() == 0 {
        Seq::empty()
    } else if ss.last().parent_id is None {
        root_ids(ss.drop_last()).push(ss.last().id)
    } else {
        root_ids(ss.drop_last())
    }
}

/// Appends the id of a span to a text, without dashes.
fn push_node_label(out: &mut String, id: u128)
    ensures
        final(out)@ == old(out)@ + node_label(id),
{
    push_char(out, 'N');
    proof {
        reveal_strlit("N");
    }
    let text = id_to_string(id);
    let cs = crate::text::chars_of(text.as_str());
    let ghost base = out@;
    let mut i: usize = 0;
    while i < cs.len()
        invariant
            i <= cs@.len(),
            cs@ == uuid_text(id),
            out@ == base + strip_dashes(cs@.take(i as int)),
        decreases cs@.len() - i,
    {
        assert(cs@.take(i + 1).drop_last() =~= cs@.take(i as int));
        if cs[i] != '-' {
            push_char(out, cs[i]);
        }
        i = i + 1;
    }
    assert(cs@.take(cs@.len() as int) =~= cs@);
    assert(out@ =~= old(out)@ + node_label(id));
}

impl SpanStore {
    /// The trace tree under `root` as a Mermaid flowchart: a header line,
    /// then one line per span of the tree, in the order the depth-first
    /// walk collects them (none when the root is not stored).
    pub fn export_mermaid(&self, root: u128) -> (r: Option<String>)
        ensures
            span_of(self.span_seq(), root) is None ==> r is None,
            span_of(self.span_seq(), root) is Some ==> (r matches Some(m) && exists|ids: Seq<u128>|
                trace_tree(self.span_seq(), root, ids) && m@ == "flowchart TD\n"@ + mermaid_body(self.span_seq(), ids)),
            span_of(self.span_seq(), root) is Some ==> (r matches Some(m) && m@ == "flowchart TD\n"@ + mermaid_body(
                self.span_seq(),
                tree_walk(self.span_seq(), seq![root], Set::empty(), Seq::empty()),
            )),
    {
        let ids = self.collect_trace_tree(root);
        if ids.len() == 0 {
            return None;
        }
        let ghost ss = self.span_seq();
        let mut out = String::from_str("flowchart TD\n");
        let mut i: usize = 0;
        while i < ids.len()
            invariant
                i <= ids@.len(),
                ss == self.span_seq(),
                trace_tree(ss, root, ids@),
                out@ == "flowchart TD\n"@ + mermaid_body(ss, ids@.take(i as int)),
            decreases ids@.len() - i,
        {
            assert(ids@.take(i + 1).drop_last() =~= ids@.take(i as int));
            assert(span_of(ss, ids@[i as int]) is Some);
            let span = match self.get_span(ids[i]) {
                Some(sp) => sp,
                None => {
                    proof {
                        assert(false);
                    }
                    return None;
                },
            };
            let ghost before = out@;
            out.append("    ");
            match span.parent_id {
                Some(p) => {
                    push_node_label(&mut out, p);
                    out.append(" --> ");
                },
                None => {},
            }
            push_node_label(&mut out, span.id);
            out.append("[\"");
            out.append(span.name.as_str());
            out.append("\"]");
            out.append("\n");
            proof {
                assert(out@ =~= before + mermaid_line(*span));
            }
            i = i + 1;
        }
        assert(ids@.take(ids@.len() as int) =~= ids@);
        Some(out)
    }

    /// The number of spans that have not ended.
    pub fn active_spans(&self) -> (r: usize)
        ensures
            r == active_count(self.span_seq()),
    {
        let mut count: usize = 0;
        let mut i: usize = 0;
        while i < self.spans.len()
            invariant
                i <= self.spans@.len(),
                count == active_count(self.spans@.take(i as int)),
                count <= i,
            decreases self.spans@.len() - i,
        {
            assert(self.spans@.take(i + 1).drop_last() =~= self.spans@.take(i as int));
            if !self.spans[i].ended {
                count = count + 1;
            }
            i = i + 1;
        }
        assert(self.spans@.take(self.spans@.len() as int) =~= self.spans@);
        count
    }

    /// The ids of the spans without a parent.
    pub fn root_spans(&self) -> (r: Vec<u128>)
        ensures
            r@ == root_ids(self.span_seq()),
    {
        let mut out: Vec<u128> = Vec::new();
        let mut i: usize = 0;
        while i < self.spans.len()
            invariant
                i <= self.spans@.len(),
                out@ == root_ids(self.spans@.take(i as int)),
            decreases self.spans@.len() - i,
        {
            assert(self.spans@.take(i + 1).drop_last() =~= self.spans@.take(i as int));
            if self.spans[i].parent_id.is_none() {
                out.push(self.spans[i].id);
            }
            i = i + 1;
        }
        assert(self.spans@.take(self.spans@.len() as int) =~= self.spans@);
        out
    }

    /// Forgets every span.
    pub fn clear(&mut self)
        ensures
            final(self).span_seq() == Seq::<SpanEntry>::empty(),
    {
        self.spans = Vec::new();
    }
}

/// Resets the instrumentation of a collector: every span it holds is
/// forgotten.
pub fn reset(store: &mut SpanStore)
    ensures
        final(store).span_seq() == Seq::<SpanEntry>::empty(),
{
    store.clear();
}

} // verus!
