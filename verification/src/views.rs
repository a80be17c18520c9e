//! Views of trace data: counters, export formats and the lifecycle tree.

use vstd::prelude::*;
use crate::text::{lowercase, str_eq, to_lower};
use crate::trace_query::{before, is_before, Instant};

verus! {

broadcast use vstd::string::group_string_axioms;

/// Counters of the trace collector.
#[derive(Debug, Clone, Copy, PartialEq, Eq)]
pub struct Statistics {
    /// Spans created.
    pub spans_created: u64,
    /// Spans completed successfully.
    pub spans_completed: u64,
    /// Spans that failed.
    pub spans_failed: u64,
    /// Checkpoints recorded.
    pub checkpoints: u64,
    /// Spans currently running.
    pub active_spans: usize,
    /// Events recorded.
    pub total_events: usize,
}

impl Statistics {
    /// The spans that finished, successfully or not.
    pub fn total_processed(&self) -> (r: u64)
        requires
            self.spans_completed + self.spans_failed <= u64::MAX,
        ensures
            r == self.spans_completed + self.spans_failed,
    {
        self.spans_completed + self.spans_failed
    }
}

/// Export format of trace data.
#[derive(Debug, Clone, Copy, PartialEq, Eq)]
pub enum ExportFormat {
    /// JSON.
    Json,
    /// Mermaid flowchart.
    Mermaid,
    /// Plain text.
    Text,
}

/// The export format named by a lower-case name.
pub open spec fn export_format_named(name: Seq<char>) -> Option<ExportFormat> {
    if name == "json"@ {
        Some(ExportFormat::Json)
    } else if name == "mermaid"@ {
        Some(ExportFormat::Mermaid)
    } else if name == "text"@ || name == "txt"@ {
        Some(ExportFormat::Text)
    } else {
        None
    }
}

/// The name of an export format.
pub open spec fn export_format_name(f: ExportFormat) -> Seq<char> {
    match f {
        ExportFormat::Json => "json"@,
        ExportFormat::Mermaid => "mermaid"@,
        ExportFormat::Text => "text"@,
    }
}

impl ExportFormat {
    /// Parses a format name, ignoring case (`txt` is plain text).
    pub fn from_str(s: &str) -> (r: Option<ExportFormat>)
        ensures
            r == export_format_named(lowercase(s@)),
    {
        let lower = to_lower(s);
        let l = lower.as_str();
        if str_eq(l, "json") {
            Some(ExportFormat::Json)
        } else if str_eq(l, "mermaid") {
            Some(ExportFormat::Mermaid)
        } else if str_eq(l, "text") || str_eq(l, "txt") {
            Some(ExportFormat::Text)
        } else {
            None
        }
    }

    /// The name of this format.
    pub fn as_str(&self) -> (r: &'static str)
        ensures
            r@ == export_format_name(*self),
    {
        match self {
            ExportFormat::Json => "json",
            ExportFormat::Mermaid => "mermaid",
            ExportFormat::Text => "text",
        }
    }
}

} // verus!

verus! {

/// The lifecycle of a trace: a span with its nested child spans. The
/// timing, arguments and result of each span are kept beside it by the
/// collector; the tree logic reads what is here.
#[derive(Debug)]
pub struct LifecycleView {
    /// Identifier of this span.
    pub id: String,
    /// Span name (typically the function name).
    pub name: String,
    /// Status of the span.
    pub status: String,
    /// Child spans (nested calls).
    pub children: Vec<LifecycleView>,
}

/// The number of spans in a lifecycle tree.
pub open spec fn tree_spans(t: LifecycleView) -> nat
    decreases t, 1nat,
{
    1 + forest_spans(t.children@)
}

/// The number of spans in a list of lifecycle trees.
pub open spec fn forest_spans(s: Seq<LifecycleView>) -> nat
    decreases s, 0nat,
{
    if s.len() == 0 {
        0
    } else {
        forest_spans(s.subrange(0, s.len() - 1)) + tree_spans(s[s.len() - 1])
    }
}

/// The depth of a lifecycle tree: 1 for a span without children.
pub open spec fn tree_depth(t: LifecycleView) -> nat
    decreases t, 1nat,
{
    1 + forest_depth(t.children@)
}

/// The largest depth among a list of lifecycle trees, or 0.
pub open spec fn forest_depth(s: Seq<LifecycleView>) -> nat
    decreases s, 0nat,
{
    if s.len() == 0 {
        0
    } else {
        let a = forest_depth(s.subrange(0, s.len() - 1));
        let b = tree_depth(s[s.len() - 1]);
        if a >= b { a } else { b }
    }
}

impl LifecycleView {
    /// The number of spans in this lifecycle, itself included.
    pub fn span_count(&self) -> (r: usize)
        requires
            tree_spans(*self) <= usize::MAX,
        ensures
            r == tree_spans(*self),
        decreases *self,
    {
        let mut total: usize = 1;
        let mut i: usize = 0;
        assert(self.children@.subrange(0, 0) =~= Seq::<LifecycleView>::empty());
        while i < self.children.len()
            invariant
                tree_spans(*self) <= usize::MAX,
                i <= self.children@.len(),
                total == 1 + forest_spans(self.children@.subrange(0, i as int)),
            decreases self.children@.len() - i,
        {
            let ghost s = self.children@.subrange(0, i + 1);
            assert(s.subrange(0, s.len() - 1) =~= self.children@.subrange(0, i as int));
            proof {
                lemma_forest_spans_prefix(self.children@, i + 1);
            }
            let n = self.children[i].span_count();
            total = total + n;
            i = i + 1;
        }
        assert(self.children@.subrange(0, self.children@.len() as int) =~= self.children@);
        total
    }

    /// The depth of this lifecycle: 1 without children, else one more
    /// than the deepest child.
    pub fn max_depth(&self) -> (r: usize)
        requires
            tree_depth(*self) <= usize::MAX,
        ensures
            r == tree_depth(*self),
        decreases *self,
    {
        let mut deepest: usize = 0;
        let mut i: usize = 0;
        assert(self.children@.subrange(0, 0) =~= Seq::<LifecycleView>::empty());
        while i < self.children.len()
            invariant
                tree_depth(*self) <= usize::MAX,
                i <= self.children@.len(),
                deepest == forest_depth(self.children@.subrange(0, i as int)),
            decreases self.children@.len() - i,
        {
            let ghost s = self.children@.subrange(0, i + 1);
            assert(s.subrange(0, s.len() - 1) =~= self.children@.subrange(0, i as int));
            proof {
                lemma_forest_depth_prefix(self.children@, i + 1);
            }
            let d = self.children[i].max_depth();
            if d > deepest {
                deepest = d;
            }
            i = i + 1;
        }
        assert(self.children@.subrange(0, self.children@.len() as int) =~= self.children@);
        1 + deepest
    }
}

proof fn lemma_forest_spans_prefix(s: Seq<LifecycleView>, n: int)
    requires
        0 <= n <= s.len(),
    ensures
        forest_spans(s.subrange(0, n)) <= forest_spans(s),
        n > 0 ==> tree_spans(s[n - 1]) <= forest_spans(s),
    decreases s.len() - n,
{
    if n < s.len() {
        lemma_forest_spans_prefix(s, n + 1);
        let t = s.subrange(0, n + 1);
        assert(t.subrange(0, t.len() - 1) =~= s.subrange(0, n));
    } else {
        assert(s.subrange(0, n) =~= s);
    }
    if n > 0 {
        let t = s.subrange(0, n);
        assert(t.subrange(0, t.len() - 1) =~= s.subrange(0, n - 1));
    }
}

proof fn lemma_forest_depth_prefix(s: Seq<LifecycleView>, n: int)
    requires
        0 <= n <= s.len(),
    ensures
        forest_depth(s.subrange(0, n)) <= forest_depth(s),
        n > 0 ==> tree_depth(s[n - 1]) <= forest_depth(s),
    decreases s.len() - n,
{
    if n < s.len() {
        lemma_forest_depth_prefix(s, n + 1);
        let t = s.subrange(0, n + 1);
        assert(t.subrange(0, t.len() - 1) =~= s.subrange(0, n));
    } else {
        assert(s.subrange(0, n) =~= s);
    }
    if n > 0 {
        let t = s.subrange(0, n);
        assert(t.subrange(0, t.len() - 1) =~= s.subrange(0, n - 1));
    }
}

/// The spans of a lifecycle tree in pre-order: the span, then the spans of
/// each child in turn.
pub open spec fn tree_preorder(t: LifecycleView) -> Seq<LifecycleView>
    decreases t, 1nat,
{
    seq![t] + forest_preorder(t.children@)
}

/// The spans of a list of lifecycle trees in pre-order.
pub open spec fn forest_preorder(s: Seq<LifecycleView>) -> Seq<LifecycleView>
    decreases s, 0nat,
{
    if s.len() == 0 {
        Seq::empty()
    } else {
        forest_preorder(s.subrange(0, s.len() - 1)) + tree_preorder(s[s.len() - 1])
    }
}

/// The first span in pre-order with the given id.
pub open spec fn tree_find(t: LifecycleView, id: Seq<char>) -> Option<LifecycleView>
    decreases t, 1nat,
{
    if t.id@ == id {
        Some(t)
    } else {
        forest_find(t.children@, id)
    }
}

/// The first span in pre-order, over a list of trees, with the given id.
pub open spec fn forest_find(s: Seq<LifecycleView>, id: Seq<char>) -> Option<LifecycleView>
    decreases s, 0nat,
{
    if s.len() == 0 {
        None
    } else {
        match tree_find(s[0], id) {
            Some(t) => Some(t),
            None => forest_find(s.subrange(1, s.len() as int), id),
        }
    }
}

impl LifecycleView {
    /// All spans of this lifecycle in pre-order.
    pub fn flatten(&self) -> (r: Vec<&LifecycleView>)
        ensures
            r@.len() == tree_preorder(*self).len(),
            forall|k: int| 0 <= k < r@.len() ==> *(#[trigger] r@[k]) == tree_preorder(*self)[k],
        decreases *self,
    {
        let mut out: Vec<&LifecycleView> = Vec::new();
        out.push(self);
        let mut i: usize = 0;
        assert(self.children@.subrange(0, 0) =~= Seq::<LifecycleView>::empty());
        while i < self.children.len()
            invariant
                i <= self.children@.len(),
                out@.len() == 1 + forest_preorder(self.children@.subrange(0, i as int)).len(),
                *out@[0] == *self,
                forall|k: int| 1 <= k < out@.len() ==> *(#[trigger] out@[k]) == forest_preorder(
                    self.children@.subrange(0, i as int),
                )[k - 1],
            decreases self.children@.len() - i,
        {
            let ghost before = out@;
            let ghost s = self.children@.subrange(0, i + 1);
            assert(s.subrange(0, s.len() - 1) =~= self.children@.subrange(0, i as int));
            let sub = self.children[i].flatten();
            let mut j: usize = 0;
            while j < sub.len()
                invariant
                    j <= sub@.len(),
                    out@.len() == before.len() + j,
                    forall|k: int| 0 <= k < before.len() ==> out@[k] == before[k],
                    forall|k: int| 0 <= k < j ==> out@[before.len() + k] == sub@[k],
                decreases sub@.len() - j,
            {
                out.push(sub[j]);
                j = j + 1;
            }
            proof {
                let pre = forest_preorder(self.children@.subrange(0, i as int));
                let t = tree_preorder(self.children@[i as int]);
                assert(forest_preorder(s) == pre + t);
                assert forall|k: int| 1 <= k < out@.len() implies *(#[trigger] out@[k]) == forest_preorder(s)[k - 1] by {
                    if k < before.len() {
                        assert(out@[k] == before[k]);
                    } else {
                        assert(out@[before.len() + (k - before.len())] == sub@[k - before.len()]);
                    }
                }
            }
            i = i + 1;
        }
        assert(self.children@.subrange(0, self.children@.len() as int) =~= self.children@);
        out
    }

    /// The first span in pre-order with the given id.
    pub fn find_by_id(&self, id: &str) -> (r: Option<&LifecycleView>)
        ensures
            match r {
                Some(t) => tree_find(*self, id@) == Some(*t),
                None => tree_find(*self, id@) is None,
            },
        decreases *self,
    {
        if str_eq(self.id.as_str(), id) {
            return Some(self);
        }
        let mut i: usize = 0;
        assert(self.children@.subrange(0, self.children@.len() as int) =~= self.children@);
        while i < self.children.len()
            invariant
                i <= self.children@.len(),
                self.id@ != id@,
                forest_find(self.children@, id@) == forest_find(
                    self.children@.subrange(i as int, self.children@.len() as int),
                    id@,
                ),
            decreases self.children@.len() - i,
        {
            let ghost s = self.children@.subrange(i as int, self.children@.len() as int);
            assert(s[0] == self.children@[i as int]);
            assert(s.subrange(1, s.len() as int) =~= self.children@.subrange(i + 1, self.children@.len() as int));
            match self.children[i].find_by_id(id) {
                Some(found) => {
                    return Some(found);
                },
                None => {},
            }
            i = i + 1;
        }
        None
    }
}

} // verus!

verus! {

/// The kind of a trace event.
#[derive(Debug, Clone, Copy, PartialEq, Eq)]
pub enum EventKind {
    /// A span was entered.
    Enter,
    /// A span was exited.
    Exit,
    /// A checkpoint was reached.
    Checkpoint,
    /// An error occurred.
    Error,
    /// A custom event.
    Custom,
}

/// The type name of an event kind.
pub open spec fn event_type_name(k: EventKind) -> Seq<char> {
    match k {
        EventKind::Enter => "enter"@,
        EventKind::Exit => "exit"@,
        EventKind::Checkpoint => "checkpoint"@,
        EventKind::Error => "error"@,
        EventKind::Custom => "custom"@,
    }
}

impl EventKind {
    /// The type name of this kind: `enter`, `exit`, `checkpoint`, `error`
    /// or `custom`.
    pub fn kind_name(&self) -> (r: &'static str)
        ensures
            r@ == event_type_name(*self),
    {
        match self {
            EventKind::Enter => "enter",
            EventKind::Exit => "exit",
            EventKind::Checkpoint => "checkpoint",
            EventKind::Error => "error",
            EventKind::Custom => "custom",
        }
    }
}

/// A trace event as the timeline reads it: its kind, its span and when it
/// happened. (Names, data, results and durations are kept beside it by
/// the collector.)
#[derive(Debug, Clone, Copy, PartialEq, Eq)]
pub struct TraceEventRecord {
    /// The kind of event.
    pub kind: EventKind,
    /// The span the event belongs to.
    pub span_id: u128,
    /// When it happened.
    pub timestamp: Instant,
}

/// The events of the given type name, in order.
pub open spec fn events_of_type(es: Seq<TraceEventRecord>, name: Seq<char>) -> Seq<TraceEventRecord>
    decreases es.len(),
{
    if es.len() == 0 {
        Seq::empty()
    } else {
        let rest = events_of_type(es.drop_last(), name);
        if event_type_name(es.last().kind) == name {
            rest.push(es.last())
        } else {
            rest
        }
    }
}

/// Whether an instant lies in a range, both ends included.
pub open spec fn within(t: Instant, start: Instant, end: Instant) -> bool {
    !before(t, start) && !before(end, t)
}

/// The events that happened in a range of time, both ends included, in
/// order.
pub open spec fn events_within(es: Seq<TraceEventRecord>, start: Instant, end: Instant) -> Seq<TraceEventRecord>
    decreases es.len(),
{
    if es.len() == 0 {
        Seq::empty()
    } else {
        let rest = events_within(es.drop_last(), start, end);
        if within(es.last().timestamp, start, end) {
            rest.push(es.last())
        } else {
            rest
        }
    }
}

/// The number of events of a kind.
pub open spec fn count_kind(es: Seq<TraceEventRecord>, k: EventKind) -> nat
    decreases es.len(),
{
    if es.len() == 0 {
        0
    } else {
        count_kind(es.drop_last(), k) + if es.last().kind == k {
            1nat
        } else {
            0nat
        }
    }
}

proof fn lemma_count_kind_bound(es: Seq<TraceEventRecord>, k: EventKind)
    ensures
        count_kind(es, k) <= es.len(),
    decreases es.len(),
{
    if es.len() > 0 {
        lemma_count_kind_bound(es.drop_last(), k);
    }
}

/// The number of events of each type in a timeline; a type with no event
/// has no entry.
#[derive(Debug, Clone, Copy, PartialEq, Eq)]
pub struct EventCounts {
    /// Enter events.
    pub enter: usize,
    /// Exit events.
    pub exit: usize,
    /// Checkpoint events.
    pub checkpoint: usize,
    /// Error events.
    pub error: usize,
    /// Custom events.
    pub custom: usize,
}

/// The count that the type name stands for, if it names a type.
pub open spec fn count_named(c: EventCounts, name: Seq<char>) -> Option<usize> {
    if name == "enter"@ {
        Some(c.enter)
    } else if name == "exit"@ {
        Some(c.exit)
    } else if name == "checkpoint"@ {
        Some(c.checkpoint)
    } else if name == "error"@ {
        Some(c.error)
    } else if name == "custom"@ {
        Some(c.custom)
    } else {
        None
    }
}

impl EventCounts {
    /// The count of the events of a type, absent when there is none (or
    /// the name is no event type).
    pub fn get(&self, kind_name: &str) -> (r: Option<usize>)
        ensures
            r == (match count_named(*self, kind_name@) {
                Some(n) => if n > 0 {
                    Some(n)
                } else {
                    None
                },
                None => None,
            }),
    {
        let n = if str_eq(kind_name, "enter") {
            self.enter
        } else if str_eq(kind_name, "exit") {
            self.exit
        } else if str_eq(kind_name, "checkpoint") {
            self.checkpoint
        } else if str_eq(kind_name, "error") {
            self.error
        } else if str_eq(kind_name, "custom") {
            self.custom
        } else {
            0
        };
        if n > 0 {
            Some(n)
        } else {
            None
        }
    }
}

/// The events of a trace in chronological order. (The total duration, a
/// floating point number, is kept beside it by the collector.)
#[derive(Debug, Clone, PartialEq, Eq)]
pub struct TimelineView {
    /// Trace identifier.
    pub trace_id: String,
    /// Events in chronological order.
    pub events: Vec<TraceEventRecord>,
}

impl TimelineView {
    /// The events of a type (`enter`, `exit`, `checkpoint`, `error` or
    /// `custom`), in order; none for any other name.
    pub fn filter_by_type(&self, event_type: &str) -> (r: Vec<&TraceEventRecord>)
        ensures
            r@.map_values(|e: &TraceEventRecord| *e) == events_of_type(self.events@, event_type@),
    {
        let mut out: Vec<&TraceEventRecord> = Vec::new();
        let mut i: usize = 0;
        while i < self.events.len()
            invariant
                i <= self.events@.len(),
                out@.map_values(|e: &TraceEventRecord| *e) == events_of_type(self.events@.take(i as int), event_type@),
            decreases self.events@.len() - i,
        {
            let ghost before = out@;
            assert(self.events@.take(i + 1).drop_last() =~= self.events@.take(i as int));
            let e = &self.events[i];
            if str_eq(e.kind.kind_name(), event_type) {
                out.push(e);
                assert(out@.map_values(|e: &TraceEventRecord| *e) =~= before.map_values(|e: &TraceEventRecord| *e).push(*e));
            }
            i = i + 1;
        }
        assert(self.events@.take(self.events@.len() as int) =~= self.events@);
        out
    }

    /// The checkpoint events, in order.
    pub fn checkpoints(&self) -> (r: Vec<&TraceEventRecord>)
        ensures
            r@.map_values(|e: &TraceEventRecord| *e) == events_of_type(self.events@, "checkpoint"@),
    {
        self.filter_by_type("checkpoint")
    }

    /// The error events, in order.
    pub fn errors(&self) -> (r: Vec<&TraceEventRecord>)
        ensures
            r@.map_values(|e: &TraceEventRecord| *e) == events_of_type(self.events@, "error"@),
    {
        self.filter_by_type("error")
    }

    /// The events that happened from `start` to `end`, both included, in
    /// order.
    pub fn in_time_range(&self, start: Instant, end: Instant) -> (r: Vec<&TraceEventRecord>)
        ensures
            r@.map_values(|e: &TraceEventRecord| *e) == events_within(self.events@, start, end),
    {
        let mut out: Vec<&TraceEventRecord> = Vec::new();
        let mut i: usize = 0;
        while i < self.events.len()
            invariant
                i <= self.events@.len(),
                out@.map_values(|e: &TraceEventRecord| *e) == events_within(self.events@.take(i as int), start, end),
            decreases self.events@.len() - i,
        {
            let ghost before = out@;
            assert(self.events@.take(i + 1).drop_last() =~= self.events@.take(i as int));
            let e = &self.events[i];
            if !is_before(e.timestamp, start) && !is_before(end, e.timestamp) {
                out.push(e);
                assert(out@.map_values(|e: &TraceEventRecord| *e) =~= before.map_values(|e: &TraceEventRecord| *e).push(*e));
            }
            i = i + 1;
        }
        assert(self.events@.take(self.events@.len() as int) =~= self.events@);
        out
    }

    /// The number of events of each type.
    pub fn count_by_type(&self) -> (r: EventCounts)
        ensures
            r.enter == count_kind(self.events@, EventKind::Enter),
            r.exit == count_kind(self.events@, EventKind::Exit),
            r.checkpoint == count_kind(self.events@, EventKind::Checkpoint),
            r.error == count_kind(self.events@, EventKind::Error),
            r.custom == count_kind(self.events@, EventKind::Custom),
    {
        let mut c = EventCounts { enter: 0, exit: 0, checkpoint: 0, error: 0, custom: 0 };
        let mut i: usize = 0;
        while i < self.events.len()
            invariant
                i <= self.events@.len(),
                c.enter == count_kind(self.events@.take(i as int), EventKind::Enter),
                c.exit == count_kind(self.events@.take(i as int), EventKind::Exit),
                c.checkpoint == count_kind(self.events@.take(i as int), EventKind::Checkpoint),
                c.error == count_kind(self.events@.take(i as int), EventKind::Error),
                c.custom == count_kind(self.events@.take(i as int), EventKind::Custom),
            decreases self.events@.len() - i,
        {
            let ghost s = self.events@.take(i + 1);
            assert(s.drop_last() =~= self.events@.take(i as int));
            proof {
                lemma_count_kind_bound(s, EventKind::Enter);
                lemma_count_kind_bound(s, EventKind::Exit);
                lemma_count_kind_bound(s, EventKind::Checkpoint);
                lemma_count_kind_bound(s, EventKind::Error);
                lemma_count_kind_bound(s, EventKind::Custom);
            }
            match self.events[i].kind {
                EventKind::Enter => {
                    c.enter = c.enter + 1;
                },
                EventKind::Exit => {
                    c.exit = c.exit + 1;
                },
                EventKind::Checkpoint => {
                    c.checkpoint = c.checkpoint + 1;
                },
                EventKind::Error => {
                    c.error = c.error + 1;
                },
                EventKind::Custom => {
                    c.custom = c.custom + 1;
                },
            }
            i = i + 1;
        }
        assert(self.events@.take(self.events@.len() as int) =~= self.events@);
        c
    }
}

} // verus!
