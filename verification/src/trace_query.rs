//! Queries over recorded trace spans: a filter on a span's id, name, kind
//! and times, with a limit and an offset for paging.

use vstd::prelude::*;
use crate::service::{find_infix, has_infix};
use crate::span::SpanKind;
use crate::text::{chars_of, str_eq};

verus! {

broadcast use vstd::string::group_string_axioms;

/// An instant: seconds and nanoseconds since the Unix epoch.
#[derive(Debug, Clone, Copy, PartialEq, Eq)]
pub struct Instant {
    /// Whole seconds.
    pub secs: i64,
    /// Nanoseconds within the second.
    pub nanos: u32,
}

/// `a` comes before `b`: instants are ordered by seconds, then
/// nanoseconds.
pub open spec fn before(a: Instant, b: Instant) -> bool {
    a.secs < b.secs || (a.secs == b.secs && a.nanos < b.nanos)
}

/// Whether `a` comes before `b`.
pub fn is_before(a: Instant, b: Instant) -> (r: bool)
    ensures
        r == before(a, b),
{
    a.secs < b.secs || (a.secs == b.secs && a.nanos < b.nanos)
}

/// What a filter reads of a span: its id as text, its name and kind, when
/// it started and, once it has, when it ended. (Its duration, a floating
/// point number, is checked beside the filter by the collector.)
#[derive(Debug, Clone, PartialEq, Eq)]
pub struct SpanFacts {
    /// The span id, as text.
    pub id_text: String,
    /// The span name.
    pub name: String,
    /// The span kind.
    pub kind: SpanKind,
    /// The start time.
    pub start: Instant,
    /// The end time, once completed.
    pub end: Option<Instant>,
}

/// Filter for querying traces (the duration range, floating point, is
/// applied beside it by the collector).
#[derive(Debug, Clone, PartialEq, Eq)]
pub struct QueryFilter {
    /// Filter by trace id.
    pub trace_id: Option<String>,
    /// Filter by a part of the span name.
    pub name: Option<String>,
    /// Filter by span kind.
    pub kind: Option<SpanKind>,
    /// Filter by earliest start time.
    pub start_after: Option<Instant>,
    /// Filter by latest end time.
    pub end_before: Option<Instant>,
    /// Maximum number of results.
    pub limit: Option<usize>,
    /// Offset for pagination.
    pub offset: Option<usize>,
}

/// The filter that lets every span through.
pub open spec fn open_filter() -> QueryFilter {
    QueryFilter {
        trace_id: None,
        name: None,
        kind: None,
        start_after: None,
        end_before: None,
        limit: None,
        offset: None,
    }
}

/// Whether a filter lets a span through: its id is the one asked for, its
/// name contains the text asked for, its kind is the one asked for, it did
/// not start before the earliest start, and it ended (or, still running,
/// `now` is) no later than the latest end.
pub open spec fn admits(f: QueryFilter, s: SpanFacts, now: Instant) -> bool {
    &&& f.trace_id matches Some(t) ==> s.id_text@ == t@
    &&& f.name matches Some(n) ==> has_infix(s.name@, n@)
    &&& f.kind matches Some(k) ==> kinds_agree(s.kind, k)
    &&& f.start_after matches Some(st) ==> !before(s.start, st)
    &&& f.end_before matches Some(e) ==> !before(
        e,
        match s.end {
            Some(t) => t,
            None => now,
        },
    )
}

/// Two span kinds are the same kind (custom kinds by their names).
pub open spec fn kinds_agree(a: SpanKind, b: SpanKind) -> bool {
    match (a, b) {
        (SpanKind::Function, SpanKind::Function) => true,
        (SpanKind::AsyncTask, SpanKind::AsyncTask) => true,
        (SpanKind::DatabaseQuery, SpanKind::DatabaseQuery) => true,
        (SpanKind::ExternalCall, SpanKind::ExternalCall) => true,
        (SpanKind::Internal, SpanKind::Internal) => true,
        (SpanKind::Custom(x), SpanKind::Custom(y)) => x@ == y@,
        _ => false,
    }
}

/// Whether two span kinds are the same.
pub fn same_kind(a: &SpanKind, b: &SpanKind) -> (r: bool)
    ensures
        r == kinds_agree(*a, *b),
{
    match (a, b) {
        (SpanKind::Function, SpanKind::Function) => true,
        (SpanKind::AsyncTask, SpanKind::AsyncTask) => true,
        (SpanKind::DatabaseQuery, SpanKind::DatabaseQuery) => true,
        (SpanKind::ExternalCall, SpanKind::ExternalCall) => true,
        (SpanKind::Internal, SpanKind::Internal) => true,
        (SpanKind::Custom(x), SpanKind::Custom(y)) => str_eq(x.as_str(), y.as_str()),
        _ => false,
    }
}

impl QueryFilter {
    /// A filter that lets every span through.
    pub fn new() -> (r: QueryFilter)
        ensures
            r == open_filter(),
    {
        QueryFilter {
            trace_id: None,
            name: None,
            kind: None,
            start_after: None,
            end_before: None,
            limit: None,
            offset: None,
        }
    }

    /// A builder starting from the open filter.
    pub fn builder() -> (r: QueryFilterBuilder)
        ensures
            r.filter == open_filter(),
    {
        QueryFilterBuilder { filter: QueryFilter::new() }
    }

    /// This filter with a trace id filter.
    pub fn with_trace_id(self, trace_id: String) -> (r: QueryFilter)
        ensures
            r == (QueryFilter { trace_id: Some(trace_id), ..self }),
    {
        QueryFilter { trace_id: Some(trace_id), ..self }
    }

    /// This filter with a name filter.
    pub fn with_name(self, name: String) -> (r: QueryFilter)
        ensures
            r == (QueryFilter { name: Some(name), ..self }),
    {
        QueryFilter { name: Some(name), ..self }
    }

    /// This filter with a kind filter.
    pub fn with_kind(self, kind: SpanKind) -> (r: QueryFilter)
        ensures
            r == (QueryFilter { kind: Some(kind), ..self }),
    {
        QueryFilter { kind: Some(kind), ..self }
    }

    /// This filter with an earliest start time.
    pub fn with_start_after(self, start: Instant) -> (r: QueryFilter)
        ensures
            r == (QueryFilter { start_after: Some(start), ..self }),
    {
        QueryFilter { start_after: Some(start), ..self }
    }

    /// This filter with a latest end time.
    pub fn with_end_before(self, end: Instant) -> (r: QueryFilter)
        ensures
            r == (QueryFilter { end_before: Some(end), ..self }),
    {
        QueryFilter { end_before: Some(end), ..self }
    }

    /// This filter with a limit.
    pub fn with_limit(self, limit: usize) -> (r: QueryFilter)
        ensures
            r == (QueryFilter { limit: Some(limit), ..self }),
    {
        QueryFilter { limit: Some(limit), ..self }
    }

    /// This filter with an offset.
    pub fn with_offset(self, offset: usize) -> (r: QueryFilter)
        ensures
            r == (QueryFilter { offset: Some(offset), ..self }),
    {
        QueryFilter { offset: Some(offset), ..self }
    }

    /// Whether this filter lets a span through, `now` standing for the end
    /// of a span still running.
    pub fn matches(&self, span: &SpanFacts, now: Instant) -> (r: bool)
        ensures
            r == admits(*self, *span, now),
    {
        if let Some(trace_id) = &self.trace_id {
            if !str_eq(span.id_text.as_str(), trace_id.as_str()) {
                return false;
            }
        }
        if let Some(name) = &self.name {
            let hay = chars_of(span.name.as_str());
            let needle = chars_of(name.as_str());
            if !find_infix(&hay, &needle) {
                return false;
            }
        }
        if let Some(kind) = &self.kind {
            if !same_kind(&span.kind, kind) {
                return false;
            }
        }
        if let Some(start) = self.start_after {
            if is_before(span.start, start) {
                return false;
            }
        }
        if let Some(end) = self.end_before {
            let last = match span.end {
                Some(t) => t,
                None => now,
            };
            if is_before(end, last) {
                return false;
            }
        }
        true
    }
}

impl Default for QueryFilter {
    fn default() -> (r: QueryFilter)
        ensures
            r == open_filter(),
    {
        QueryFilter::new()
    }
}

/// Builder of query filters.
#[derive(Debug, Clone, PartialEq, Eq)]
pub struct QueryFilterBuilder {
    /// The filter built so far.
    pub filter: QueryFilter,
}

impl QueryFilterBuilder {
    /// The filter built.
    pub fn build(self) -> (r: QueryFilter)
        ensures
            r == self.filter,
    {
        self.filter
    }

    /// Sets the trace id filter.
    pub fn trace_id(self, trace_id: String) -> (r: QueryFilterBuilder)
        ensures
            r.filter == (QueryFilter { trace_id: Some(trace_id), ..self.filter }),
    {
        QueryFilterBuilder { filter: self.filter.with_trace_id(trace_id) }
    }

    /// Sets the name filter.
    pub fn name(self, name: String) -> (r: QueryFilterBuilder)
        ensures
            r.filter == (QueryFilter { name: Some(name), ..self.filter }),
    {
        QueryFilterBuilder { filter: self.filter.with_name(name) }
    }

    /// Sets the kind filter.
    pub fn kind(self, kind: SpanKind) -> (r: QueryFilterBuilder)
        ensures
            r.filter == (QueryFilter { kind: Some(kind), ..self.filter }),
    {
        QueryFilterBuilder { filter: self.filter.with_kind(kind) }
    }

    /// Sets the time range.
    pub fn time_range(self, start: Instant, end: Instant) -> (r: QueryFilterBuilder)
        ensures
            r.filter == (QueryFilter { start_after: Some(start), end_before: Some(end), ..self.filter }),
    {
        QueryFilterBuilder { filter: self.filter.with_start_after(start).with_end_before(end) }
    }

    /// Sets the limit.
    pub fn limit(self, limit: usize) -> (r: QueryFilterBuilder)
        ensures
            r.filter == (QueryFilter { limit: Some(limit), ..self.filter }),
    {
        QueryFilterBuilder { filter: self.filter.with_limit(limit) }
    }

    /// Sets the offset.
    pub fn offset(self, offset: usize) -> (r: QueryFilterBuilder)
        ensures
            r.filter == (QueryFilter { offset: Some(offset), ..self.filter }),
    {
        QueryFilterBuilder { filter: self.filter.with_offset(offset) }
    }
}

} // verus!
