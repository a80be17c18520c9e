//! Status and kind of instrumentation spans.

use vstd::prelude::*;
use crate::text::{lowercase, str_eq, to_lower};

verus! {

broadcast use vstd::string::group_string_axioms;

/// Status of a span.
#[derive(Debug, Clone, PartialEq, Eq)]
pub enum SpanStatus {
    /// The span is running.
    Running,
    /// The span completed successfully.
    Completed,
    /// The span failed with an error.
    Failed(String),
    /// The span was cancelled.
    Cancelled,
}

impl SpanStatus {
    /// Whether the span completed successfully.
    pub fn is_success(&self) -> (r: bool)
        ensures
            r == (*self is Completed),
    {
        match self {
            SpanStatus::Completed => true,
            _ => false,
        }
    }

    /// Whether the span failed.
    pub fn is_failure(&self) -> (r: bool)
        ensures
            r == (*self is Failed),
    {
        match self {
            SpanStatus::Failed(_) => true,
            _ => false,
        }
    }

    /// Whether the span is still running.
    pub fn is_running(&self) -> (r: bool)
        ensures
            r == (*self is Running),
    {
        match self {
            SpanStatus::Running => true,
            _ => false,
        }
    }
}

impl Default for SpanStatus {
    fn default() -> (r: SpanStatus)
        ensures
            r is Running,
    {
        SpanStatus::Running
    }
}

/// Kind of a span.
#[derive(Debug, Clone, PartialEq, Eq)]
pub enum SpanKind {
    /// Regular function call.
    Function,
    /// Asynchronous task.
    AsyncTask,
    /// Database query.
    DatabaseQuery,
    /// External API call.
    ExternalCall,
    /// Internal component.
    Internal,
    /// Any other kind, by name.
    Custom(String),
}

impl Default for SpanKind {
    fn default() -> (r: SpanKind)
        ensures
            r is Function,
    {
        SpanKind::Function
    }
}

/// The kind named by a lower-case name, with its spellings; `None` for a
/// custom kind.
pub open spec fn known_span_kind(name: Seq<char>) -> Option<SpanKind> {
    if name == "function"@ {
        Some(SpanKind::Function)
    } else if name == "async_task"@ || name == "async-task"@ || name == "asynctask"@ {
        Some(SpanKind::AsyncTask)
    } else if name == "database_query"@ || name == "database-query"@ || name == "database"@ {
        Some(SpanKind::DatabaseQuery)
    } else if name == "external_call"@ || name == "external-call"@ || name == "external"@ {
        Some(SpanKind::ExternalCall)
    } else if name == "internal"@ {
        Some(SpanKind::Internal)
    } else {
        None
    }
}

impl SpanKind {
    /// The kind of a span named `s`, ignoring case: a known kind under any
    /// of its spellings, else a custom kind with the lower-cased name.
    pub fn from_name(s: &str) -> (r: SpanKind)
        ensures
            match known_span_kind(lowercase(s@)) {
                Some(k) => r == k,
                None => r matches SpanKind::Custom(c) && c@ == lowercase(s@),
            },
    {
        let lower = to_lower(s);
        let l = lower.as_str();
        if str_eq(l, "function") {
            SpanKind::Function
        } else if str_eq(l, "async_task") || str_eq(l, "async-task") || str_eq(l, "asynctask") {
            SpanKind::AsyncTask
        } else if str_eq(l, "database_query") || str_eq(l, "database-query") || str_eq(l, "database") {
            SpanKind::DatabaseQuery
        } else if str_eq(l, "external_call") || str_eq(l, "external-call") || str_eq(l, "external") {
            SpanKind::ExternalCall
        } else if str_eq(l, "internal") {
            SpanKind::Internal
        } else {
            SpanKind::Custom(lower)
        }
    }
}

} // verus!
