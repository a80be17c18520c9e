//! Errors of the database service and the HTTP status each is answered
//! with.

use vstd::prelude::*;
use crate::error::{CoreError, core_error_text};
use crate::graph::{GraphError, graph_error_text};
use crate::ids::{id_to_string, uuid_text};

verus! {

broadcast use vstd::string::group_string_axioms;

/// Errors of the service.
#[derive(Debug, Clone, PartialEq, Eq)]
pub enum ApiError {
    /// Node not found.
    NodeNotFound(u128),
    /// Invalid trace id.
    InvalidTraceId(String),
    /// Trace not found.
    TraceNotFound(String),
    /// Invalid request.
    InvalidRequest(String),
    /// Internal service error.
    Internal(String),
    /// Storage error.
    Storage(String),
    /// Serialization error.
    Serialization(String),
    /// Not implemented.
    NotImplemented(String),
}

/// The message of a service error.
pub open spec fn api_error_text(e: ApiError) -> Seq<char> {
    match e {
        ApiError::NodeNotFound(id) => "Node not found: "@ + uuid_text(id),
        ApiError::InvalidRequest(m) => "Invalid request: "@ + m@,
        ApiError::Internal(m) => "Internal error: "@ + m@,
        ApiError::Storage(m) => "Storage error: "@ + m@,
        ApiError::Serialization(m) => "Serialization error: "@ + m@,
        ApiError::NotImplemented(m) => "Not implemented: "@ + m@,
        ApiError::InvalidTraceId(m) => "Invalid trace ID: "@ + m@,
        ApiError::TraceNotFound(m) => "Trace not found: "@ + m@,
    }
}

/// The HTTP status a service error is answered with: 404 when something is
/// not found, 400 for a bad request or trace id, 501 for what is not
/// implemented, 500 otherwise.
pub open spec fn api_error_status(e: ApiError) -> u16 {
    match e {
        ApiError::NodeNotFound(_) => 404,
        ApiError::TraceNotFound(_) => 404,
        ApiError::InvalidRequest(_) => 400,
        ApiError::InvalidTraceId(_) => 400,
        ApiError::NotImplemented(_) => 501,
        _ => 500,
    }
}

impl ApiError {
    /// The message of this error.
    pub fn to_string(&self) -> (r: String)
        ensures
            r@ == api_error_text(*self),
    {
        match self {
            ApiError::NodeNotFound(id) => {
                let t = id_to_string(*id);
                String::from_str("Node not found: ").concat(t.as_str())
            },
            ApiError::InvalidRequest(m) => String::from_str("Invalid request: ").concat(m.as_str()),
            ApiError::Internal(m) => String::from_str("Internal error: ").concat(m.as_str()),
            ApiError::Storage(m) => String::from_str("Storage error: ").concat(m.as_str()),
            ApiError::Serialization(m) => String::from_str("Serialization error: ").concat(m.as_str()),
            ApiError::NotImplemented(m) => String::from_str("Not implemented: ").concat(m.as_str()),
            ApiError::InvalidTraceId(m) => String::from_str("Invalid trace ID: ").concat(m.as_str()),
            ApiError::TraceNotFound(m) => String::from_str("Trace not found: ").concat(m.as_str()),
        }
    }

    /// The HTTP status code this error is answered with.
    pub fn status_code(&self) -> (r: u16)
        ensures
            r == api_error_status(*self),
    {
        match self {
            ApiError::NodeNotFound(_) => 404,
            ApiError::TraceNotFound(_) => 404,
            ApiError::InvalidRequest(_) => 400,
            ApiError::InvalidTraceId(_) => 400,
            ApiError::NotImplemented(_) => 501,
            _ => 500,
        }
    }

    /// A graph error, as the service reports it: a storage error with the
    /// graph error's message.
    pub fn from_graph(e: &GraphError) -> (r: ApiError)
        ensures
            r matches ApiError::Storage(m) && m@ == graph_error_text(*e),
    {
        ApiError::Storage(e.to_string())
    }

    /// A data-model error, as the service reports it: an internal error with
    /// its message.
    pub fn from_core(e: &CoreError) -> (r: ApiError)
        ensures
            r matches ApiError::Internal(m) && m@ == core_error_text(*e),
    {
        ApiError::Internal(e.to_string())
    }
}

} // verus!
