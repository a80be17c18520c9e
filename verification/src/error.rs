//! Errors of the data model.

use vstd::prelude::*;
use crate::ids::{id_to_string, uuid_text};
use crate::text::{decimal, usize_to_string};

verus! {

/// Core error type. The checks of confidence, weight and access scores are
/// made on floating-point values outside this library, with their own error
/// values.
#[derive(Debug, Clone, PartialEq)]
pub enum CoreError {
    /// Invalid node ID format.
    InvalidNodeId(String),
    /// Invalid edge format.
    InvalidEdgeFormat(String),
    /// Invalid filter condition.
    InvalidFilter(String),
    /// Node not found.
    NodeNotFound(u128),
    /// Edge not found.
    EdgeNotFound(String),
    /// Content too large: its size in bytes and the maximum.
    ContentTooLarge { size: usize, max: usize },
    /// Content is empty.
    EmptyContent,
    /// Self-referential edge (source equals target).
    SelfReferentialEdge,
    /// Serialization error.
    SerializationError(String),
    /// Deserialization error.
    DeserializationError(String),
    /// Custom error with message.
    Custom(String),
}

/// The message of a core error.
pub open spec fn core_error_text(e: CoreError) -> Seq<char> {
    match e {
        CoreError::InvalidNodeId(s) => "Invalid node ID format: "@ + s@,
        CoreError::InvalidEdgeFormat(s) => "Invalid edge format: "@ + s@,
        CoreError::InvalidFilter(s) => "Invalid filter condition: "@ + s@,
        CoreError::NodeNotFound(id) => "Node not found: "@ + uuid_text(id),
        CoreError::EdgeNotFound(s) => "Edge not found: "@ + s@,
        CoreError::ContentTooLarge { size, max } => "Content too large: "@ + decimal(size as nat)
            + " bytes (max: "@ + decimal(max as nat) + " bytes)"@,
        CoreError::EmptyContent => "Content cannot be empty"@,
        CoreError::SelfReferentialEdge => "Self-referential edges are not allowed"@,
        CoreError::SerializationError(s) => "Serialization error: "@ + s@,
        CoreError::DeserializationError(s) => "Deserialization error: "@ + s@,
        CoreError::Custom(s) => s@,
    }
}

impl CoreError {
    /// The message of this error.
    pub fn to_string(&self) -> (r: String)
        ensures
            r@ == core_error_text(*self),
    {
        match self {
            CoreError::InvalidNodeId(s) => String::from_str("Invalid node ID format: ").concat(s.as_str()),
            CoreError::InvalidEdgeFormat(s) => String::from_str("Invalid edge format: ").concat(s.as_str()),
            CoreError::InvalidFilter(s) => String::from_str("Invalid filter condition: ").concat(s.as_str()),
            CoreError::NodeNotFound(id) => {
                let t = id_to_string(*id);
                String::from_str("Node not found: ").concat(t.as_str())
            },
            CoreError::EdgeNotFound(s) => String::from_str("Edge not found: ").concat(s.as_str()),
            CoreError::ContentTooLarge { size, max } => {
                let a = usize_to_string(*size);
                let b = usize_to_string(*max);
                String::from_str("Content too large: ").concat(a.as_str()).concat(" bytes (max: ").concat(
                    b.as_str(),
                ).concat(" bytes)")
            },
            CoreError::EmptyContent => String::from_str("Content cannot be empty"),
            CoreError::SelfReferentialEdge => String::from_str("Self-referential edges are not allowed"),
            CoreError::SerializationError(s) => String::from_str("Serialization error: ").concat(s.as_str()),
            CoreError::DeserializationError(s) => String::from_str("Deserialization error: ").concat(s.as_str()),
            CoreError::Custom(s) => s.clone(),
        }
    }
}

} // verus!
