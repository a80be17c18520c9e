//! Errors of the chunkers.

use vstd::prelude::*;
use crate::text::{decimal, usize_to_string};

verus! {

/// Chunking error type. Failures to read input or to serialise chunks
/// happen outside this library and carry their own errors.
#[derive(Debug, Clone, PartialEq)]
pub enum ChunkingError {
    /// Empty input provided.
    EmptyInput,
    /// Input too short for chunking.
    InputTooShort { min: usize, actual: usize },
    /// Invalid chunk size.
    InvalidChunkSize(String),
    /// Invalid overlap size.
    InvalidOverlap(String),
    /// Embedding generation failed.
    EmbeddingFailed(String),
    /// Sentence boundary detection failed.
    BoundaryDetectionFailed(String),
    /// Configuration error.
    ConfigError(String),
}

/// The message of a chunking error.
pub open spec fn chunking_error_text(e: ChunkingError) -> Seq<char> {
    match e {
        ChunkingError::EmptyInput => "Empty input provided"@,
        ChunkingError::InputTooShort { min, actual } => "Input too short: minimum "@ + decimal(min as nat)
            + " characters, got "@ + decimal(actual as nat),
        ChunkingError::InvalidChunkSize(s) => "Invalid chunk size: "@ + s@,
        ChunkingError::InvalidOverlap(s) => "Invalid overlap size: "@ + s@,
        ChunkingError::EmbeddingFailed(s) => "Embedding generation failed: "@ + s@,
        ChunkingError::BoundaryDetectionFailed(s) => "Sentence boundary detection failed: "@ + s@,
        ChunkingError::ConfigError(s) => "Configuration error: "@ + s@,
    }
}

impl ChunkingError {
    /// The message of this error.
    pub fn to_string(&self) -> (r: String)
        ensures
            r@ == chunking_error_text(*self),
    {
        match self {
            ChunkingError::EmptyInput => String::from_str("Empty input provided"),
            ChunkingError::InputTooShort { min, actual } => {
                let a = usize_to_string(*min);
                let b = usize_to_string(*actual);
                String::from_str("Input too short: minimum ").concat(a.as_str()).concat(" characters, got ").concat(
                    b.as_str(),
                )
            },
            ChunkingError::InvalidChunkSize(s) => String::from_str("Invalid chunk size: ").concat(s.as_str()),
            ChunkingError::InvalidOverlap(s) => String::from_str("Invalid overlap size: ").concat(s.as_str()),
            ChunkingError::EmbeddingFailed(s) => String::from_str("Embedding generation failed: ").concat(s.as_str()),
            ChunkingError::BoundaryDetectionFailed(s) => String::from_str("Sentence boundary detection failed: ").concat(
                s.as_str(),
            ),
            ChunkingError::ConfigError(s) => String::from_str("Configuration error: ").concat(s.as_str()),
        }
    }
}

} // verus!
