//! SYNTON-DB: a tensor-graph memory database for language models.
//!
//! The verified library holds the data model (nodes, edges, relations),
//! the in-memory graph and its traversals, document chunking, context
//! formatting helpers and the small enumerations shared by the services.

pub mod text;
pub mod ids;
pub mod node_type;
pub mod relation;
pub mod source;
pub mod filter;
pub mod error;
pub mod node;
pub mod edge;
pub mod path;
pub mod graph;
pub mod graph_paths;
pub mod chunk;
pub mod chunk_error;
pub mod strategy;
pub mod fixed;
pub mod words;
pub mod semantic;
pub mod hierarchical;
pub mod summary;
pub mod retrieval;
pub mod rag;
pub mod error_stats;
pub mod expansion;
pub mod formatter;
pub mod span;
pub mod views;
pub mod cli;
pub mod api_models;
pub mod openapi;
pub mod api_instrument;
pub mod collector_stats;
pub mod config;
pub mod laws;
pub mod api_error;
pub mod service;
pub mod grpc;
pub mod trace_query;
pub mod trace_store;
