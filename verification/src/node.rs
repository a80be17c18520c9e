//! Nodes of the tensor-graph.

use vstd::prelude::*;
use crate::error::CoreError;
use crate::ids::new_id;
use crate::node_type::NodeType;
use crate::source::Source;
use crate::strategy::{json_clone, json_empty_object};

verus! {

/// Maximum content size in bytes (10 MiB).
pub const MAX_CONTENT_SIZE: usize = 10485760;

/// A node: a semantic unit of knowledge. Embeddings, scores and timestamps
/// are kept beside it by the services; the graph logic reads what is here.
#[derive(Debug, PartialEq)]
pub struct Node {
    /// Unique identifier (the 128-bit value of a UUID).
    pub id: u128,
    /// Content text.
    pub content: String,
    /// Node type.
    pub node_type: NodeType,
    /// Data source.
    pub source: Source,
    /// Original document id, when this node is a chunk.
    pub document_id: Option<u128>,
    /// Chunk index, when this node is a chunk.
    pub chunk_index: Option<usize>,
    /// Additional flexible attributes, as a JSON value.
    pub attributes: serde_json::Value,
}

/// The size in bytes of a node's content (its UTF-8 length, as `str::len`
/// gives it).
pub open spec fn content_size(n: Node) -> usize {
    vstd::utf8::encode_utf8(n.content@).len() as usize
}

impl Clone for Node {
    fn clone(&self) -> (r: Node)
        ensures
            r == *self,
    {
        Node {
            id: self.id,
            content: self.content.clone(),
            node_type: self.node_type,
            source: self.source.clone(),
            document_id: self.document_id,
            chunk_index: self.chunk_index,
            attributes: json_clone(&self.attributes),
        }
    }
}

impl Node {
    /// A new node with a fresh identifier and the default source.
    pub fn new(content: &str, node_type: NodeType) -> (r: Node)
        ensures
            r.content@ == content@,
            r.node_type == node_type,
            r.source == Source::UserInput,
            r.id != 0,
            r.document_id is None,
            r.chunk_index is None,
    {
        Node::with_source(content, node_type, Source::UserInput)
    }

    /// A new node with a fresh identifier and the given source.
    pub fn with_source(content: &str, node_type: NodeType, source: Source) -> (r: Node)
        ensures
            r.content@ == content@,
            r.node_type == node_type,
            r.source == source,
            r.id != 0,
            r.document_id is None,
            r.chunk_index is None,
    {
        Node {
            id: new_id(),
            content: String::from_str(content),
            node_type,
            source,
            document_id: None,
            chunk_index: None,
            attributes: json_empty_object(),
        }
    }

    /// This node with the given attributes.
    pub fn with_attributes(self, attributes: serde_json::Value) -> (r: Node)
        ensures
            r == (Node { attributes, ..self }),
    {
        Node { attributes, ..self }
    }

    /// The content as a string slice.
    pub fn content(&self) -> (r: &str)
        ensures
            r@ == self.content@,
    {
        self.content.as_str()
    }

    /// Checks the content: it must be non-empty and at most
    /// `MAX_CONTENT_SIZE` bytes long.
    pub fn validate(&self) -> (r: Result<(), CoreError>)
        ensures
            self.content@.len() == 0 ==> r == Err::<(), CoreError>(CoreError::EmptyContent),
            self.content@.len() != 0 && content_size(*self) > MAX_CONTENT_SIZE
                ==> r == Err::<(), CoreError>(
                CoreError::ContentTooLarge {
                    size: content_size(*self),
                    max: MAX_CONTENT_SIZE,
                },
            ),
            self.content@.len() != 0 && content_size(*self) <= MAX_CONTENT_SIZE
                ==> r is Ok,
    {
        let c = self.content.as_str();
        if c.is_empty() {
            return Err(CoreError::EmptyContent);
        }
        let size = c.len();
        if size > MAX_CONTENT_SIZE {
            return Err(CoreError::ContentTooLarge { size, max: MAX_CONTENT_SIZE });
        }
        Ok(())
    }

    /// Sets the document id (for chunks).
    pub fn with_document_id(self, id: u128) -> (r: Node)
        ensures
            r == (Node { document_id: Some(id), ..self }),
    {
        Node { document_id: Some(id), ..self }
    }

    /// Sets the chunk index (for chunks).
    pub fn with_chunk_index(self, index: usize) -> (r: Node)
        ensures
            r == (Node { chunk_index: Some(index), ..self }),
    {
        Node { chunk_index: Some(index), ..self }
    }
}

} // verus!
