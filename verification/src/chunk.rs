//! Chunks of a document: the pieces that the chunkers cut a text into.

use vstd::prelude::*;
use crate::ids::new_id;
use crate::chunk_error::ChunkingError;

verus! {

/// The kind of a chunk, by the structure of its content.
#[derive(Debug, Clone, Copy, PartialEq, Eq)]
pub enum ChunkType {
    /// Document-level chunk (the highest-level summary).
    Document,
    /// Paragraph-level chunk.
    Paragraph,
    /// Sentence-level chunk.
    Sentence,
    /// A chunk of any other shape.
    Custom,
}

/// The hierarchy level of a chunk type: document 0, paragraph 1,
/// sentence 2, custom 3.
pub open spec fn chunk_level(t: ChunkType) -> usize {
    match t {
        ChunkType::Document => 0,
        ChunkType::Paragraph => 1,
        ChunkType::Sentence => 2,
        ChunkType::Custom => 3,
    }
}

/// The lower-case name of a chunk type.
pub open spec fn chunk_type_name(t: ChunkType) -> Seq<char> {
    match t {
        ChunkType::Document => "document"@,
        ChunkType::Paragraph => "paragraph"@,
        ChunkType::Sentence => "sentence"@,
        ChunkType::Custom => "custom"@,
    }
}

impl ChunkType {
    /// The hierarchy level of this chunk type.
    pub fn level(&self) -> (r: usize)
        ensures
            r == chunk_level(*self),
    {
        match self {
            ChunkType::Document => 0,
            ChunkType::Paragraph => 1,
            ChunkType::Sentence => 2,
            ChunkType::Custom => 3,
        }
    }

    /// The lower-case name of this chunk type.
    pub fn name(&self) -> (r: &'static str)
        ensures
            r@ == chunk_type_name(*self),
    {
        match self {
            ChunkType::Document => "document",
            ChunkType::Paragraph => "paragraph",
            ChunkType::Sentence => "sentence",
            ChunkType::Custom => "custom",
        }
    }

    /// The display form of this chunk type (its name).
    pub fn to_string(&self) -> (r: String)
        ensures
            r@ == chunk_type_name(*self),
    {
        String::from_str(self.name())
    }
}

/// A chunk of text from a document.
///
/// The boundary score, a fraction between 0 and 1, is kept in thousandths.
#[derive(Debug, PartialEq)]
pub struct Chunk {
    /// Unique identifier (the 128-bit value of a UUID).
    pub id: u128,
    /// The text of this chunk.
    pub content: String,
    /// Position of this chunk in its sequence.
    pub index: usize,
    /// Range in the original text (start, end).
    pub range: (usize, usize),
    /// How good a split point the chunk's end is, in thousandths.
    pub boundary_score: u32,
    /// Kind of chunk.
    pub chunk_type: ChunkType,
    /// Parent chunk, for hierarchical chunks.
    pub parent_id: Option<u128>,
    /// Child chunks, for hierarchical chunks.
    pub child_ids: Vec<u128>,
    /// Level in the hierarchy (0 document, 1 paragraph, 2 sentence).
    pub level: usize,
}

impl Clone for Chunk {
    fn clone(&self) -> (r: Chunk)
        ensures
            same_chunk(r, *self),
    {
        let child_ids = self.child_ids.clone();
        assert(child_ids@ =~= self.child_ids@);
        Chunk {
            id: self.id,
            content: self.content.clone(),
            index: self.index,
            range: self.range,
            boundary_score: self.boundary_score,
            chunk_type: self.chunk_type,
            parent_id: self.parent_id,
            child_ids,
            level: self.level,
        }
    }
}

/// Two chunks hold the same values (their child lists taken by content).
pub open spec fn same_chunk(a: Chunk, b: Chunk) -> bool {
    &&& a.id == b.id
    &&& a.content@ == b.content@
    &&& a.index == b.index
    &&& a.range == b.range
    &&& a.boundary_score == b.boundary_score
    &&& a.chunk_type == b.chunk_type
    &&& a.parent_id == b.parent_id
    &&& a.child_ids@ == b.child_ids@
    &&& a.level == b.level
}

/// The length in bytes of a chunk's text, as `str::len` gives it.
pub open spec fn chunk_len(c: Chunk) -> usize {
    crate::text::utf8_len(c.content@) as usize
}

impl Chunk {
    /// A new top-level chunk with a fresh identifier and no score.
    pub fn new(content: String, index: usize, range: (usize, usize), chunk_type: ChunkType) -> (r: Chunk)
        ensures
            r.content@ == content@,
            r.index == index,
            r.range == range,
            r.boundary_score == 0,
            r.chunk_type == chunk_type,
            r.parent_id is None,
            r.child_ids@ == Seq::<u128>::empty(),
            r.level == 0,
            r.id != 0,
    {
        Chunk::with_score(content, index, range, chunk_type, 0)
    }

    /// A new top-level chunk with a fresh identifier and the given boundary
    /// score (in thousandths).
    pub fn with_score(content: String, index: usize, range: (usize, usize), chunk_type: ChunkType, boundary_score: u32) -> (r: Chunk)
        ensures
            r.content@ == content@,
            r.index == index,
            r.range == range,
            r.boundary_score == boundary_score,
            r.chunk_type == chunk_type,
            r.parent_id is None,
            r.child_ids@ == Seq::<u128>::empty(),
            r.level == 0,
            r.id != 0,
    {
        Chunk {
            id: new_id(),
            content,
            index,
            range,
            boundary_score,
            chunk_type,
            parent_id: None,
            child_ids: Vec::new(),
            level: 0,
        }
    }

    /// This chunk under the given parent, at level 1.
    pub fn with_parent(self, parent_id: u128) -> (r: Chunk)
        ensures
            r == (Chunk { parent_id: Some(parent_id), level: 1, ..self }),
    {
        Chunk { parent_id: Some(parent_id), level: 1, ..self }
    }

    /// This chunk at the given hierarchy level.
    pub fn with_level(self, level: usize) -> (r: Chunk)
        ensures
            r == (Chunk { level, ..self }),
    {
        Chunk { level, ..self }
    }

    /// Records a child chunk.
    pub fn add_child(&mut self, child_id: u128)
        ensures
            final(self).child_ids@ == old(self).child_ids@.push(child_id),
            *final(self) == (Chunk { child_ids: final(self).child_ids, ..*old(self) }),
    {
        self.child_ids.push(child_id);
    }

    /// The length in bytes of this chunk's text.
    pub fn len(&self) -> (r: usize)
        ensures
            r == chunk_len(*self),
    {
        self.content.as_str().len()
    }

    /// Whether this chunk's text is empty.
    pub fn is_empty(&self) -> (r: bool)
        ensures
            r == (self.content@.len() == 0),
    {
        self.content.as_str().is_empty()
    }
}

/// The view of a chunking result: the chunks as a sequence.
pub open spec fn result_seq(r: Result<Vec<Chunk>, ChunkingError>) -> Result<Seq<Chunk>, ChunkingError> {
    match r {
        Ok(v) => Ok(v@),
        Err(e) => Err(e),
    }
}

} // verus!
