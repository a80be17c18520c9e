//! Chunking configuration, chunk metadata and the sentence and paragraph
//! splitters that the chunkers share.

use vstd::prelude::*;
use crate::chunk::{Chunk, ChunkType};
use crate::chunk_error::ChunkingError;
use crate::text::{byte_slice, chars_of, copy_range, sliceable, slice_str, string_from_chars, trim_bounds, trim_str, trimmed};

verus! {

broadcast use vstd::string::group_string_axioms;

/// Configuration for chunking operations. The semantic threshold, a
/// fraction between 0 and 1, is kept in thousandths.
#[derive(Debug, Clone, Copy, PartialEq, Eq)]
pub struct ChunkingConfig {
    /// Maximum chunk size in characters.
    pub max_chunk_size: usize,
    /// Minimum chunk size in characters.
    pub min_chunk_size: usize,
    /// Overlap between chunks in characters.
    pub overlap: usize,
    /// Whether to respect sentence boundaries.
    pub respect_sentences: bool,
    /// Whether to respect paragraph boundaries.
    pub respect_paragraphs: bool,
    /// Threshold for semantic boundary detection, in thousandths (0 to
    /// 1000); lower values split more aggressively.
    pub semantic_threshold: u32,
}

/// The default chunking configuration.
pub open spec fn default_chunking_config() -> ChunkingConfig {
    ChunkingConfig {
        max_chunk_size: 1000,
        min_chunk_size: 100,
        overlap: 100,
        respect_sentences: true,
        respect_paragraphs: true,
        semantic_threshold: 300,
    }
}

impl Default for ChunkingConfig {
    fn default() -> (r: ChunkingConfig)
        ensures
            r == default_chunking_config(),
    {
        ChunkingConfig {
            max_chunk_size: 1000,
            min_chunk_size: 100,
            overlap: 100,
            respect_sentences: true,
            respect_paragraphs: true,
            semantic_threshold: 300,
        }
    }
}

/// Whether a chunking configuration passes `ChunkingConfig::validate`.
pub open spec fn chunking_config_ok(c: ChunkingConfig) -> bool {
    &&& c.max_chunk_size > 0
    &&& c.min_chunk_size <= c.max_chunk_size
    &&& c.overlap < c.max_chunk_size
    &&& c.semantic_threshold <= 1000
}

impl ChunkingConfig {
    /// The default configuration.
    pub fn new() -> (r: ChunkingConfig)
        ensures
            r == default_chunking_config(),
    {
        ChunkingConfig::default()
    }

    /// This configuration with the given maximum chunk size.
    pub fn with_max_chunk_size(self, size: usize) -> (r: ChunkingConfig)
        ensures
            r == (ChunkingConfig { max_chunk_size: size, ..self }),
    {
        ChunkingConfig { max_chunk_size: size, ..self }
    }

    /// This configuration with the given minimum chunk size.
    pub fn with_min_chunk_size(self, size: usize) -> (r: ChunkingConfig)
        ensures
            r == (ChunkingConfig { min_chunk_size: size, ..self }),
    {
        ChunkingConfig { min_chunk_size: size, ..self }
    }

    /// This configuration with the given overlap.
    pub fn with_overlap(self, overlap: usize) -> (r: ChunkingConfig)
        ensures
            r == (ChunkingConfig { overlap, ..self }),
    {
        ChunkingConfig { overlap, ..self }
    }

    /// This configuration with the given semantic threshold, in thousandths.
    pub fn with_semantic_threshold(self, threshold: u32) -> (r: ChunkingConfig)
        ensures
            r == (ChunkingConfig { semantic_threshold: threshold, ..self }),
    {
        ChunkingConfig { semantic_threshold: threshold, ..self }
    }

    /// Checks the configuration: a positive maximum, a minimum not above
    /// it, an overlap below it and a threshold between 0 and 1; the first
    /// check that fails names the error.
    pub fn validate(&self) -> (r: Result<(), ChunkingError>)
        ensures
            r is Ok <==> chunking_config_ok(*self),
            self.max_chunk_size == 0 ==> (r matches Err(ChunkingError::InvalidChunkSize(m))
                && m@ == "max_chunk_size must be greater than 0"@),
            self.max_chunk_size > 0 && self.min_chunk_size > self.max_chunk_size
                ==> (r matches Err(ChunkingError::InvalidChunkSize(m))
                && m@ == "min_chunk_size cannot be greater than max_chunk_size"@),
            self.max_chunk_size > 0 && self.min_chunk_size <= self.max_chunk_size && self.overlap >= self.max_chunk_size
                ==> (r matches Err(ChunkingError::InvalidOverlap(m)) && m@ == "overlap must be less than max_chunk_size"@),
            self.max_chunk_size > 0 && self.min_chunk_size <= self.max_chunk_size && self.overlap < self.max_chunk_size
                && self.semantic_threshold > 1000 ==> (r matches Err(ChunkingError::ConfigError(m))
                && m@ == "semantic_threshold must be between 0.0 and 1.0"@),
    {
        if self.max_chunk_size == 0 {
            return Err(ChunkingError::InvalidChunkSize(String::from_str("max_chunk_size must be greater than 0")));
        }
        if self.min_chunk_size > self.max_chunk_size {
            return Err(
                ChunkingError::InvalidChunkSize(String::from_str("min_chunk_size cannot be greater than max_chunk_size")),
            );
        }
        if self.overlap >= self.max_chunk_size {
            return Err(ChunkingError::InvalidOverlap(String::from_str("overlap must be less than max_chunk_size")));
        }
        if self.semantic_threshold > 1000 {
            return Err(ChunkingError::ConfigError(String::from_str("semantic_threshold must be between 0.0 and 1.0")));
        }
        Ok(())
    }
}

/// The default chunking configuration.
pub fn default_config() -> (r: ChunkingConfig)
    ensures
        r == default_chunking_config(),
{
    ChunkingConfig::default()
}

#[verifier::external_type_specification]
#[verifier::external_body]
pub struct ExJsonValue(serde_json::Value);

/// The JSON null value, `serde_json::Value::Null`.
#[verifier::external_body]
fn json_null() -> (r: serde_json::Value) {
    serde_json::Value::Null
}

/// An empty JSON object, `serde_json::Value::Object` of a new
/// `serde_json::Map`; nothing is stated of it.
#[verifier::external_body]
pub(crate) fn json_empty_object() -> (r: serde_json::Value) {
    serde_json::Value::Object(serde_json::Map::new())
}

/// A copy of a JSON value, by `serde_json::Value`'s `Clone`, which copies
/// the value whole: the copy is the same value.
#[verifier::external_body]
pub(crate) fn json_clone(v: &serde_json::Value) -> (r: serde_json::Value)
    ensures
        r == *v,
{
    v.clone()
}

/// Metadata about the text handed to a chunker.
#[derive(Debug)]
pub struct ChunkMetadata {
    /// Source identifier (a file path, a URL).
    pub source: Option<String>,
    /// Document title.
    pub title: Option<String>,
    /// MIME type of the source content.
    pub content_type: Option<String>,
    /// Additional custom metadata.
    pub custom: serde_json::Value,
}

impl ChunkMetadata {
    /// Empty metadata.
    pub fn new() -> (r: ChunkMetadata)
        ensures
            r.source is None,
            r.title is None,
            r.content_type is None,
    {
        ChunkMetadata { source: None, title: None, content_type: None, custom: json_null() }
    }

    /// This metadata with the given source.
    pub fn with_source(self, source: String) -> (r: ChunkMetadata)
        ensures
            r == (ChunkMetadata { source: Some(source), ..self }),
    {
        ChunkMetadata { source: Some(source), ..self }
    }

    /// This metadata with the given title.
    pub fn with_title(self, title: String) -> (r: ChunkMetadata)
        ensures
            r == (ChunkMetadata { title: Some(title), ..self }),
    {
        ChunkMetadata { title: Some(title), ..self }
    }

    /// This metadata with the given content type.
    pub fn with_content_type(self, content_type: String) -> (r: ChunkMetadata)
        ensures
            r == (ChunkMetadata { content_type: Some(content_type), ..self }),
    {
        ChunkMetadata { content_type: Some(content_type), ..self }
    }
}

impl Default for ChunkMetadata {
    fn default() -> (r: ChunkMetadata)
        ensures
            r.source is None,
            r.title is None,
            r.content_type is None,
    {
        ChunkMetadata::new()
    }
}

} // verus!

verus! {

/// The texts of a sequence of strings.
pub open spec fn views(v: Seq<String>) -> Seq<Seq<char>> {
    v.map_values(|x: String| x@)
}

/// A one-element sequence of `t`, or nothing when `t` is empty.
pub open spec fn keep(t: Seq<char>) -> Seq<Seq<char>> {
    if t.len() == 0 {
        Seq::empty()
    } else {
        seq![t]
    }
}

/// Whether a char ends a sentence: a full stop, an exclamation mark or a
/// question mark.
pub open spec fn is_terminator(c: char) -> bool {
    c == '.' || c == '!' || c == '?'
}

/// Whether a sentence ends at `s[i]`: a terminator followed by a space, a
/// newline or the end of the text.
pub open spec fn ends_sentence(s: Seq<char>, i: int) -> bool {
    &&& 0 <= i < s.len()
    &&& is_terminator(s[i])
    &&& (i + 1 == s.len() || s[i + 1] == ' ' || s[i + 1] == '\n')
}

/// The sentences of `s[start..]`, scanning from `i`: the text is cut after
/// each sentence end, each piece is trimmed, and empty pieces are dropped.
pub open spec fn sentences_from(s: Seq<char>, start: int, i: int) -> Seq<Seq<char>>
    decreases s.len() - i,
{
    if i < 0 || i >= s.len() {
        keep(trimmed(s.subrange(start, s.len() as int)))
    } else if ends_sentence(s, i) {
        keep(trimmed(s.subrange(start, i + 1))) + sentences_from(s, i + 1, i + 1)
    } else {
        sentences_from(s, start, i + 1)
    }
}

/// The sentences of a text.
pub open spec fn sentences(s: Seq<char>) -> Seq<Seq<char>> {
    sentences_from(s, 0, 0)
}

/// The paragraphs of `s[start..]`, scanning from `i`: the text is cut at
/// each blank line (`"\n\n"`, matches taken left to right without
/// overlap), each piece is trimmed, and empty pieces are dropped.
pub open spec fn paragraphs_from(s: Seq<char>, start: int, i: int) -> Seq<Seq<char>>
    decreases s.len() - i,
{
    if i < 0 || i + 1 >= s.len() {
        keep(trimmed(s.subrange(start, s.len() as int)))
    } else if s[i] == '\n' && s[i + 1] == '\n' {
        keep(trimmed(s.subrange(start, i))) + paragraphs_from(s, i + 2, i + 2)
    } else {
        paragraphs_from(s, start, i + 1)
    }
}

/// The paragraphs of a text.
pub open spec fn paragraphs(s: Seq<char>) -> Seq<Seq<char>> {
    paragraphs_from(s, 0, 0)
}

/// Appends `v[a..b]` to `out` as a string when it is not empty.
fn push_piece(out: &mut Vec<String>, v: &Vec<char>, a: usize, b: usize)
    requires
        a <= b <= v@.len(),
    ensures
        views(final(out)@) == views(old(out)@) + keep(v@.subrange(a as int, b as int)),
{
    if a < b {
        let w = copy_range(v, a, b);
        let s = string_from_chars(w.as_slice());
        let ghost before = out@;
        out.push(s);
        assert(views(out@) =~= views(before) + keep(v@.subrange(a as int, b as int)));
    } else {
        assert(keep(v@.subrange(a as int, b as int)) =~= Seq::<Seq<char>>::empty());
        assert(views(old(out)@) + keep(v@.subrange(a as int, b as int)) =~= views(old(out)@));
    }
}

/// Splits a text into sentences: it is cut after each `.`, `!` or `?`
/// that a space, a newline or the end of the text follows; each piece is
/// trimmed and empty ones are dropped.
pub fn split_into_sentences(text: &str) -> (r: Vec<String>)
    ensures
        views(r@) == sentences(text@),
{
    let v = chars_of(text);
    let mut out: Vec<String> = Vec::new();
    let mut start: usize = 0;
    let mut i: usize = 0;
    assert(views(out@) =~= Seq::<Seq<char>>::empty());
    while i < v.len()
        invariant
            v@ == text@,
            start <= i <= v@.len(),
            views(out@) + sentences_from(v@, start as int, i as int) == sentences(v@),
        decreases v@.len() - i,
    {
        let c = v[i];
        if (c == '.' || c == '!' || c == '?') && (i + 1 == v.len() || v[i + 1] == ' ' || v[i + 1] == '\n') {
            let ghost before = views(out@);
            let (a, b) = trim_bounds(&v, start, i + 1);
            push_piece(&mut out, &v, a, b);
            proof {
                let piece = keep(trimmed(v@.subrange(start as int, i + 1)));
                assert(before + (piece + sentences_from(v@, i + 1, i + 1)) =~= (before + piece) + sentences_from(
                    v@,
                    i + 1,
                    i + 1,
                ));
            }
            start = i + 1;
        }
        i = i + 1;
    }
    let ghost before = views(out@);
    let (a, b) = trim_bounds(&v, start, v.len());
    push_piece(&mut out, &v, a, b);
    proof {
        assert(sentences_from(v@, start as int, i as int) == keep(trimmed(v@.subrange(start as int, v@.len() as int))));
    }
    out
}

/// Splits a text into paragraphs at each blank line (`"\n\n"`); each piece
/// is trimmed and empty ones are dropped.
pub fn split_into_paragraphs(text: &str) -> (r: Vec<String>)
    ensures
        views(r@) == paragraphs(text@),
{
    let v = chars_of(text);
    let mut out: Vec<String> = Vec::new();
    let mut start: usize = 0;
    let mut i: usize = 0;
    assert(views(out@) =~= Seq::<Seq<char>>::empty());
    while i < v.len() && i + 1 < v.len()
        invariant
            v@ == text@,
            start <= i <= v@.len(),
            views(out@) + paragraphs_from(v@, start as int, i as int) == paragraphs(v@),
        decreases v@.len() - i,
    {
        if v[i] == '\n' && v[i + 1] == '\n' {
            let ghost before = views(out@);
            let (a, b) = trim_bounds(&v, start, i);
            push_piece(&mut out, &v, a, b);
            proof {
                let piece = keep(trimmed(v@.subrange(start as int, i as int)));
                assert(before + (piece + paragraphs_from(v@, i + 2, i + 2)) =~= (before + piece) + paragraphs_from(
                    v@,
                    i + 2,
                    i + 2,
                ));
            }
            start = i + 2;
            i = i + 2;
        } else {
            i = i + 1;
        }
    }
    let (a, b) = trim_bounds(&v, start, v.len());
    push_piece(&mut out, &v, a, b);
    out
}

/// Whether every range can be cut out of `s` (by byte offsets).
pub open spec fn ranges_sliceable(s: Seq<char>, ranges: Seq<(usize, usize)>) -> bool {
    forall|k: int| 0 <= k < ranges.len() ==> sliceable(s, (#[trigger] ranges[k]).0 as int, ranges[k].1 as int)
}

/// Makes one chunk of each byte range of a text: its trimmed text, its
/// position, the range and the given type, with a fresh identifier.
pub fn chunks_from_ranges(text: &str, ranges: &[(usize, usize)], chunk_type: ChunkType) -> (r: Vec<Chunk>)
    requires
        ranges_sliceable(text@, ranges@),
    ensures
        r@.len() == ranges@.len(),
        forall|k: int| 0 <= k < r@.len() ==> {
            &&& (#[trigger] r@[k]).content@ == trimmed(byte_slice(text@, ranges@[k].0 as int, ranges@[k].1 as int))
            &&& r@[k].index == k
            &&& r@[k].range == ranges@[k]
            &&& r@[k].chunk_type == chunk_type
            &&& r@[k].parent_id is None
            &&& r@[k].level == 0
            &&& r@[k].boundary_score == 0
        },
{
    let mut out: Vec<Chunk> = Vec::new();
    let mut k: usize = 0;
    while k < ranges.len()
        invariant
            ranges_sliceable(text@, ranges@),
            k <= ranges@.len(),
            out@.len() == k,
            forall|j: int| 0 <= j < k ==> {
                &&& (#[trigger] out@[j]).content@ == trimmed(byte_slice(text@, ranges@[j].0 as int, ranges@[j].1 as int))
                &&& out@[j].index == j
                &&& out@[j].range == ranges@[j]
                &&& out@[j].chunk_type == chunk_type
                &&& out@[j].parent_id is None
                &&& out@[j].level == 0
                &&& out@[j].boundary_score == 0
            },
        decreases ranges@.len() - k,
    {
        let (start, end) = ranges[k];
        assert(sliceable(text@, ranges@[k as int].0 as int, ranges@[k as int].1 as int));
        let piece = slice_str(text, start, end);
        let content = trim_str(piece);
        out.push(Chunk::new(content, k, (start, end), chunk_type));
        k = k + 1;
    }
    out
}

} // verus!
