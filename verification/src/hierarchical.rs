//! Hierarchical chunking: a document summary, its paragraphs, and the
//! sentences of each paragraph, linked parent to child.

use vstd::prelude::*;
use std::collections::HashMap;
use crate::chunk::{Chunk, ChunkType, result_seq};
use crate::chunk_error::ChunkingError;
use crate::semantic::{SemanticChunkConfig, SemanticChunker, grouped_at, joined, semantic_cuts, semantic_fits};
use crate::strategy::{ChunkingConfig, ChunkMetadata, default_chunking_config, sentences, split_into_sentences, views};
use crate::text::{byte_slice, chars_of, lemma_trimmed_idempotent, sliceable, slice_str, str_len, string_from_chars, trim_str, trimmed};
use crate::words::{char_views, words, words_of};

verus! {

broadcast use {vstd::std_specs::hash::group_hash_axioms, vstd::string::group_string_axioms};

/// Configuration for hierarchical chunking.
#[derive(Debug, Clone, Copy, PartialEq, Eq)]
pub struct HierarchicalChunkConfig {
    /// Base chunking configuration.
    pub base: ChunkingConfig,
    /// Maximum size of document-level chunks.
    pub max_document_size: usize,
    /// Maximum size of paragraph-level chunks.
    pub max_paragraph_size: usize,
    /// Maximum size of sentence-level chunks.
    pub max_sentence_size: usize,
    /// Whether to generate summaries.
    pub generate_summaries: bool,
}

/// The default hierarchical configuration.
pub open spec fn default_hierarchical_config() -> HierarchicalChunkConfig {
    HierarchicalChunkConfig {
        base: default_chunking_config(),
        max_document_size: 5000,
        max_paragraph_size: 1000,
        max_sentence_size: 200,
        generate_summaries: true,
    }
}

impl Default for HierarchicalChunkConfig {
    fn default() -> (r: HierarchicalChunkConfig)
        ensures
            r == default_hierarchical_config(),
    {
        HierarchicalChunkConfig {
            base: ChunkingConfig::default(),
            max_document_size: 5000,
            max_paragraph_size: 1000,
            max_sentence_size: 200,
            generate_summaries: true,
        }
    }
}

/// Whether a hierarchical configuration passes its validation: documents
/// larger than paragraphs, paragraphs larger than sentences.
pub open spec fn hierarchical_config_ok(c: HierarchicalChunkConfig) -> bool {
    c.max_document_size > c.max_paragraph_size && c.max_paragraph_size > c.max_sentence_size
}

impl HierarchicalChunkConfig {
    /// The default configuration.
    pub fn new() -> (r: HierarchicalChunkConfig)
        ensures
            r == default_hierarchical_config(),
    {
        HierarchicalChunkConfig::default()
    }

    /// This configuration with the given maximum document size.
    pub fn with_document_size(self, size: usize) -> (r: HierarchicalChunkConfig)
        ensures
            r == (HierarchicalChunkConfig { max_document_size: size, ..self }),
    {
        HierarchicalChunkConfig { max_document_size: size, ..self }
    }

    /// This configuration with the given maximum paragraph size.
    pub fn with_paragraph_size(self, size: usize) -> (r: HierarchicalChunkConfig)
        ensures
            r == (HierarchicalChunkConfig { max_paragraph_size: size, ..self }),
    {
        HierarchicalChunkConfig { max_paragraph_size: size, ..self }
    }

    /// This configuration with the given maximum sentence size.
    pub fn with_sentence_size(self, size: usize) -> (r: HierarchicalChunkConfig)
        ensures
            r == (HierarchicalChunkConfig { max_sentence_size: size, ..self }),
    {
        HierarchicalChunkConfig { max_sentence_size: size, ..self }
    }

    /// This configuration with summary generation switched on or off.
    pub fn with_summaries(self, enable: bool) -> (r: HierarchicalChunkConfig)
        ensures
            r == (HierarchicalChunkConfig { generate_summaries: enable, ..self }),
    {
        HierarchicalChunkConfig { generate_summaries: enable, ..self }
    }

    /// Checks that documents are larger than paragraphs and paragraphs
    /// larger than sentences.
    pub fn validate(&self) -> (r: Result<(), ChunkingError>)
        ensures
            r is Ok <==> hierarchical_config_ok(*self),
            self.max_document_size <= self.max_paragraph_size ==> (r matches Err(ChunkingError::InvalidChunkSize(m))
                && m@ == "document size must be greater than paragraph size"@),
            self.max_document_size > self.max_paragraph_size && self.max_paragraph_size <= self.max_sentence_size
                ==> (r matches Err(ChunkingError::InvalidChunkSize(m))
                && m@ == "paragraph size must be greater than sentence size"@),
    {
        if self.max_document_size <= self.max_paragraph_size {
            return Err(ChunkingError::InvalidChunkSize(String::from_str("document size must be greater than paragraph size")));
        }
        if self.max_paragraph_size <= self.max_sentence_size {
            return Err(ChunkingError::InvalidChunkSize(String::from_str("paragraph size must be greater than sentence size")));
        }
        Ok(())
    }
}

/// The child-to-parent map of a list of chunks: each chunk with a parent
/// maps its id to that parent, a later chunk overriding an earlier one with
/// the same id.
pub open spec fn parent_map_of(cs: Seq<Chunk>) -> Map<u128, u128>
    decreases cs.len(),
{
    if cs.len() == 0 {
        Map::empty()
    } else {
        let rest = parent_map_of(cs.drop_last());
        match cs.last().parent_id {
            Some(p) => rest.insert(cs.last().id, p),
            None => rest,
        }
    }
}

/// The result of hierarchical chunking, with its parent-child links.
#[derive(Debug)]
pub struct HierarchicalChunks {
    /// Document-level chunks (summaries).
    pub documents: Vec<Chunk>,
    /// Paragraph-level chunks.
    pub paragraphs: Vec<Chunk>,
    /// Sentence-level chunks.
    pub sentences: Vec<Chunk>,
    /// Child id to parent id.
    pub parent_map: HashMap<u128, u128>,
}

/// The chunks whose level is `level`, in order.
pub open spec fn at_level(cs: Seq<Chunk>, level: usize) -> Seq<Chunk>
    decreases cs.len(),
{
    if cs.len() == 0 {
        Seq::empty()
    } else if cs.last().level == level {
        at_level(cs.drop_last(), level).push(cs.last())
    } else {
        at_level(cs.drop_last(), level)
    }
}

/// The chunks whose parent is `parent`, in order.
pub open spec fn children_of(cs: Seq<Chunk>, parent: u128) -> Seq<Chunk>
    decreases cs.len(),
{
    if cs.len() == 0 {
        Seq::empty()
    } else if cs.last().parent_id == Some(parent) {
        children_of(cs.drop_last(), parent).push(cs.last())
    } else {
        children_of(cs.drop_last(), parent)
    }
}

impl HierarchicalChunks {
    /// All chunks, documents first, then paragraphs, then sentences.
    pub open spec fn every_chunk(&self) -> Seq<Chunk> {
        self.documents@ + self.paragraphs@ + self.sentences@
    }

    /// All chunks in hierarchy order: documents, paragraphs, sentences.
    pub fn all_chunks(&self) -> (r: Vec<&Chunk>)
        ensures
            r@.len() == self.every_chunk().len(),
            forall|k: int| 0 <= k < r@.len() ==> *(#[trigger] r@[k]) == self.every_chunk()[k],
    {
        let mut out: Vec<&Chunk> = Vec::new();
        let mut i: usize = 0;
        while i < self.documents.len()
            invariant
                i <= self.documents@.len(),
                out@.len() == i,
                forall|k: int| 0 <= k < i ==> *(#[trigger] out@[k]) == self.documents@[k],
            decreases self.documents@.len() - i,
        {
            out.push(&self.documents[i]);
            i = i + 1;
        }
        let d = self.documents.len();
        let mut j: usize = 0;
        while j < self.paragraphs.len()
            invariant
                d == self.documents@.len(),
                j <= self.paragraphs@.len(),
                out@.len() == d + j,
                forall|k: int| 0 <= k < d ==> *(#[trigger] out@[k]) == self.documents@[k],
                forall|k: int| d <= k < d + j ==> *(#[trigger] out@[k]) == self.paragraphs@[k - d],
            decreases self.paragraphs@.len() - j,
        {
            out.push(&self.paragraphs[j]);
            j = j + 1;
        }
        let p = self.paragraphs.len();
        let mut m: usize = 0;
        while m < self.sentences.len()
            invariant
                d == self.documents@.len(),
                p == self.paragraphs@.len(),
                m <= self.sentences@.len(),
                out@.len() == d + p + m,
                forall|k: int| 0 <= k < d ==> *(#[trigger] out@[k]) == self.documents@[k],
                forall|k: int| d <= k < d + p ==> *(#[trigger] out@[k]) == self.paragraphs@[k - d],
                forall|k: int| d + p <= k < d + p + m ==> *(#[trigger] out@[k]) == self.sentences@[k - d - p],
            decreases self.sentences@.len() - m,
        {
            out.push(&self.sentences[m]);
            m = m + 1;
        }
        out
    }

    /// The chunks at the given hierarchy level, in hierarchy order.
    pub fn chunks_by_level(&self, level: usize) -> (r: Vec<&Chunk>)
        ensures
            r@.len() == at_level(self.every_chunk(), level).len(),
            forall|k: int| 0 <= k < r@.len() ==> *(#[trigger] r@[k]) == at_level(self.every_chunk(), level)[k],
    {
        let all = self.all_chunks();
        let ghost every = self.every_chunk();
        let mut out: Vec<&Chunk> = Vec::new();
        let mut i: usize = 0;
        assert(at_level(every.take(0), level) =~= Seq::<Chunk>::empty());
        while i < all.len()
            invariant
                every == self.every_chunk(),
                all@.len() == every.len(),
                forall|k: int| 0 <= k < all@.len() ==> *(#[trigger] all@[k]) == every[k],
                i <= all@.len(),
                out@.len() == at_level(every.take(i as int), level).len(),
                forall|k: int| 0 <= k < out@.len() ==> *(#[trigger] out@[k]) == at_level(every.take(i as int), level)[k],
            decreases all@.len() - i,
        {
            proof {
                let pre = every.take(i as int);
                let nxt = every.take(i + 1);
                assert(nxt.drop_last() =~= pre);
                assert(nxt.last() == every[i as int]);
                assert(at_level(nxt, level) == (if every[i as int].level == level {
                    at_level(pre, level).push(every[i as int])
                } else {
                    at_level(pre, level)
                }));
            }
            let c: &Chunk = all[i];
            if c.level == level {
                out.push(c);
            }
            i = i + 1;
        }
        assert(every.take(every.len() as int) =~= every);
        out
    }

    /// The chunks whose parent is the given chunk, in hierarchy order.
    pub fn get_children(&self, parent_id: u128) -> (r: Vec<&Chunk>)
        ensures
            r@.len() == children_of(self.every_chunk(), parent_id).len(),
            forall|k: int| 0 <= k < r@.len() ==> *(#[trigger] r@[k]) == children_of(self.every_chunk(), parent_id)[k],
    {
        let all = self.all_chunks();
        let ghost every = self.every_chunk();
        let mut out: Vec<&Chunk> = Vec::new();
        let mut i: usize = 0;
        assert(children_of(every.take(0), parent_id) =~= Seq::<Chunk>::empty());
        while i < all.len()
            invariant
                every == self.every_chunk(),
                all@.len() == every.len(),
                forall|k: int| 0 <= k < all@.len() ==> *(#[trigger] all@[k]) == every[k],
                i <= all@.len(),
                out@.len() == children_of(every.take(i as int), parent_id).len(),
                forall|k: int| 0 <= k < out@.len() ==> *(#[trigger] out@[k]) == children_of(every.take(i as int), parent_id)[k],
            decreases all@.len() - i,
        {
            proof {
                let pre = every.take(i as int);
                let nxt = every.take(i + 1);
                assert(nxt.drop_last() =~= pre);
                assert(nxt.last() == every[i as int]);
                assert(children_of(nxt, parent_id) == (if every[i as int].parent_id == Some(parent_id) {
                    children_of(pre, parent_id).push(every[i as int])
                } else {
                    children_of(pre, parent_id)
                }));
            }
            let c: &Chunk = all[i];
            let is_child = match c.parent_id {
                Some(p) => p == parent_id,
                None => false,
            };
            if is_child {
                out.push(c);
            }
            i = i + 1;
        }
        assert(every.take(every.len() as int) =~= every);
        out
    }
}

/// The summary of a text: the text itself when it fits in `limit` bytes;
/// otherwise its first `limit` bytes followed by `...`.
pub open spec fn summary_of(text: Seq<char>, limit: int) -> Seq<char> {
    if str_len(text) > limit {
        byte_slice(text, 0, limit) + "..."@
    } else {
        text
    }
}

/// The byte budget of a document summary: the maximum document size, at
/// most 500.
pub open spec fn summary_limit(c: HierarchicalChunkConfig) -> int {
    if c.max_document_size < 500 {
        c.max_document_size as int
    } else {
        500
    }
}

/// Whether a text's summary can be cut: it fits, or its cut falls on a
/// char boundary.
pub open spec fn summary_cuttable(text: Seq<char>, limit: int) -> bool {
    str_len(text) > limit ==> sliceable(text, 0, limit)
}

/// The byte ranges `(start, end)` that a sentence is cut into: the whole
/// sentence when it fits in `m` bytes, else consecutive pieces of `m`
/// bytes, the last one shorter.
pub open spec fn sentence_cuts(s: Seq<char>, m: int) -> Seq<(int, int)> {
    let l = str_len(s) as int;
    if l > m && m > 0 {
        Seq::new(
            ((l + m - 1) / m) as nat,
            |j: int| (j * m, if (j + 1) * m < l { (j + 1) * m } else { l }),
        )
    } else {
        seq![(0, l)]
    }
}

/// Whether a sentence can be cut into pieces of `m` bytes without a panic:
/// it fits, or `m` is positive, the piece count can be computed, and every
/// cut falls on a char boundary.
pub open spec fn sentence_cuttable(s: Seq<char>, m: int) -> bool {
    let l = str_len(s) as int;
    l > m ==> {
        &&& m > 0
        &&& l + m <= usize::MAX
        &&& forall|j: int| 0 <= j < (l + m - 1) / m ==> #[trigger] piece_sliceable(s, m, j)
    }
}

/// Whether piece `j` of `m` bytes can be cut out of a sentence.
pub open spec fn piece_sliceable(s: Seq<char>, m: int, j: int) -> bool {
    let l = str_len(s) as int;
    sliceable(s, j * m, if (j + 1) * m < l { (j + 1) * m } else { l })
}

/// Whether every sentence can be cut into pieces of `m` bytes.
pub open spec fn sentences_cuttable(ss: Seq<Seq<char>>, m: int) -> bool {
    forall|i: int| 0 <= i < ss.len() ==> sentence_cuttable(#[trigger] ss[i], m)
}

/// The pieces of a list of sentences, in order: the sentence's position,
/// the piece's text and its byte range within the sentence.
pub open spec fn sentence_pieces(ss: Seq<Seq<char>>, m: int) -> Seq<(int, Seq<char>, int, int)>
    decreases ss.len(),
{
    if ss.len() == 0 {
        Seq::empty()
    } else {
        let i = ss.len() - 1;
        let s = ss.last();
        let l = str_len(s) as int;
        sentence_pieces(ss.drop_last(), m) + sentence_cuts(s, m).map_values(
            |c: (int, int)| (i, if l > m { byte_slice(s, c.0, c.1) } else { s }, c.0, c.1),
        )
    }
}

/// Whether the chunks are the sentence-level chunks of the pieces under
/// the given parent: numbered by their sentence, at level 2.
pub open spec fn sentence_chunks(cs: Seq<Chunk>, pieces: Seq<(int, Seq<char>, int, int)>, parent: u128) -> bool {
    &&& cs.len() == pieces.len()
    &&& forall|k: int| 0 <= k < cs.len() ==> {
        &&& (#[trigger] cs[k]).index == pieces[k].0
        &&& cs[k].content@ == pieces[k].1
        &&& cs[k].range.0 == pieces[k].2
        &&& cs[k].range.1 == pieces[k].3
        &&& cs[k].chunk_type == ChunkType::Sentence
        &&& cs[k].parent_id == Some(parent)
        &&& cs[k].level == 2
        &&& cs[k].boundary_score == 0
        &&& cs[k].child_ids@.len() == 0
    }
}

proof fn lemma_piece_bounds(l: int, m: int, j: int)
    requires
        m > 0,
        0 <= j < (l + m - 1) / m,
        l > m,
    ensures
        0 <= j * m < l,
        (j + 1) * m <= l + m - 1,
{
    assert(j * m < l) by (nonlinear_arith)
        requires
            m > 0,
            0 <= j,
            j < (l + m - 1) / m,
    ;
    assert((j + 1) * m <= l + m - 1) by (nonlinear_arith)
        requires
            m > 0,
            0 <= j,
            j < (l + m - 1) / m,
    ;
    assert(0 <= j * m) by (nonlinear_arith)
        requires
            m > 0,
            0 <= j,
    ;
}

/// Hierarchical chunking strategy: a document summary (level 0), paragraph
/// chunks found by semantic chunking (level 1), and sentence chunks
/// (level 2), each linked to its parent. Its configuration is always a
/// valid one, and its semantic chunker is set up for paragraphs.
#[derive(Debug)]
pub struct HierarchicalChunker {
    config: HierarchicalChunkConfig,
    semantic_chunker: SemanticChunker,
}

/// The semantic configuration that a hierarchical chunker uses for its
/// paragraphs: paragraphs of at most the paragraph size, threshold 0.3.
pub open spec fn paragraph_semantic_config(c: HierarchicalChunkConfig) -> SemanticChunkConfig {
    SemanticChunkConfig {
        max_chunk_size: c.max_paragraph_size,
        min_chunk_size: c.max_paragraph_size / 10,
        boundary_threshold: 300,
        window_size: 2,
        base: ChunkingConfig {
            max_chunk_size: c.max_paragraph_size,
            min_chunk_size: c.max_paragraph_size / 10,
            semantic_threshold: 300,
            ..default_chunking_config()
        },
    }
}

impl HierarchicalChunker {
    #[verifier::type_invariant]
    spec fn wf(self) -> bool {
        &&& hierarchical_config_ok(self.config)
        &&& self.semantic_chunker.settings() == paragraph_semantic_config(self.config)
    }

    /// The configuration of this chunker.
    pub closed spec fn settings(self) -> HierarchicalChunkConfig {
        self.config
    }

    /// A chunker with the default configuration.
    pub fn new() -> (r: Result<HierarchicalChunker, ChunkingError>)
        ensures
            r matches Ok(ch) && ch.settings() == default_hierarchical_config(),
    {
        HierarchicalChunker::with_config(HierarchicalChunkConfig::default())
    }

    /// A chunker with the given configuration, if it is valid.
    pub fn with_config(config: HierarchicalChunkConfig) -> (r: Result<HierarchicalChunker, ChunkingError>)
        ensures
            r is Ok <==> hierarchical_config_ok(config),
            r matches Ok(ch) ==> ch.settings() == config,
            config.max_document_size <= config.max_paragraph_size ==> (r matches Err(ChunkingError::InvalidChunkSize(m))
                && m@ == "document size must be greater than paragraph size"@),
            config.max_document_size > config.max_paragraph_size && config.max_paragraph_size <= config.max_sentence_size
                ==> (r matches Err(ChunkingError::InvalidChunkSize(m))
                && m@ == "paragraph size must be greater than sentence size"@),
    {
        match config.validate() {
            Ok(()) => {},
            Err(e) => {
                return Err(e);
            },
        }
        let semantic_config = SemanticChunkConfig::new(config.max_paragraph_size, 300);
        match SemanticChunker::with_config(semantic_config) {
            Ok(semantic_chunker) => Ok(HierarchicalChunker { config, semantic_chunker }),
            Err(e) => {
                proof {
                    assert(false);
                }
                Err(e)
            },
        }
    }

    /// The name of this strategy.
    pub fn name(&self) -> (r: &'static str)
        ensures
            r@ == "hierarchical"@,
    {
        "hierarchical"
    }

    /// The base configuration of this chunker.
    pub fn config(&self) -> (r: &ChunkingConfig)
        ensures
            *r == self.settings().base,
    {
        &self.config.base
    }

    /// The document-level chunk of a text: its summary, at level 0, with
    /// the given paragraphs as children.
    pub fn create_document_chunk(&self, text: &str, paragraphs: &[Chunk]) -> (r: Result<Chunk, ChunkingError>)
        requires
            summary_cuttable(text@, summary_limit(self.settings())),
        ensures
            r matches Ok(c) && {
                &&& c.content@ == summary_of(text@, summary_limit(self.settings()))
                &&& c.index == 0
                &&& c.range == (0usize, str_len(c.content@))
                &&& c.chunk_type == ChunkType::Document
                &&& c.level == 0
                &&& c.parent_id is None
                &&& c.boundary_score == 0
                &&& c.child_ids@ == paragraphs@.map_values(|p: Chunk| p.id)
            },
    {
        let summary_len: usize = if self.config.max_document_size < 500 {
            self.config.max_document_size
        } else {
            500
        };
        let summary = if text.len() > summary_len {
            let prefix = slice_str(text, 0, summary_len);
            String::from_str(prefix).concat("...")
        } else {
            String::from_str(text)
        };
        let n = summary.as_str().len();
        let mut chunk = Chunk::new(summary, 0, (0, n), ChunkType::Document).with_level(0);
        let mut i: usize = 0;
        while i < paragraphs.len()
            invariant
                i <= paragraphs@.len(),
                chunk.content@ == summary_of(text@, summary_limit(self.settings())),
                chunk.index == 0,
                chunk.range == (0usize, n),
                n == str_len(chunk.content@),
                chunk.chunk_type == ChunkType::Document,
                chunk.level == 0,
                chunk.parent_id is None,
                chunk.boundary_score == 0,
                chunk.child_ids@ == paragraphs@.take(i as int).map_values(|p: Chunk| p.id),
            decreases paragraphs@.len() - i,
        {
            chunk.add_child(paragraphs[i].id);
            assert(paragraphs@.take(i + 1).map_values(|p: Chunk| p.id) =~= paragraphs@.take(i as int).map_values(
                |p: Chunk| p.id,
            ).push(paragraphs@[i as int].id));
            i = i + 1;
        }
        assert(paragraphs@.take(paragraphs@.len() as int) =~= paragraphs@);
        Ok(chunk)
    }

    /// The sentence-level chunks of a paragraph: one per sentence, or, for
    /// a sentence longer than the maximum sentence size, one per piece of
    /// that many bytes; each under the paragraph, at level 2.
    pub fn create_sentence_chunks(&self, paragraph: &Chunk) -> (r: Result<Vec<Chunk>, ChunkingError>)
        requires
            sentences_cuttable(sentences(paragraph.content@), self.settings().max_sentence_size as int),
        ensures
            r matches Ok(cs) && sentence_chunks(
                cs@,
                sentence_pieces(sentences(paragraph.content@), self.settings().max_sentence_size as int),
                paragraph.id,
            ),
    {
        let sents = split_into_sentences(paragraph.content.as_str());
        let ghost ss = views(sents@);
        let ghost m = self.config.max_sentence_size as int;
        let max = self.config.max_sentence_size;
        let pid = paragraph.id;
        let mut chunks: Vec<Chunk> = Vec::new();
        let mut i: usize = 0;
        assert(ss.take(0) =~= Seq::<Seq<char>>::empty());
        while i < sents.len()
            invariant
                ss == views(sents@),
                ss == sentences(paragraph.content@),
                m == max,
                pid == paragraph.id,
                sentences_cuttable(ss, m),
                i <= ss.len(),
                sentence_chunks(chunks@, sentence_pieces(ss.take(i as int), m), pid),
            decreases ss.len() - i,
        {
            let ghost before = chunks@;
            let ghost s = ss[i as int];
            let ghost cuts = sentence_cuts(s, m);
            let ghost l = str_len(s) as int;
            proof {
                assert(ss.take(i + 1).drop_last() =~= ss.take(i as int));
                assert(ss.take(i + 1).last() == s);
                assert(sentence_cuttable(ss[i as int], m));
            }
            let text = sents[i].as_str();
            let len = text.len();
            assert(text@ == s);
            if len > max {
                proof {
                    assert(len as int == l);
                    assert(sentence_cuttable(s, m));
                    assert(m > 0 && l + m <= usize::MAX);
                }
                let needed = (len + max - 1) / max;
                let mut j: usize = 0;
                while j < needed
                    invariant
                        ss == views(sents@),
                        s == ss[i as int],
                        text@ == s,
                        l == str_len(s) as int,
                        len == l,
                        m == max,
                        l > m,
                        m > 0,
                        l + m <= usize::MAX,
                        needed == (l + m - 1) / m,
                        cuts == sentence_cuts(s, m),
                        cuts.len() == needed,
                        sentence_cuttable(s, m),
                        j <= needed,
                        chunks@.len() == before.len() + j,
                        forall|k: int| 0 <= k < before.len() ==> chunks@[k] == before[k],
                        forall|k: int| 0 <= k < j ==> {
                            &&& (#[trigger] chunks@[before.len() + k]).index == i
                            &&& chunks@[before.len() + k].content@ == byte_slice(s, cuts[k].0, cuts[k].1)
                            &&& chunks@[before.len() + k].range.0 == cuts[k].0
                            &&& chunks@[before.len() + k].range.1 == cuts[k].1
                            &&& chunks@[before.len() + k].chunk_type == ChunkType::Sentence
                            &&& chunks@[before.len() + k].parent_id == Some(pid)
                            &&& chunks@[before.len() + k].level == 2
                            &&& chunks@[before.len() + k].boundary_score == 0
                            &&& chunks@[before.len() + k].child_ids@.len() == 0
                        },
                    decreases needed - j,
                {
                    proof {
                        lemma_piece_bounds(l, m, j as int);
                        assert(piece_sliceable(s, m, j as int));
                    }
                    let start = j * max;
                    let end = if (j + 1) * max < len {
                        (j + 1) * max
                    } else {
                        len
                    };
                    let part = slice_str(text, start, end);
                    let c = Chunk::new(String::from_str(part), i, (start, end), ChunkType::Sentence).with_parent(
                        pid,
                    ).with_level(2);
                    chunks.push(c);
                    j = j + 1;
                }
                proof {
                    let mapped = cuts.map_values(
                        |c: (int, int)| (i as int, if l > m { byte_slice(s, c.0, c.1) } else { s }, c.0, c.1),
                    );
                    assert(sentence_pieces(ss.take(i + 1), m) == sentence_pieces(ss.take(i as int), m) + mapped);
                    assert forall|k: int| 0 <= k < chunks@.len() implies {
                        &&& (#[trigger] chunks@[k]).index == (sentence_pieces(ss.take(i as int), m) + mapped)[k].0
                        &&& chunks@[k].content@ == (sentence_pieces(ss.take(i as int), m) + mapped)[k].1
                        &&& chunks@[k].range.0 == (sentence_pieces(ss.take(i as int), m) + mapped)[k].2
                        &&& chunks@[k].range.1 == (sentence_pieces(ss.take(i as int), m) + mapped)[k].3
                        &&& chunks@[k].chunk_type == ChunkType::Sentence
                        &&& chunks@[k].parent_id == Some(pid)
                        &&& chunks@[k].level == 2
                        &&& chunks@[k].boundary_score == 0
                        &&& chunks@[k].child_ids@.len() == 0
                    } by {
                        if k >= before.len() {
                            let q = k - before.len();
                            assert(chunks@[before.len() + q] == chunks@[k]);
                            assert(mapped[q] == (i as int, byte_slice(s, cuts[q].0, cuts[q].1), cuts[q].0, cuts[q].1));
                            assert((sentence_pieces(ss.take(i as int), m) + mapped)[k] == mapped[q]);
                        } else {
                            assert(chunks@[k] == before[k]);
                            assert((sentence_pieces(ss.take(i as int), m) + mapped)[k] == sentence_pieces(ss.take(i as int), m)[k]);
                        }
                    }
                }
            } else {
                let c = Chunk::new(sents[i].clone(), i, (0, len), ChunkType::Sentence).with_parent(pid).with_level(2);
                chunks.push(c);
                proof {
                    let mapped = cuts.map_values(
                        |c: (int, int)| (i as int, if l > m { byte_slice(s, c.0, c.1) } else { s }, c.0, c.1),
                    );
                    assert(cuts == seq![(0int, l)]);
                    assert(sentence_pieces(ss.take(i + 1), m) == sentence_pieces(ss.take(i as int), m) + mapped);
                    assert(mapped =~= seq![(i as int, s, 0int, l)]);
                }
            }
            i = i + 1;
        }
        assert(ss.take(ss.len() as int) =~= ss);
        Ok(chunks)
    }
}

/// The texts of the paragraphs that semantic chunking makes of a trimmed
/// text, under a hierarchical configuration.
pub open spec fn paragraph_texts(t: Seq<char>, c: HierarchicalChunkConfig) -> Seq<Seq<char>> {
    let ss = sentences(t);
    semantic_cuts(ss, paragraph_semantic_config(c)).map_values(|cut: (int, int)| joined(ss.subrange(cut.0, cut.1)))
}

/// Whether hierarchical chunking of a text runs without a panic: the
/// paragraph pass fits in `usize`, every sentence of every paragraph can be
/// cut to the sentence size, and the summary can be cut.
pub open spec fn hierarchical_fits(text: Seq<char>, c: HierarchicalChunkConfig) -> bool {
    let t = trimmed(text);
    &&& semantic_fits(t, paragraph_semantic_config(c))
    &&& forall|k: int| 0 <= k < paragraph_texts(t, c).len() ==> sentences_cuttable(
        sentences(#[trigger] paragraph_texts(t, c)[k]),
        c.max_sentence_size as int,
    )
    &&& summary_cuttable(t, summary_limit(c))
}

/// Whether `sc` is the sentence chunks of the paragraphs, in order: for
/// each paragraph, the chunks of the pieces of its sentences, under it.
pub open spec fn sentence_blocks(sc: Seq<Chunk>, paras: Seq<Chunk>, m: int) -> bool
    decreases paras.len(),
{
    if paras.len() == 0 {
        sc.len() == 0
    } else {
        let p = paras.last();
        let pieces = sentence_pieces(sentences(p.content@), m);
        let n = pieces.len();
        &&& n <= sc.len()
        &&& sentence_chunks(sc.subrange(sc.len() - n, sc.len() as int), pieces, p.id)
        &&& sentence_blocks(sc.subrange(0, sc.len() - n), paras.drop_last(), m)
    }
}

/// What hierarchical chunking returns for a text: the document summary
/// (with the paragraphs as children), then the paragraphs that semantic
/// chunking finds (at level 1), then the sentence chunks of each paragraph.
pub open spec fn hierarchy_of(cs: Seq<Chunk>, text: Seq<char>, c: HierarchicalChunkConfig) -> bool {
    let t = trimmed(text);
    let ss = sentences(t);
    let cuts = semantic_cuts(ss, paragraph_semantic_config(c));
    let p = cuts.len();
    let paras = cs.subrange(1, 1 + p as int);
    &&& cs.len() >= 1 + p
    &&& cs[0].content@ == summary_of(t, summary_limit(c))
    &&& cs[0].index == 0
    &&& cs[0].range == (0usize, str_len(cs[0].content@))
    &&& cs[0].chunk_type == ChunkType::Document
    &&& cs[0].level == 0
    &&& cs[0].parent_id is None
    &&& cs[0].boundary_score == 0
    &&& cs[0].child_ids@ == paras.map_values(|q: Chunk| q.id)
    &&& grouped_at(paras, ss, cuts, 1)
    &&& sentence_blocks(cs.subrange(1 + p as int, cs.len() as int), paras, c.max_sentence_size as int)
}

/// The errors of hierarchical chunking: an empty text; a text shorter
/// than the paragraph minimum; a text without sentences; no paragraphs.
pub open spec fn hierarchy_outcome(r: Result<Seq<Chunk>, ChunkingError>, text: Seq<char>, c: HierarchicalChunkConfig) -> bool {
    let t = trimmed(text);
    let ss = sentences(t);
    let min = paragraph_semantic_config(c).min_chunk_size;
    let bytes = str_len(t);
    let p = semantic_cuts(ss, paragraph_semantic_config(c)).len();
    &&& t.len() == 0 <==> (r matches Err(ChunkingError::EmptyInput))
    &&& t.len() > 0 && bytes < min ==> r == Err::<Seq<Chunk>, ChunkingError>(
        ChunkingError::InputTooShort { min, actual: bytes },
    )
    &&& t.len() > 0 && bytes >= min && ss.len() == 0 ==> (r matches Err(ChunkingError::BoundaryDetectionFailed(m))
        && m@ == "No sentences found in text"@)
    &&& t.len() > 0 && bytes >= min && ss.len() > 0 && p == 0 ==> (r matches Err(
        ChunkingError::BoundaryDetectionFailed(m),
    ) && m@ == "No paragraphs found"@)
    &&& t.len() > 0 && bytes >= min && ss.len() > 0 && p > 0 ==> (r matches Ok(cs) && hierarchy_of(cs, text, c))
}

impl HierarchicalChunker {
    /// Builds the child-to-parent map of a list of chunks.
    pub fn build_parent_map(chunks: &[Chunk]) -> (r: HashMap<u128, u128>)
        ensures
            r@ == parent_map_of(chunks@),
    {
        let mut map: HashMap<u128, u128> = HashMap::new();
        let mut i: usize = 0;
        while i < chunks.len()
            invariant
                i <= chunks@.len(),
                map@ == parent_map_of(chunks@.take(i as int)),
            decreases chunks@.len() - i,
        {
            assert(chunks@.take(i + 1).drop_last() =~= chunks@.take(i as int));
            match chunks[i].parent_id {
                Some(p) => {
                    map.insert(chunks[i].id, p);
                },
                None => {},
            }
            i = i + 1;
        }
        assert(chunks@.take(chunks@.len() as int) =~= chunks@);
        map
    }

    /// Appends the sentence chunks of paragraph `k` to `all`.
    fn append_sentence_block(&self, all: &mut Vec<Chunk>, paragraphs: &Vec<Chunk>, k: usize) -> (r: Result<(), ChunkingError>)
        requires
            k < paragraphs@.len(),
            sentences_cuttable(sentences(paragraphs@[k as int].content@), self.settings().max_sentence_size as int),
            sentence_blocks(old(all)@, paragraphs@.take(k as int), self.settings().max_sentence_size as int),
        ensures
            r is Ok,
            sentence_blocks(final(all)@, paragraphs@.take(k + 1), self.settings().max_sentence_size as int),
    {
        let ghost m = self.settings().max_sentence_size as int;
        let mut block = match self.create_sentence_chunks(&paragraphs[k]) {
            Ok(b) => b,
            Err(e) => {
                return Err(e);
            },
        };
        let ghost old_all = all@;
        let ghost b = block@;
        all.append(&mut block);
        proof {
            let now = all@;
            let paras = paragraphs@.take(k + 1);
            assert(paras.drop_last() =~= paragraphs@.take(k as int));
            assert(paras.last() == paragraphs@[k as int]);
            assert(now.subrange(now.len() - b.len(), now.len() as int) =~= b);
            assert(now.subrange(0, now.len() - b.len()) =~= old_all);
        }
        Ok(())
    }

    /// Chunks a text into a hierarchy: the trimmed text is cut into
    /// paragraphs by semantic chunking (set to level 1), each paragraph
    /// into sentence chunks, and a document summary is put first.
    pub fn chunk(&self, text: &str, metadata: ChunkMetadata) -> (r: Result<Vec<Chunk>, ChunkingError>)
        requires
            hierarchical_fits(text@, self.settings()),
        ensures
            hierarchy_outcome(result_seq(r), text@, self.settings()),
    {
        proof {
            use_type_invariant(self);
            lemma_trimmed_idempotent(text@);
        }
        let ghost c = self.config;
        let ghost t = trimmed(text@);
        let ghost ss = sentences(t);
        let ghost cuts = semantic_cuts(ss, paragraph_semantic_config(c));
        let ghost m = c.max_sentence_size as int;
        let trimmed_text = trim_str(text);
        if trimmed_text.as_str().is_empty() {
            return Err(ChunkingError::EmptyInput);
        }
        let found = self.semantic_chunker.chunk(trimmed_text.as_str(), ChunkMetadata::new());
        let raw = match found {
            Ok(v) => v,
            Err(e) => {
                return Err(e);
            },
        };
        let mut paragraphs: Vec<Chunk> = Vec::new();
        let mut raw = raw;
        let ghost raw_all = raw@;
        let mut rev: Vec<Chunk> = Vec::new();
        while raw.len() > 0
            invariant
                raw_all.len() == raw@.len() + rev@.len(),
                raw@ == raw_all.take(raw@.len() as int),
                forall|k: int| 0 <= k < rev@.len() ==> rev@[k] == raw_all[raw_all.len() - 1 - k],
            decreases raw@.len(),
        {
            let ghost before = raw@;
            match raw.pop() {
                Some(x) => {
                    rev.push(x);
                    assert(raw@ =~= raw_all.take(raw@.len() as int));
                },
                None => {},
            }
        }
        while rev.len() > 0
            invariant
                raw_all.len() == paragraphs@.len() + rev@.len(),
                forall|k: int| 0 <= k < rev@.len() ==> rev@[k] == raw_all[raw_all.len() - 1 - k],
                forall|k: int| 0 <= k < paragraphs@.len() ==> (#[trigger] paragraphs@[k]) == (Chunk {
                    level: 1,
                    ..raw_all[k]
                }),
            decreases rev@.len(),
        {
            match rev.pop() {
                Some(x) => {
                    paragraphs.push(Chunk { level: 1, ..x });
                },
                None => {},
            }
        }
        if paragraphs.len() == 0 {
            return Err(ChunkingError::BoundaryDetectionFailed(String::from_str("No paragraphs found")));
        }
        proof {
            assert(grouped_at(paragraphs@, ss, cuts, 1)) by {
                assert forall|k: int| 0 <= k < paragraphs@.len() implies (#[trigger] paragraphs@[k]).level == 1 by {}
            }
        }
        proof {
            assert forall|j: int| 0 <= j < paragraphs@.len() implies sentences_cuttable(
                sentences(#[trigger] paragraphs@[j].content@),
                m,
            ) by {
                assert(paragraph_texts(t, c)[j] == paragraphs@[j].content@);
            }
        }
        let mut sentence_chunks_all: Vec<Chunk> = Vec::new();
        let mut k: usize = 0;
        assert(sentence_blocks(sentence_chunks_all@, paragraphs@.take(0), m));
        while k < paragraphs.len()
            invariant
                k <= paragraphs@.len(),
                m == self.settings().max_sentence_size,
                forall|j: int| 0 <= j < paragraphs@.len() ==> sentences_cuttable(
                    sentences(#[trigger] paragraphs@[j].content@),
                    m,
                ),
                sentence_blocks(sentence_chunks_all@, paragraphs@.take(k as int), m),
            decreases paragraphs@.len() - k,
        {
            match self.append_sentence_block(&mut sentence_chunks_all, &paragraphs, k) {
                Ok(()) => {},
                Err(e) => {
                    return Err(e);
                },
            }
            k = k + 1;
        }
        assert(paragraphs@.take(paragraphs@.len() as int) =~= paragraphs@);
        let document = match self.create_document_chunk(trimmed_text.as_str(), paragraphs.as_slice()) {
            Ok(d) => d,
            Err(e) => {
                return Err(e);
            },
        };
        let mut all_chunks: Vec<Chunk> = Vec::new();
        all_chunks.push(document);
        let np = paragraphs.len();
        let ghost paras = paragraphs@;
        let ghost sents = sentence_chunks_all@;
        let mut paragraphs = paragraphs;
        let mut sentence_chunks_all = sentence_chunks_all;
        all_chunks.append(&mut paragraphs);
        all_chunks.append(&mut sentence_chunks_all);
        proof {
            assert(all_chunks@.subrange(1, 1 + np as int) =~= paras);
            assert(all_chunks@.subrange(1 + np as int, all_chunks@.len() as int) =~= sents);
        }
        Ok(all_chunks)
    }
}

/// The chunks of the given type, in order.
pub open spec fn of_type(cs: Seq<Chunk>, t: ChunkType) -> Seq<Chunk>
    decreases cs.len(),
{
    if cs.len() == 0 {
        Seq::empty()
    } else if cs.last().chunk_type == t {
        of_type(cs.drop_last(), t).push(cs.last())
    } else {
        of_type(cs.drop_last(), t)
    }
}

/// The chunks that are neither documents nor paragraphs, in order.
pub open spec fn lower_chunks(cs: Seq<Chunk>) -> Seq<Chunk>
    decreases cs.len(),
{
    if cs.len() == 0 {
        Seq::empty()
    } else if cs.last().chunk_type != ChunkType::Document && cs.last().chunk_type != ChunkType::Paragraph {
        lower_chunks(cs.drop_last()).push(cs.last())
    } else {
        lower_chunks(cs.drop_last())
    }
}

/// Whether `h` sorts the chunks by type (other types going with the
/// sentences) and maps each child to its parent.
pub open spec fn sorted_by_type(h: HierarchicalChunks, cs: Seq<Chunk>) -> bool {
    &&& h.documents@ == of_type(cs, ChunkType::Document)
    &&& h.paragraphs@ == of_type(cs, ChunkType::Paragraph)
    &&& h.sentences@ == lower_chunks(cs)
    &&& h.parent_map@ == parent_map_of(h.every_chunk())
}

/// Sorts chunks by type and maps each child to its parent.
fn sort_by_type(all: Vec<Chunk>) -> (r: HierarchicalChunks)
    ensures
        sorted_by_type(r, all@),
{
    let ghost whole = all@;
    let mut all = all;
    let mut rev: Vec<Chunk> = Vec::new();
    while all.len() > 0
        invariant
            whole.len() == all@.len() + rev@.len(),
            all@ == whole.take(all@.len() as int),
            forall|k: int| 0 <= k < rev@.len() ==> rev@[k] == whole[whole.len() - 1 - k],
        decreases all@.len(),
    {
        match all.pop() {
            Some(x) => {
                rev.push(x);
                assert(all@ =~= whole.take(all@.len() as int));
            },
            None => {},
        }
    }
    let mut documents: Vec<Chunk> = Vec::new();
    let mut paragraphs: Vec<Chunk> = Vec::new();
    let mut sentences: Vec<Chunk> = Vec::new();
    assert(whole.take(0) =~= Seq::<Chunk>::empty());
    while rev.len() > 0
        invariant
            whole.len() >= rev@.len(),
            forall|k: int| 0 <= k < rev@.len() ==> rev@[k] == whole[whole.len() - 1 - k],
            documents@ == of_type(whole.take(whole.len() - rev@.len()), ChunkType::Document),
            paragraphs@ == of_type(whole.take(whole.len() - rev@.len()), ChunkType::Paragraph),
            sentences@ == lower_chunks(whole.take(whole.len() - rev@.len())),
        decreases rev@.len(),
    {
        let ghost i = whole.len() - rev@.len();
        proof {
            assert(whole.take(i + 1).drop_last() =~= whole.take(i));
            assert(whole.take(i + 1).last() == whole[i]);
        }
        match rev.pop() {
            Some(x) => {
                match x.chunk_type {
                    ChunkType::Document => documents.push(x),
                    ChunkType::Paragraph => paragraphs.push(x),
                    _ => sentences.push(x),
                }
            },
            None => {},
        }
    }
    assert(whole.take(whole.len() as int) =~= whole);
    let mut map: HashMap<u128, u128> = HashMap::new();
    let ghost d = documents@;
    let ghost p = paragraphs@;
    let ghost q = sentences@;
    let mut i: usize = 0;
    assert(d.take(0) =~= Seq::<Chunk>::empty());
    while i < documents.len()
        invariant
            d == documents@,
            i <= d.len(),
            map@ == parent_map_of(d.take(i as int)),
        decreases d.len() - i,
    {
        assert(d.take(i + 1).drop_last() =~= d.take(i as int));
        match documents[i].parent_id {
            Some(pid) => {
                map.insert(documents[i].id, pid);
            },
            None => {},
        }
        i = i + 1;
    }
    assert(d.take(d.len() as int) =~= d + p.take(0));
    let mut j: usize = 0;
    while j < paragraphs.len()
        invariant
            p == paragraphs@,
            j <= p.len(),
            map@ == parent_map_of(d + p.take(j as int)),
        decreases p.len() - j,
    {
        assert((d + p.take(j + 1)).drop_last() =~= d + p.take(j as int));
        assert((d + p.take(j + 1)).last() == p[j as int]);
        match paragraphs[j].parent_id {
            Some(pid) => {
                map.insert(paragraphs[j].id, pid);
            },
            None => {},
        }
        j = j + 1;
    }
    assert(d + p.take(p.len() as int) =~= d + p + q.take(0));
    let mut k: usize = 0;
    while k < sentences.len()
        invariant
            q == sentences@,
            k <= q.len(),
            map@ == parent_map_of(d + p + q.take(k as int)),
        decreases q.len() - k,
    {
        assert((d + p + q.take(k + 1)).drop_last() =~= d + p + q.take(k as int));
        assert((d + p + q.take(k + 1)).last() == q[k as int]);
        match sentences[k].parent_id {
            Some(pid) => {
                map.insert(sentences[k].id, pid);
            },
            None => {},
        }
        k = k + 1;
    }
    assert(d + p + q.take(q.len() as int) =~= d + p + q);
    HierarchicalChunks { documents, paragraphs, sentences, parent_map: map }
}

impl HierarchicalChunker {
    /// Chunks a text into a hierarchy and sorts the chunks by level, with
    /// the map from each child to its parent.
    pub fn chunk_hierarchical(&self, text: &str, metadata: ChunkMetadata) -> (r: Result<HierarchicalChunks, ChunkingError>)
        requires
            hierarchical_fits(text@, self.settings()),
        ensures
            r matches Ok(h) ==> exists|cs: Seq<Chunk>|
                hierarchy_outcome(Ok(cs), text@, self.settings()) && #[trigger] sorted_by_type(h, cs),
            r matches Err(e) ==> hierarchy_outcome(Err(e), text@, self.settings()),
    {
        match self.chunk(text, metadata) {
            Ok(all) => {
                let ghost cs = all@;
                let h = sort_by_type(all);
                assert(hierarchy_outcome(Ok(cs), text@, self.settings()) && sorted_by_type(h, cs));
                let res: Result<HierarchicalChunks, ChunkingError> = Ok(h);
                assert(res matches Ok(hh) ==> exists|x: Seq<Chunk>|
                    hierarchy_outcome(Ok(x), text@, self.settings()) && #[trigger] sorted_by_type(hh, x)) by {
                    let hh = res->Ok_0;
                    assert(hh == h);
                    assert(sorted_by_type(hh, cs));
                }
                res
            },
            Err(e) => {
                assert(hierarchy_outcome(Err(e), text@, self.settings()));
                Err(e)
            },
        }
    }
}

impl Default for HierarchicalChunker {
    fn default() -> (r: HierarchicalChunker)
        ensures
            r.settings() == default_hierarchical_config(),
    {
        match HierarchicalChunker::new() {
            Ok(c) => c,
            Err(_) => {
                proof {
                    assert(false);
                }
                HierarchicalChunker { config: HierarchicalChunkConfig::default(), semantic_chunker: SemanticChunker::new() }
            },
        }
    }
}

} // verus!
