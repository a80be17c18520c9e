//! Semantic chunking: sentences are grouped into chunks, cut where the
//! vocabulary of the text changes and where a chunk would grow too large.

use vstd::prelude::*;
use crate::chunk::{Chunk, ChunkType, result_seq};
use crate::chunk_error::ChunkingError;
use crate::strategy::{ChunkingConfig, ChunkMetadata, default_chunking_config, sentences, split_into_sentences, views};
use crate::text::{chars_of, str_len, string_from_chars, trim_str, trimmed, utf8_len};
use crate::words::{overlap_counts, word_overlap};

verus! {

broadcast use vstd::string::group_string_axioms;

/// Configuration for semantic chunking. The boundary threshold, a
/// fraction between 0 and 1, is kept in thousandths.
#[derive(Debug, Clone, Copy, PartialEq, Eq)]
pub struct SemanticChunkConfig {
    /// Base chunking configuration.
    pub base: ChunkingConfig,
    /// Maximum chunk size in bytes.
    pub max_chunk_size: usize,
    /// Minimum chunk size in bytes.
    pub min_chunk_size: usize,
    /// Similarity threshold for boundary detection, in thousandths (0 to
    /// 1000); lower values make fewer boundaries.
    pub boundary_threshold: u32,
    /// Number of sentences on each side compared at a boundary.
    pub window_size: usize,
}

/// The default semantic configuration.
pub open spec fn default_semantic_config() -> SemanticChunkConfig {
    SemanticChunkConfig {
        base: default_chunking_config(),
        max_chunk_size: 1000,
        min_chunk_size: 100,
        boundary_threshold: 300,
        window_size: 2,
    }
}

impl Default for SemanticChunkConfig {
    fn default() -> (r: SemanticChunkConfig)
        ensures
            r == default_semantic_config(),
    {
        SemanticChunkConfig {
            base: ChunkingConfig::default(),
            max_chunk_size: 1000,
            min_chunk_size: 100,
            boundary_threshold: 300,
            window_size: 2,
        }
    }
}

/// Whether a semantic configuration passes `SemanticChunkConfig::validate`.
pub open spec fn semantic_config_ok(c: SemanticChunkConfig) -> bool {
    &&& c.max_chunk_size > 0
    &&& c.min_chunk_size <= c.max_chunk_size
    &&& c.boundary_threshold <= 1000
}

impl SemanticChunkConfig {
    /// A configuration with the given maximum size and threshold (in
    /// thousandths); the minimum is a tenth of the maximum and two
    /// sentences are compared on each side.
    pub fn new(max_chunk_size: usize, boundary_threshold: u32) -> (r: SemanticChunkConfig)
        ensures
            r.max_chunk_size == max_chunk_size,
            r.min_chunk_size == max_chunk_size / 10,
            r.boundary_threshold == boundary_threshold,
            r.window_size == 2,
            r.base == (ChunkingConfig {
                max_chunk_size,
                min_chunk_size: max_chunk_size / 10,
                semantic_threshold: boundary_threshold,
                ..default_chunking_config()
            }),
    {
        SemanticChunkConfig {
            max_chunk_size,
            min_chunk_size: max_chunk_size / 10,
            boundary_threshold,
            window_size: 2,
            base: ChunkingConfig {
                max_chunk_size,
                min_chunk_size: max_chunk_size / 10,
                semantic_threshold: boundary_threshold,
                ..ChunkingConfig::default()
            },
        }
    }

    /// Checks a positive maximum, a minimum not above it and a threshold
    /// between 0 and 1; the first check that fails names the error.
    pub fn validate(&self) -> (r: Result<(), ChunkingError>)
        ensures
            r is Ok <==> semantic_config_ok(*self),
            self.max_chunk_size == 0 ==> (r matches Err(ChunkingError::InvalidChunkSize(m))
                && m@ == "max_chunk_size must be greater than 0"@),
            self.max_chunk_size > 0 && self.min_chunk_size > self.max_chunk_size
                ==> (r matches Err(ChunkingError::InvalidChunkSize(m))
                && m@ == "min_chunk_size cannot be greater than max_chunk_size"@),
            self.max_chunk_size > 0 && self.min_chunk_size <= self.max_chunk_size && self.boundary_threshold > 1000
                ==> (r matches Err(ChunkingError::ConfigError(m))
                && m@ == "boundary_threshold must be between 0.0 and 1.0"@),
    {
        if self.max_chunk_size == 0 {
            return Err(ChunkingError::InvalidChunkSize(String::from_str("max_chunk_size must be greater than 0")));
        }
        if self.min_chunk_size > self.max_chunk_size {
            return Err(
                ChunkingError::InvalidChunkSize(String::from_str("min_chunk_size cannot be greater than max_chunk_size")),
            );
        }
        if self.boundary_threshold > 1000 {
            return Err(ChunkingError::ConfigError(String::from_str("boundary_threshold must be between 0.0 and 1.0")));
        }
        Ok(())
    }
}

/// The sentences joined by single spaces.
pub open spec fn joined(parts: Seq<Seq<char>>) -> Seq<char>
    decreases parts.len(),
{
    if parts.len() == 0 {
        Seq::empty()
    } else if parts.len() == 1 {
        parts[0]
    } else {
        joined(parts.drop_last()) + seq![' '] + parts.last()
    }
}

/// Whether the word overlap of two passages is below a threshold given in
/// thousandths: the share of common words among all their words, taken as
/// 0 when they have no words.
pub open spec fn below_threshold(a: Seq<char>, b: Seq<char>, t: int) -> bool {
    let shared = word_overlap(a, b).0;
    let all = word_overlap(a, b).1;
    if all == 0 {
        0 < t
    } else {
        shared * 1000 < t * all
    }
}

/// Whether a semantic boundary lies before sentence `i`: the `w` sentences
/// before it and the `w` from it on (as far as there are any) overlap
/// below the threshold.
pub open spec fn window_boundary(ss: Seq<Seq<char>>, w: int, t: int, i: int) -> bool {
    let lo = if i >= w { i - w } else { 0 };
    let hi = if i + w < ss.len() { i + w } else { ss.len() as int };
    below_threshold(joined(ss.subrange(lo, i)), joined(ss.subrange(i, hi)), t)
}

/// The semantic boundaries at or after sentence `i`, in order.
pub open spec fn boundaries_from(ss: Seq<Seq<char>>, w: int, t: int, i: int) -> Seq<int>
    decreases ss.len() - i,
{
    if i < 0 || i >= ss.len() {
        Seq::empty()
    } else if window_boundary(ss, w, t, i) {
        seq![i] + boundaries_from(ss, w, t, i + 1)
    } else {
        boundaries_from(ss, w, t, i + 1)
    }
}

/// The first semantic boundary among the sentences, or -1 when there is
/// none.
pub open spec fn first_boundary(ss: Seq<Seq<char>>, w: int, t: int) -> int {
    let bs = boundaries_from(ss, w, t, 1);
    if bs.len() > 0 {
        bs[0]
    } else {
        -1
    }
}

/// The lengths in bytes of the sentences.
pub open spec fn byte_lens(ss: Seq<Seq<char>>) -> Seq<int> {
    ss.map_values(|s: Seq<char>| utf8_len(s) as int)
}

/// The byte offset of sentence `i` when each sentence before it is
/// followed by one separator byte.
pub open spec fn offset(lens: Seq<int>, i: int) -> int
    decreases i,
{
    if i <= 0 {
        0
    } else {
        offset(lens, i - 1) + lens[i - 1] + 1
    }
}

/// The sentence ranges `(first, past the last)` of the chunks, grouping
/// from sentence `i` on, where the current chunk starts at sentence
/// `start` and holds `size` bytes. A chunk is closed before sentence `i`
/// when it holds at least `min` bytes and either sentence `i` would take
/// it past `max` or `i` is the first boundary `fb`; the last chunk takes
/// the sentences that remain.
pub open spec fn group_cuts(lens: Seq<int>, fb: int, max: int, min: int, i: int, start: int, size: int) -> Seq<(int, int)>
    decreases lens.len() - i,
{
    if i < 0 || i >= lens.len() {
        if start < lens.len() {
            seq![(start, lens.len() as int)]
        } else {
            Seq::empty()
        }
    } else if size > 0 && size >= min && (size + lens[i] > max || fb == i) {
        seq![(start, i)] + group_cuts(lens, fb, max, min, i + 1, i, lens[i])
    } else {
        group_cuts(lens, fb, max, min, i + 1, start, size + lens[i])
    }
}

/// What the chunks of a grouping hold, at the given level: chunk `k`
/// joins the sentences of its range, carries the byte offsets of that range
/// (the last one ends one byte before the offset past all sentences, or at
/// 0), is a paragraph with a boundary score of 0.8, and is numbered `k`.
pub open spec fn grouped_at(cs: Seq<Chunk>, ss: Seq<Seq<char>>, cuts: Seq<(int, int)>, level: usize) -> bool {
    let lens = byte_lens(ss);
    let total = offset(lens, ss.len() as int);
    &&& cs.len() == cuts.len()
    &&& forall|k: int| 0 <= k < cs.len() ==> {
        &&& 0 <= cuts[k].0 <= cuts[k].1 <= ss.len()
        &&& (#[trigger] cs[k]).content@ == joined(ss.subrange(cuts[k].0, cuts[k].1))
        &&& cs[k].range.0 == offset(lens, cuts[k].0)
        &&& cs[k].range.1 == (if k + 1 < cs.len() {
            offset(lens, cuts[k].1)
        } else if total >= 1 {
            total - 1
        } else {
            0
        })
        &&& cs[k].index == k
        &&& cs[k].chunk_type == ChunkType::Paragraph
        &&& cs[k].boundary_score == 800
        &&& cs[k].parent_id is None
        &&& cs[k].child_ids@.len() == 0
        &&& cs[k].level == level
    }
}

/// What the chunks of a grouping hold (at level 0).
pub open spec fn grouped(cs: Seq<Chunk>, ss: Seq<Seq<char>>, cuts: Seq<(int, int)>) -> bool {
    grouped_at(cs, ss, cuts, 0)
}

/// The sentence ranges of the chunks that semantic chunking makes of the
/// sentences under the given configuration.
pub open spec fn semantic_cuts(ss: Seq<Seq<char>>, c: SemanticChunkConfig) -> Seq<(int, int)> {
    group_cuts(
        byte_lens(ss),
        first_boundary(ss, c.window_size as int, c.boundary_threshold as int),
        c.max_chunk_size as int,
        c.min_chunk_size as int,
        0,
        0,
        0,
    )
}

/// Whether semantic chunking of a trimmed text `t` runs without a panic:
/// the window offsets and the byte offsets of its sentences fit in `usize`.
pub open spec fn semantic_fits(t: Seq<char>, c: SemanticChunkConfig) -> bool {
    let ss = sentences(t);
    &&& ss.len() < 2 || ss.len() - 1 + c.window_size <= usize::MAX
    &&& offset(byte_lens(ss), ss.len() as int) <= usize::MAX
}

proof fn lemma_offset_mono(lens: Seq<int>, i: int, j: int)
    requires
        0 <= i <= j <= lens.len(),
        forall|k: int| 0 <= k < lens.len() ==> lens[k] >= 0,
    ensures
        offset(lens, i) <= offset(lens, j),
    decreases j - i,
{
    if i < j {
        lemma_offset_mono(lens, i, j - 1);
    }
}

/// The chars of sentences `lo..hi` joined by single spaces.
fn join_chars(ss: &[String], lo: usize, hi: usize) -> (r: Vec<char>)
    requires
        lo <= hi <= ss@.len(),
    ensures
        r@ == joined(views(ss@).subrange(lo as int, hi as int)),
{
    let mut r: Vec<char> = Vec::new();
    let mut k = lo;
    assert(views(ss@).subrange(lo as int, lo as int) =~= Seq::<Seq<char>>::empty());
    while k < hi
        invariant
            lo <= k <= hi <= ss@.len(),
            r@ == joined(views(ss@).subrange(lo as int, k as int)),
        decreases hi - k,
    {
        let ghost before = r@;
        let part = chars_of(ss[k].as_str());
        if k > lo {
            r.push(' ');
        }
        let mut j: usize = 0;
        let ghost base = r@;
        while j < part.len()
            invariant
                j <= part@.len(),
                r@ == base + part@.take(j as int),
            decreases part@.len() - j,
        {
            r.push(part[j]);
            assert(part@.take(j + 1) =~= part@.take(j as int).push(part@[j as int]));
            j = j + 1;
        }
        assert(part@.take(part@.len() as int) =~= part@);
        proof {
            let parts = views(ss@).subrange(lo as int, k + 1);
            assert(parts.drop_last() =~= views(ss@).subrange(lo as int, k as int));
            assert(parts.last() == ss@[k as int]@);
            if k == lo {
                assert(parts.len() == 1);
                assert(r@ =~= parts[0]);
            } else {
                assert(r@ =~= joined(parts.drop_last()) + seq![' '] + parts.last());
            }
        }
        k = k + 1;
    }
    r
}

/// Semantic chunking strategy: splits text at the points where the
/// vocabulary of neighbouring sentences changes. Its configuration is always
/// a valid one.
#[derive(Debug)]
pub struct SemanticChunker {
    config: SemanticChunkConfig,
}

impl Clone for SemanticChunker {
    fn clone(&self) -> (r: SemanticChunker)
        ensures
            r.settings() == self.settings(),
    {
        proof {
            use_type_invariant(self);
        }
        SemanticChunker { config: self.config }
    }
}

impl SemanticChunker {
    #[verifier::type_invariant]
    spec fn wf(self) -> bool {
        semantic_config_ok(self.config)
    }

    /// The configuration of this chunker.
    pub closed spec fn settings(self) -> SemanticChunkConfig {
        self.config
    }

    /// A chunker with the default configuration.
    pub fn new() -> (r: SemanticChunker)
        ensures
            r.settings() == default_semantic_config(),
    {
        SemanticChunker { config: SemanticChunkConfig::default() }
    }

    /// A chunker with the given configuration, if it is valid.
    pub fn with_config(config: SemanticChunkConfig) -> (r: Result<SemanticChunker, ChunkingError>)
        ensures
            r is Ok <==> semantic_config_ok(config),
            r matches Ok(ch) ==> ch.settings() == config,
            config.max_chunk_size == 0 ==> (r matches Err(ChunkingError::InvalidChunkSize(m))
                && m@ == "max_chunk_size must be greater than 0"@),
            config.max_chunk_size > 0 && config.min_chunk_size > config.max_chunk_size
                ==> (r matches Err(ChunkingError::InvalidChunkSize(m))
                && m@ == "min_chunk_size cannot be greater than max_chunk_size"@),
            config.max_chunk_size > 0 && config.min_chunk_size <= config.max_chunk_size && config.boundary_threshold
                > 1000 ==> (r matches Err(ChunkingError::ConfigError(m))
                && m@ == "boundary_threshold must be between 0.0 and 1.0"@),
    {
        match config.validate() {
            Ok(()) => Ok(SemanticChunker { config }),
            Err(e) => Err(e),
        }
    }

    /// The name of this strategy.
    pub fn name(&self) -> (r: &'static str)
        ensures
            r@ == "semantic"@,
    {
        "semantic"
    }

    /// The base configuration of this chunker.
    pub fn config(&self) -> (r: &ChunkingConfig)
        ensures
            *r == self.settings().base,
    {
        &self.config.base
    }

    /// The word overlap of two passages: the number of distinct words that
    /// both hold and the number that either holds. Their similarity is the
    /// first over the second (0 when the second is 0).
    pub fn calculate_similarity(&self, text1: &str, text2: &str) -> (r: (usize, usize))
        ensures
            r.0 == word_overlap(text1@, text2@).0,
            r.1 == word_overlap(text1@, text2@).1,
    {
        let a = chars_of(text1);
        let b = chars_of(text2);
        overlap_counts(&a, &b)
    }

    /// The semantic boundaries among the sentences: each index `i` from 1 on
    /// where the window of sentences before `i` and the window from `i` on
    /// overlap below the threshold.
    pub fn find_boundaries(&self, sentences: &[String]) -> (r: Vec<usize>)
        requires
            sentences@.len() < 2 || sentences@.len() - 1 + self.settings().window_size <= usize::MAX,
        ensures
            r@.map_values(|x: usize| x as int) == boundaries_from(
                views(sentences@),
                self.settings().window_size as int,
                self.settings().boundary_threshold as int,
                1,
            ),
    {
        let ghost ss = views(sentences@);
        let ghost w = self.config.window_size as int;
        let ghost t = self.config.boundary_threshold as int;
        let mut out: Vec<usize> = Vec::new();
        if sentences.len() <= 1 {
            assert(out@.map_values(|x: usize| x as int) =~= Seq::<int>::empty());
            return out;
        }
        let n = sentences.len();
        let window = self.config.window_size;
        let threshold = self.config.boundary_threshold;
        let mut i: usize = 1;
        assert(out@.map_values(|x: usize| x as int) =~= Seq::<int>::empty());
        while i < n
            invariant
                n == sentences@.len(),
                ss == views(sentences@),
                ss.len() == n,
                w == window,
                t == threshold,
                1 <= i <= n,
                n - 1 + window <= usize::MAX,
                out@.map_values(|x: usize| x as int) + boundaries_from(ss, w, t, i as int) == boundaries_from(
                    ss,
                    w,
                    t,
                    1,
                ),
            decreases n - i,
        {
            let lo = if i >= window {
                i - window
            } else {
                0
            };
            let hi = if i + window < n {
                i + window
            } else {
                n
            };
            let before = join_chars(sentences, lo, i);
            let after = join_chars(sentences, i, hi);
            let (shared, all) = overlap_counts(&before, &after);
            proof {
                assert((threshold as u128) * (all as u128) <= 0xffff_ffffu128 * 0xffff_ffff_ffff_ffffu128) by (nonlinear_arith)
                    requires
                        threshold <= 0xffff_ffffu32,
                        all <= 0xffff_ffff_ffff_ffffu128,
                ;
                assert((shared as u128) * 1000 <= 0xffff_ffff_ffff_ffffu128 * 1000) by (nonlinear_arith)
                    requires
                        shared <= 0xffff_ffff_ffff_ffffu128,
                ;
            }
            let is_boundary = if all == 0 {
                0 < threshold
            } else {
                (shared as u128) * 1000 < (threshold as u128) * (all as u128)
            };
            let ghost prev = out@.map_values(|x: usize| x as int);
            if is_boundary {
                out.push(i);
                assert(out@.map_values(|x: usize| x as int) =~= prev.push(i as int));
                assert(prev + (seq![i as int] + boundaries_from(ss, w, t, i + 1)) =~= prev.push(i as int)
                    + boundaries_from(ss, w, t, i + 1));
            }
            i = i + 1;
        }
        out
    }

    /// Groups sentences into chunks: a chunk is closed before a sentence
    /// when it holds at least the minimum size and the sentence would take
    /// it past the maximum, or the sentence is the first boundary.
    pub fn group_into_chunks(&self, sentences: &[String], boundaries: &[usize]) -> (r: Result<Vec<Chunk>, ChunkingError>)
        requires
            offset(byte_lens(views(sentences@)), sentences@.len() as int) <= usize::MAX,
        ensures
            r matches Ok(cs) && grouped(
                cs@,
                views(sentences@),
                group_cuts(
                    byte_lens(views(sentences@)),
                    if boundaries@.len() > 0 { boundaries@[0] as int } else { -1 },
                    self.settings().max_chunk_size as int,
                    self.settings().min_chunk_size as int,
                    0,
                    0,
                    0,
                ),
            ),
    {
        let ghost ss = views(sentences@);
        let ghost lens = byte_lens(ss);
        let ghost fb: int = if boundaries@.len() > 0 { boundaries@[0] as int } else { -1 };
        let ghost max = self.config.max_chunk_size as int;
        let ghost min = self.config.min_chunk_size as int;
        let ghost all_cuts = group_cuts(lens, fb, max, min, 0, 0, 0);
        let ghost total = offset(lens, ss.len() as int);
        let n = sentences.len();
        let first_b: Option<usize> = if boundaries.len() > 0 {
            Some(boundaries[0])
        } else {
            None
        };
        let max_size = self.config.max_chunk_size;
        let min_size = self.config.min_chunk_size;
        let mut chunks: Vec<Chunk> = Vec::new();
        let mut current_start: usize = 0;
        let mut current_size: usize = 0;
        let mut chunk_index: usize = 0;
        let mut pos: usize = 0;
        let mut start_pos: usize = 0;
        let ghost mut done: Seq<(int, int)> = Seq::empty();
        let mut i: usize = 0;
        while i < n
            invariant
                n == sentences@.len(),
                ss == views(sentences@),
                ss.len() == n,
                lens == byte_lens(ss),
                total == offset(lens, n as int),
                total <= usize::MAX,
                fb == (if boundaries@.len() > 0 { boundaries@[0] as int } else { -1 }),
                first_b == (if boundaries@.len() > 0 { Some(boundaries@[0]) } else { None::<usize> }),
                max == max_size,
                min == min_size,
                all_cuts == group_cuts(lens, fb, max, min, 0, 0, 0),
                current_start <= i <= n,
                i > 0 ==> current_start < i,
                pos == offset(lens, i as int),
                start_pos == offset(lens, current_start as int),
                current_size <= pos,
                chunk_index == chunks@.len(),
                chunks@.len() == done.len(),
                all_cuts == done + group_cuts(lens, fb, max, min, i as int, current_start as int, current_size as int),
                forall|k: int| 0 <= k < done.len() ==> {
                    &&& 0 <= done[k].0 <= done[k].1 <= current_start
                    &&& (#[trigger] chunks@[k]).content@ == joined(ss.subrange(done[k].0, done[k].1))
                    &&& chunks@[k].range.0 == offset(lens, done[k].0)
                    &&& chunks@[k].range.1 == offset(lens, done[k].1)
                    &&& chunks@[k].index == k
                    &&& chunks@[k].chunk_type == ChunkType::Paragraph
                    &&& chunks@[k].boundary_score == 800
                    &&& chunks@[k].parent_id is None
                    &&& chunks@[k].child_ids@.len() == 0
                    &&& chunks@[k].level == 0
                },
            decreases n - i,
        {
            proof {
                assert(forall|k: int| 0 <= k < lens.len() ==> lens[k] >= 0);
                lemma_offset_mono(lens, i + 1, n as int);
                assert(lens[i as int] == utf8_len(ss[i as int]) as int);
            }
            let l = sentences[i].as_str().len();
            assert(l == lens[i as int]);
            let at_boundary = match first_b {
                Some(b) => b == i,
                None => false,
            };
            let should_split = if current_size > 0 {
                current_size + l > max_size || (at_boundary && current_size >= min_size)
            } else {
                false
            };
            if should_split && current_size >= min_size {
                let text = join_chars(sentences, current_start, i);
                let chunk_text = string_from_chars(text.as_slice());
                chunks.push(Chunk::with_score(chunk_text, chunk_index, (start_pos, pos), ChunkType::Paragraph, 800));
                proof {
                    let rest = group_cuts(lens, fb, max, min, i + 1, i as int, lens[i as int]);
                    assert(group_cuts(lens, fb, max, min, i as int, current_start as int, current_size as int) == seq![
                        (current_start as int, i as int),
                    ] + rest);
                    assert(all_cuts =~= done.push((current_start as int, i as int)) + rest);
                    done = done.push((current_start as int, i as int));
                }
                chunk_index = chunks.len();
                current_start = i;
                current_size = 0;
                start_pos = pos;
            }
            current_size = current_size + l;
            pos = pos + l + 1;
            i = i + 1;
        }
        proof {
            assert(group_cuts(lens, fb, max, min, n as int, current_start as int, current_size as int) == (if current_start
                < n {
                seq![(current_start as int, n as int)]
            } else {
                Seq::<(int, int)>::empty()
            }));
        }
        if current_start < n {
            let text = join_chars(sentences, current_start, n);
            let chunk_text = string_from_chars(text.as_slice());
            let byte_start = if current_start > 0 {
                start_pos
            } else {
                0
            };
            let byte_end = if pos >= 1 {
                pos - 1
            } else {
                0
            };
            chunks.push(Chunk::with_score(chunk_text, chunk_index, (byte_start, byte_end), ChunkType::Paragraph, 800));
            proof {
                let cuts = done.push((current_start as int, n as int));
                assert(all_cuts =~= cuts);
                assert forall|k: int| 0 <= k < chunks@.len() implies {
                    &&& 0 <= cuts[k].0 <= cuts[k].1 <= ss.len()
                    &&& (#[trigger] chunks@[k]).content@ == joined(ss.subrange(cuts[k].0, cuts[k].1))
                    &&& chunks@[k].range.0 == offset(lens, cuts[k].0)
                    &&& chunks@[k].range.1 == (if k + 1 < chunks@.len() {
                        offset(lens, cuts[k].1)
                    } else if total >= 1 {
                        total - 1
                    } else {
                        0
                    })
                    &&& chunks@[k].index == k
                    &&& chunks@[k].chunk_type == ChunkType::Paragraph
                    &&& chunks@[k].boundary_score == 800
                    &&& chunks@[k].parent_id is None
                    &&& chunks@[k].child_ids@.len() == 0
                    &&& chunks@[k].level == 0
                } by {
                    if k < done.len() {
                        assert(cuts[k] == done[k]);
                    }
                }
            }
        } else {
            assert(all_cuts =~= done);
            assert(n == 0 ==> done.len() == 0);
        }
        Ok(chunks)
    }

}

/// What semantic chunking gives for a text: an empty (or all white) text is
/// refused, so is one shorter in bytes than the minimum chunk size, and one
/// without sentences; otherwise its sentences grouped at the semantic cuts.
pub open spec fn semantic_outcome(r: Result<Seq<Chunk>, ChunkingError>, text: Seq<char>, c: SemanticChunkConfig) -> bool {
    let t = trimmed(text);
    let ss = sentences(t);
    let bytes = str_len(t);
    &&& t.len() == 0 <==> (r matches Err(ChunkingError::EmptyInput))
    &&& t.len() > 0 && bytes < c.min_chunk_size ==> r == Err::<Seq<Chunk>, ChunkingError>(
        ChunkingError::InputTooShort { min: c.min_chunk_size, actual: bytes },
    )
    &&& t.len() > 0 && bytes >= c.min_chunk_size && ss.len() == 0 ==> (r matches Err(
        ChunkingError::BoundaryDetectionFailed(m),
    ) && m@ == "No sentences found in text"@)
    &&& t.len() > 0 && bytes >= c.min_chunk_size && ss.len() > 0 ==> (r matches Ok(cs)
        && grouped(cs, ss, semantic_cuts(ss, c)))
}

impl SemanticChunker {
    /// Splits a trimmed text into sentences and groups them into chunks at
    /// semantic boundaries. Refused: an empty (or all white) text, and one
    /// shorter in bytes than the minimum chunk size.
    pub fn chunk(&self, text: &str, metadata: ChunkMetadata) -> (r: Result<Vec<Chunk>, ChunkingError>)
        requires
            semantic_fits(trimmed(text@), self.settings()),
        ensures
            semantic_outcome(result_seq(r), text@, self.settings()),
    {
        proof {
            use_type_invariant(self);
        }
        let t = trim_str(text);
        if t.as_str().is_empty() {
            return Err(ChunkingError::EmptyInput);
        }
        let len = t.as_str().len();
        if len < self.config.min_chunk_size {
            return Err(ChunkingError::InputTooShort { min: self.config.min_chunk_size, actual: len });
        }
        let sentences = split_into_sentences(t.as_str());
        if sentences.len() == 0 {
            return Err(ChunkingError::BoundaryDetectionFailed(String::from_str("No sentences found in text")));
        }
        let boundaries = self.find_boundaries(sentences.as_slice());
        proof {
            let bs = boundaries@.map_values(|x: usize| x as int);
            if bs.len() > 0 {
                assert(bs[0] == boundaries@[0] as int);
            }
        }
        self.group_into_chunks(sentences.as_slice(), boundaries.as_slice())
    }
}

impl Default for SemanticChunker {
    fn default() -> (r: SemanticChunker)
        ensures
            r.settings() == default_semantic_config(),
    {
        SemanticChunker::new()
    }
}

} // verus!
