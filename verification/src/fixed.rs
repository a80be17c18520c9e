//! Fixed-size chunking: pieces of about equal length, with overlap.

use vstd::prelude::*;
use crate::chunk::{Chunk, ChunkType, result_seq};
use crate::chunk_error::ChunkingError;
use crate::strategy::{ChunkingConfig, ChunkMetadata, default_chunking_config};
use crate::text::{chars_of, copy_range, string_from_chars, trim_str, trimmed};

verus! {

broadcast use vstd::string::group_string_axioms;

/// Configuration for fixed-size chunking.
#[derive(Debug, Clone, Copy, PartialEq, Eq)]
pub struct FixedChunkConfig {
    /// Base chunking configuration.
    pub base: ChunkingConfig,
    /// Chunk size in characters.
    pub chunk_size: usize,
    /// Overlap between chunks in characters.
    pub overlap_size: usize,
}

/// The default fixed-size configuration: chunks of 1000 characters that
/// overlap by 100.
pub open spec fn default_fixed_config() -> FixedChunkConfig {
    FixedChunkConfig { base: default_chunking_config(), chunk_size: 1000, overlap_size: 100 }
}

impl Default for FixedChunkConfig {
    fn default() -> (r: FixedChunkConfig)
        ensures
            r == default_fixed_config(),
    {
        FixedChunkConfig { base: ChunkingConfig::default(), chunk_size: 1000, overlap_size: 100 }
    }
}

/// Whether a fixed-size configuration passes `FixedChunkConfig::validate`.
pub open spec fn fixed_config_ok(c: FixedChunkConfig) -> bool {
    c.chunk_size > 0 && c.overlap_size < c.chunk_size
}

impl FixedChunkConfig {
    /// A configuration with the given chunk and overlap sizes; the base
    /// configuration takes them as its maximum and overlap, a tenth of the
    /// chunk size as its minimum, and the defaults otherwise.
    pub fn new(chunk_size: usize, overlap_size: usize) -> (r: FixedChunkConfig)
        ensures
            r.chunk_size == chunk_size,
            r.overlap_size == overlap_size,
            r.base == (ChunkingConfig {
                max_chunk_size: chunk_size,
                min_chunk_size: chunk_size / 10,
                overlap: overlap_size,
                ..default_chunking_config()
            }),
    {
        FixedChunkConfig {
            base: ChunkingConfig {
                max_chunk_size: chunk_size,
                min_chunk_size: chunk_size / 10,
                overlap: overlap_size,
                ..ChunkingConfig::default()
            },
            chunk_size,
            overlap_size,
        }
    }

    /// Checks that the chunk size is positive and the overlap below it.
    pub fn validate(&self) -> (r: Result<(), ChunkingError>)
        ensures
            r is Ok <==> fixed_config_ok(*self),
            self.chunk_size == 0 ==> (r matches Err(ChunkingError::InvalidChunkSize(m))
                && m@ == "chunk_size must be greater than 0"@),
            self.chunk_size > 0 && self.overlap_size >= self.chunk_size ==> (r matches Err(
                ChunkingError::InvalidOverlap(m),
            ) && m@ == "overlap_size must be less than chunk_size"@),
    {
        if self.chunk_size == 0 {
            return Err(ChunkingError::InvalidChunkSize(String::from_str("chunk_size must be greater than 0")));
        }
        if self.overlap_size >= self.chunk_size {
            return Err(ChunkingError::InvalidOverlap(String::from_str("overlap_size must be less than chunk_size")));
        }
        Ok(())
    }
}

/// The first newline in `c[from..end]`, or `end` when there is none.
pub open spec fn first_newline(c: Seq<char>, from: int, end: int) -> int
    decreases end - from,
{
    if from >= end {
        end
    } else if c[from] == '\n' {
        from
    } else {
        first_newline(c, from + 1, end)
    }
}

/// The last space at an index above `lo` and below `hi`, or `lo` when there
/// is none.
pub open spec fn last_space(c: Seq<char>, lo: int, hi: int) -> int
    decreases hi - lo,
{
    if hi - 1 <= lo {
        lo
    } else if c[hi - 1] == ' ' {
        hi - 1
    } else {
        last_space(c, lo, hi - 1)
    }
}

/// Where a window from `start` to `end` is cut: just after the first
/// newline among its last 100 chars; else at the last space after `start`;
/// else at `end`.
pub open spec fn breaking_point(c: Seq<char>, start: int, end: int) -> int {
    let from = if end >= start + 100 { end - 100 } else { start };
    let nl = first_newline(c, from, end);
    if nl < end {
        nl + 1
    } else if last_space(c, start, end) > start {
        last_space(c, start, end)
    } else {
        end
    }
}

/// Finds a good breaking point inside the window from `start` to `end`: a
/// newline, else a space, else `end` itself.
pub fn find_breaking_point(chars: &[char], start: usize, end: usize) -> (r: usize)
    requires
        end <= chars@.len(),
    ensures
        r == breaking_point(chars@, start as int, end as int),
        r <= end,
        start < end ==> start < r,
{
    if start >= end {
        return end;
    }
    let from: usize = if end >= 100 && end - 100 >= start { end - 100 } else { start };
    let mut i = from;
    while i < end
        invariant
            from <= i <= end <= chars@.len(),
            from as int == (if end >= start + 100 { end - 100 } else { start as int }),
            first_newline(chars@, from as int, end as int) == first_newline(chars@, i as int, end as int),
        decreases end - i,
    {
        if chars[i] == '\n' {
            assert(first_newline(chars@, i as int, end as int) == i);
            return i + 1;
        }
        i = i + 1;
    }
    let mut hi = end;
    while hi > start && hi - 1 > start
        invariant
            hi <= end <= chars@.len(),
            from as int == (if end >= start + 100 { end - 100 } else { start as int }),
            first_newline(chars@, from as int, end as int) == end,
            last_space(chars@, start as int, end as int) == last_space(chars@, start as int, hi as int),
        decreases hi,
    {
        if chars[hi - 1] == ' ' {
            return hi - 1;
        }
        hi = hi - 1;
    }
    end
}

/// Where the chunk after the one from `start` to `cut` starts: `overlap`
/// chars before `cut` (but at least one char after `start`), unless a full
/// step from `cut` would reach the end of the text, in which case at `cut`.
pub open spec fn next_start(total: int, size: int, overlap: int, start: int, cut: int) -> int {
    if cut + (size - overlap) < total {
        if cut - overlap > start { cut - overlap } else { start + 1 }
    } else {
        cut
    }
}

/// The char ranges that fixed-size chunking cuts `c` into, from `start`
/// on. Each chunk ends at the breaking point of the window of `size` chars
/// (or at the end of the text); the next one starts where `next_start`
/// says.
pub open spec fn fixed_ranges(c: Seq<char>, size: int, overlap: int, start: int) -> Seq<(int, int)>
    decreases c.len() - start,
{
    let total = c.len() as int;
    if start >= total || start < 0 {
        Seq::empty()
    } else {
        let end = if start + size < total { start + size } else { total };
        let cut = if end < total { breaking_point(c, start, end) } else { end };
        let next = next_start(total, size, overlap, start, cut);
        if start < next <= total {
            seq![(start, cut)] + fixed_ranges(c, size, overlap, next)
        } else {
            seq![(start, cut)]
        }
    }
}

/// The char ranges that fixed-size chunking cuts `c` into.
pub open spec fn fixed_plan(c: Seq<char>, size: int, overlap: int) -> Seq<(int, int)> {
    fixed_ranges(c, size, overlap, 0)
}

/// What fixed-size chunking gives for a text: an empty (or all white) text
/// is refused; otherwise one chunk per range of the plan over the trimmed
/// chars, holding those chars, numbered in order, of type `Custom`, at
/// level 0, with no parent and no boundary score.
pub open spec fn fixed_outcome(r: Result<Seq<Chunk>, ChunkingError>, text: Seq<char>, cfg: FixedChunkConfig) -> bool {
    let c = trimmed(text);
    &&& c.len() == 0 <==> (r matches Err(ChunkingError::EmptyInput))
    &&& c.len() > 0 ==> r is Ok
    &&& (r matches Ok(cs) ==> {
        let plan = fixed_plan(c, cfg.chunk_size as int, cfg.overlap_size as int);
        &&& cs.len() == plan.len()
        &&& forall|k: int| 0 <= k < cs.len() ==> {
            &&& (#[trigger] cs[k]).range.0 == plan[k].0
            &&& cs[k].range.1 == plan[k].1
            &&& plan[k].0 <= plan[k].1 <= c.len()
            &&& cs[k].content@ == c.subrange(plan[k].0, plan[k].1)
            &&& cs[k].content@.len() <= cfg.chunk_size
            &&& cs[k].index == k
            &&& cs[k].chunk_type == ChunkType::Custom
            &&& cs[k].parent_id is None
            &&& cs[k].level == 0
            &&& cs[k].boundary_score == 0
        }
    })
}

/// Fixed-size chunking strategy: splits text into chunks of about equal
/// size with overlap. Its configuration is always a valid one.
#[derive(Debug)]
pub struct FixedChunker {
    config: FixedChunkConfig,
}

impl FixedChunker {
    #[verifier::type_invariant]
    spec fn wf(self) -> bool {
        fixed_config_ok(self.config)
    }

    /// The configuration of this chunker.
    pub closed spec fn settings(self) -> FixedChunkConfig {
        self.config
    }

    /// A chunker with the default configuration.
    pub fn new() -> (r: FixedChunker)
        ensures
            r.settings() == default_fixed_config(),
    {
        FixedChunker { config: FixedChunkConfig::default() }
    }

    /// A chunker with the given configuration, if it is valid.
    pub fn with_config(config: FixedChunkConfig) -> (r: Result<FixedChunker, ChunkingError>)
        ensures
            r is Ok <==> fixed_config_ok(config),
            r matches Ok(ch) ==> ch.settings() == config,
            config.chunk_size == 0 ==> (r matches Err(ChunkingError::InvalidChunkSize(m))
                && m@ == "chunk_size must be greater than 0"@),
            config.chunk_size > 0 && config.overlap_size >= config.chunk_size ==> (r matches Err(
                ChunkingError::InvalidOverlap(m),
            ) && m@ == "overlap_size must be less than chunk_size"@),
    {
        match config.validate() {
            Ok(()) => Ok(FixedChunker { config }),
            Err(e) => Err(e),
        }
    }

    /// A chunker with the given chunk and overlap sizes, if they are valid.
    pub fn new_with_sizes(chunk_size: usize, overlap_size: usize) -> (r: Result<FixedChunker, ChunkingError>)
        ensures
            r is Ok <==> (chunk_size > 0 && overlap_size < chunk_size),
            r matches Ok(ch) ==> ch.settings().chunk_size == chunk_size && ch.settings().overlap_size == overlap_size,
            chunk_size == 0 ==> (r matches Err(ChunkingError::InvalidChunkSize(m))
                && m@ == "chunk_size must be greater than 0"@),
            chunk_size > 0 && overlap_size >= chunk_size ==> (r matches Err(ChunkingError::InvalidOverlap(m))
                && m@ == "overlap_size must be less than chunk_size"@),
    {
        FixedChunker::with_config(FixedChunkConfig::new(chunk_size, overlap_size))
    }

    /// The name of this strategy.
    pub fn name(&self) -> (r: &'static str)
        ensures
            r@ == "fixed"@,
    {
        "fixed"
    }

    /// The base configuration of this chunker.
    pub fn config(&self) -> (r: &ChunkingConfig)
        ensures
            *r == self.settings().base,
    {
        &self.config.base
    }

    /// Splits a text into fixed-size chunks of its trimmed chars: each
    /// chunk holds the chars of its range, of type `Custom`, numbered in
    /// order. An empty (or all white) text is refused.
    pub fn chunk(&self, text: &str, metadata: ChunkMetadata) -> (r: Result<Vec<Chunk>, ChunkingError>)
        ensures
            fixed_outcome(result_seq(r), text@, self.settings()),
    {
        proof {
            use_type_invariant(self);
        }
        let t = trim_str(text);
        let chars = chars_of(t.as_str());
        if chars.len() == 0 {
            return Err(ChunkingError::EmptyInput);
        }
        let ghost c = chars@;
        let ghost size = self.config.chunk_size as int;
        let ghost overlap = self.config.overlap_size as int;
        let ghost plan = fixed_plan(c, size, overlap);
        let total = chars.len();
        let chunk_size = self.config.chunk_size;
        let overlap_size = self.config.overlap_size;
        let step = chunk_size - overlap_size;
        let mut chunks: Vec<Chunk> = Vec::new();
        let mut start: usize = 0;
        let mut index: usize = 0;
        while start < total
            invariant
                c == chars@,
                c == trimmed(text@),
                total == c.len(),
                size == chunk_size,
                overlap == overlap_size,
                step == chunk_size - overlap_size,
                0 < chunk_size,
                overlap_size < chunk_size,
                plan == fixed_plan(c, size, overlap),
                chunks@.len() == index,
                plan == chunks@.map_values(|ch: Chunk| (ch.range.0 as int, ch.range.1 as int))
                    + fixed_ranges(c, size, overlap, start as int),
                forall|k: int| 0 <= k < index ==> {
                    &&& (#[trigger] chunks@[k]).range.0 <= chunks@[k].range.1 <= c.len()
                    &&& chunks@[k].content@ == c.subrange(chunks@[k].range.0 as int, chunks@[k].range.1 as int)
                    &&& chunks@[k].content@.len() <= chunk_size
                    &&& chunks@[k].index == k
                    &&& chunks@[k].chunk_type == ChunkType::Custom
                    &&& chunks@[k].parent_id is None
                    &&& chunks@[k].level == 0
                    &&& chunks@[k].boundary_score == 0
                },
            decreases total - start,
        {
            let ghost done = chunks@.map_values(|ch: Chunk| (ch.range.0 as int, ch.range.1 as int));
            let ghost s0 = start as int;
            let end = if chunk_size < total - start {
                start + chunk_size
            } else {
                total
            };
            let actual_end = if end < total {
                find_breaking_point(chars.as_slice(), start, end)
            } else {
                end
            };
            proof {
                assert(actual_end > start);
                assert(actual_end <= end);
            }
            let piece = copy_range(&chars, start, actual_end);
            let chunk_text = string_from_chars(piece.as_slice());
            chunks.push(Chunk::new(chunk_text, index, (start, actual_end), ChunkType::Custom));
            index = chunks.len();
            if step < total - actual_end {
                if actual_end - start > overlap_size {
                    start = actual_end - overlap_size;
                } else {
                    start = start + 1;
                }
            } else {
                start = actual_end;
            }
            proof {
                assert(start as int == next_start(total as int, size, overlap, s0, actual_end as int));
                assert(start > s0 && start <= total);
                let tail = fixed_ranges(c, size, overlap, start as int);
                assert(fixed_ranges(c, size, overlap, s0) == seq![(s0, actual_end as int)] + tail);
                assert(chunks@.map_values(|ch: Chunk| (ch.range.0 as int, ch.range.1 as int)) =~= done.push(
                    (s0, actual_end as int),
                ));
                assert(plan =~= chunks@.map_values(|ch: Chunk| (ch.range.0 as int, ch.range.1 as int)) + tail);
            }
        }
        proof {
            assert(fixed_ranges(c, size, overlap, start as int) =~= Seq::<(int, int)>::empty());
        }
        Ok(chunks)
    }
}

impl Clone for FixedChunker {
    fn clone(&self) -> (r: FixedChunker)
        ensures
            r.settings() == self.settings(),
    {
        proof {
            use_type_invariant(self);
        }
        FixedChunker { config: self.config }
    }
}

impl Default for FixedChunker {
    fn default() -> (r: FixedChunker)
        ensures
            r.settings() == default_fixed_config(),
    {
        FixedChunker::new()
    }
}

} // verus!
