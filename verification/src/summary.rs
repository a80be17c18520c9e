//! Summary levels and context compression settings for Graph-RAG.

use vstd::prelude::*;
use crate::node_type::NodeType;
use crate::strategy::views;
use crate::text::{byte_slice, chars_of, sliceable, slice_str, str_len};
use crate::words::same_chars;

verus! {

/// Summary level for context selection, from the most compressed to the
/// most detailed (ordered in that way).
#[derive(Debug, Clone, Copy, PartialEq, Eq, PartialOrd, Ord, Hash)]
pub enum SummaryLevel {
    /// Document-level summary (most compressed).
    Document,
    /// Paragraph-level chunks.
    Paragraph,
    /// Sentence-level chunks (most detailed).
    Sentence,
}

/// The rank of a summary level: document 0, paragraph 1, sentence 2.
pub open spec fn summary_rank(l: SummaryLevel) -> int {
    match l {
        SummaryLevel::Document => 0,
        SummaryLevel::Paragraph => 1,
        SummaryLevel::Sentence => 2,
    }
}

/// The lower-case name of a summary level.
pub open spec fn summary_level_name(l: SummaryLevel) -> Seq<char> {
    match l {
        SummaryLevel::Document => "document"@,
        SummaryLevel::Paragraph => "paragraph"@,
        SummaryLevel::Sentence => "sentence"@,
    }
}

/// The levels at or below a level, from it down to sentences.
pub open spec fn levels_from(l: SummaryLevel) -> Seq<SummaryLevel> {
    match l {
        SummaryLevel::Document => seq![SummaryLevel::Document, SummaryLevel::Paragraph, SummaryLevel::Sentence],
        SummaryLevel::Paragraph => seq![SummaryLevel::Paragraph, SummaryLevel::Sentence],
        SummaryLevel::Sentence => seq![SummaryLevel::Sentence],
    }
}

impl SummaryLevel {
    /// All levels from this one down, in order of detail.
    pub fn inclusive_levels(&self) -> (r: Vec<SummaryLevel>)
        ensures
            r@ == levels_from(*self),
    {
        let mut v: Vec<SummaryLevel> = Vec::new();
        match self {
            SummaryLevel::Document => {
                v.push(SummaryLevel::Document);
                v.push(SummaryLevel::Paragraph);
                v.push(SummaryLevel::Sentence);
            },
            SummaryLevel::Paragraph => {
                v.push(SummaryLevel::Paragraph);
                v.push(SummaryLevel::Sentence);
            },
            SummaryLevel::Sentence => {
                v.push(SummaryLevel::Sentence);
            },
        }
        assert(v@ =~= levels_from(*self));
        v
    }

    /// The name of this level.
    pub fn name(&self) -> (r: &'static str)
        ensures
            r@ == summary_level_name(*self),
    {
        match self {
            SummaryLevel::Document => "document",
            SummaryLevel::Paragraph => "paragraph",
            SummaryLevel::Sentence => "sentence",
        }
    }

    /// The rank of this level in the order of detail.
    pub fn rank(&self) -> (r: u8)
        ensures
            r == summary_rank(*self),
    {
        match self {
            SummaryLevel::Document => 0,
            SummaryLevel::Paragraph => 1,
            SummaryLevel::Sentence => 2,
        }
    }
}

/// Compression strategy for large contexts.
#[derive(Debug, Clone, Copy, PartialEq, Eq)]
pub enum CompressionStrategy {
    /// No compression: use all retrieved content.
    Uncompressed,
    /// Remove redundant information.
    Deduplicate,
    /// Extract key sentences only.
    KeySentences,
    /// Summarize clusters of related information.
    ClusterSummary,
    /// Aggressive compression: keep only the top matches.
    TopOnly,
}

/// Compresses context to fit within a token budget.
#[derive(Debug, Clone, Copy, PartialEq, Eq)]
pub struct ContextCompressor {
    max_tokens: usize,
    strategy: CompressionStrategy,
}

impl ContextCompressor {
    /// The token budget.
    pub closed spec fn budget(self) -> usize {
        self.max_tokens
    }

    /// The compression strategy.
    pub closed spec fn method(self) -> CompressionStrategy {
        self.strategy
    }

    /// A compressor with the given token budget that deduplicates.
    pub fn new(max_tokens: usize) -> (r: ContextCompressor)
        ensures
            r.budget() == max_tokens,
            r.method() == CompressionStrategy::Deduplicate,
    {
        ContextCompressor { max_tokens, strategy: CompressionStrategy::Deduplicate }
    }

    /// This compressor with the given strategy.
    pub fn with_strategy(self, strategy: CompressionStrategy) -> (r: ContextCompressor)
        ensures
            r.budget() == self.budget(),
            r.method() == strategy,
    {
        ContextCompressor { strategy, ..self }
    }

    /// The token budget of this compressor.
    pub fn max_tokens(&self) -> (r: usize)
        ensures
            r == self.budget(),
    {
        self.max_tokens
    }

    /// The strategy of this compressor.
    pub fn strategy(&self) -> (r: CompressionStrategy)
        ensures
            r == self.method(),
    {
        self.strategy
    }
}

/// How demanding a query is, as the selector grades it: complex queries
/// need more detail, simple ones less.
#[derive(Debug, Clone, Copy, PartialEq, Eq)]
pub enum QueryComplexity {
    /// A complex query (estimated complexity above 0.7).
    Complex,
    /// A query of middling complexity.
    Moderate,
    /// A simple query (estimated complexity below 0.3).
    Simple,
}

/// The next more compressed level.
pub open spec fn coarser(l: SummaryLevel) -> SummaryLevel {
    match l {
        SummaryLevel::Sentence => SummaryLevel::Paragraph,
        _ => SummaryLevel::Document,
    }
}

/// The next more detailed level.
pub open spec fn finer(l: SummaryLevel) -> SummaryLevel {
    match l {
        SummaryLevel::Document => SummaryLevel::Paragraph,
        _ => SummaryLevel::Sentence,
    }
}

/// The level the selector picks: with auto-adjustment, one level coarser
/// when the context exceeds the budget and one finer when it uses less than
/// a quarter of it; otherwise documents become paragraphs for complex
/// queries, sentences become paragraphs for simple ones, and the default
/// stands.
pub open spec fn chosen_level(default_level: SummaryLevel, max_tokens: nat, auto_adjust: bool, total_tokens: nat, q: QueryComplexity) -> SummaryLevel {
    if auto_adjust && total_tokens > max_tokens {
        coarser(default_level)
    } else if auto_adjust && total_tokens < max_tokens / 4 {
        finer(default_level)
    } else if q == QueryComplexity::Complex && default_level == SummaryLevel::Document {
        SummaryLevel::Paragraph
    } else if q == QueryComplexity::Simple && default_level == SummaryLevel::Sentence {
        SummaryLevel::Paragraph
    } else {
        default_level
    }
}

/// Picks the summary level for a context of `total_tokens` tokens.
pub fn select_level(
    default_level: SummaryLevel,
    max_tokens: usize,
    auto_adjust: bool,
    total_tokens: usize,
    complexity: QueryComplexity,
) -> (r: SummaryLevel)
    ensures
        r == chosen_level(default_level, max_tokens as nat, auto_adjust, total_tokens as nat, complexity),
{
    if auto_adjust {
        if total_tokens > max_tokens {
            return match default_level {
                SummaryLevel::Sentence => SummaryLevel::Paragraph,
                SummaryLevel::Paragraph => SummaryLevel::Document,
                SummaryLevel::Document => SummaryLevel::Document,
            };
        } else if total_tokens < max_tokens / 4 {
            return match default_level {
                SummaryLevel::Sentence => SummaryLevel::Sentence,
                SummaryLevel::Paragraph => SummaryLevel::Sentence,
                SummaryLevel::Document => SummaryLevel::Paragraph,
            };
        }
    }
    match complexity {
        QueryComplexity::Complex => match default_level {
            SummaryLevel::Document => SummaryLevel::Paragraph,
            level => level,
        },
        QueryComplexity::Simple => match default_level {
            SummaryLevel::Sentence => SummaryLevel::Paragraph,
            level => level,
        },
        QueryComplexity::Moderate => default_level,
    }
}

/// Whether a node of the given type belongs at a summary level: documents
/// take entities and concepts, paragraphs also facts, sentences everything.
pub open spec fn admitted_at(level: SummaryLevel, t: NodeType) -> bool {
    match level {
        SummaryLevel::Document => t == NodeType::Entity || t == NodeType::Concept,
        SummaryLevel::Paragraph => t != NodeType::RawChunk,
        SummaryLevel::Sentence => true,
    }
}

/// Whether a node of the given type belongs at the given level.
pub fn node_matches_level(node_type: NodeType, level: SummaryLevel) -> (r: bool)
    ensures
        r == admitted_at(level, node_type),
{
    match level {
        SummaryLevel::Document => match node_type {
            NodeType::Entity | NodeType::Concept => true,
            _ => false,
        },
        SummaryLevel::Paragraph => match node_type {
            NodeType::Entity | NodeType::Concept | NodeType::Fact => true,
            NodeType::RawChunk => false,
        },
        SummaryLevel::Sentence => true,
    }
}

/// The rough token count of some texts: a quarter of each one's length in
/// bytes (rounded down), summed.
pub open spec fn token_estimate(texts: Seq<Seq<char>>) -> nat
    decreases texts.len(),
{
    if texts.len() == 0 {
        0
    } else {
        token_estimate(texts.drop_last()) + (str_len(texts.last()) / 4) as nat
    }
}

/// Estimates the tokens of some texts as a quarter of their bytes.
pub fn estimate_tokens(contents: &[String]) -> (r: usize)
    requires
        token_estimate(views(contents@)) <= usize::MAX,
    ensures
        r == token_estimate(views(contents@)),
{
    let mut total: usize = 0;
    let mut i: usize = 0;
    while i < contents.len()
        invariant
            i <= contents@.len(),
            token_estimate(views(contents@)) <= usize::MAX,
            total == token_estimate(views(contents@).take(i as int)),
        decreases contents@.len() - i,
    {
        proof {
            assert(views(contents@).take(i + 1).drop_last() =~= views(contents@).take(i as int));
            lemma_token_estimate_prefix(views(contents@), i + 1);
        }
        total = total + contents[i].as_str().len() / 4;
        i = i + 1;
    }
    assert(views(contents@).take(contents@.len() as int) =~= views(contents@));
    total
}

proof fn lemma_token_estimate_prefix(s: Seq<Seq<char>>, n: int)
    requires
        0 <= n <= s.len(),
    ensures
        token_estimate(s.take(n)) <= token_estimate(s),
    decreases s.len() - n,
{
    if n < s.len() {
        lemma_token_estimate_prefix(s, n + 1);
        assert(s.take(n + 1).drop_last() =~= s.take(n));
    } else {
        assert(s.take(n) =~= s);
    }
}

impl ContextCompressor {
    /// Whether contents of the given token count fit this compressor's
    /// budget, and so are left as they are.
    pub fn fits(&self, tokens: usize) -> (r: bool)
        ensures
            r == (tokens <= self.budget()),
    {
        tokens <= self.max_tokens
    }
}

/// The key under which contents are compared for duplicates: their first
/// 50 bytes, or all of them when shorter.
pub open spec fn dedup_key(s: Seq<char>) -> Seq<char> {
    if str_len(s) > 50 {
        byte_slice(s, 0, 50)
    } else {
        s
    }
}

/// Whether a content's key can be cut: it is short, or byte 50 starts a
/// char.
pub open spec fn key_cuttable(s: Seq<char>) -> bool {
    str_len(s) > 50 ==> sliceable(s, 0, 50)
}

/// Whether `i` is the first position whose content has its key.
pub open spec fn first_of_key(texts: Seq<Seq<char>>, i: int) -> bool {
    forall|j: int| 0 <= j < i ==> dedup_key(#[trigger] texts[j]) != dedup_key(texts[i])
}

fn key_chars(s: &str) -> (r: Vec<char>)
    requires
        key_cuttable(s@),
    ensures
        r@ == dedup_key(s@),
{
    if s.len() > 50 {
        chars_of(slice_str(s, 0, 50))
    } else {
        chars_of(s)
    }
}

impl ContextCompressor {
    /// The positions of the contents kept by deduplication: each content
    /// whose key (its first 50 bytes) no earlier content has.
    pub fn deduplicate_indices(&self, contents: &[String]) -> (r: Vec<usize>)
        requires
            forall|i: int| 0 <= i < contents@.len() ==> key_cuttable(#[trigger] contents@[i]@),
        ensures
            forall|k: int| 0 <= k < r@.len() ==> (#[trigger] r@[k]) < contents@.len(),
            forall|k: int, m: int| 0 <= k < m < r@.len() ==> r@[k] < r@[m],
            forall|i: int| 0 <= i < contents@.len() ==> (r@.contains(i as usize) <==> first_of_key(views(contents@), i)),
    {
        let ghost texts = views(contents@);
        let mut keys: Vec<Vec<char>> = Vec::new();
        let mut kept: Vec<usize> = Vec::new();
        let mut i: usize = 0;
        while i < contents.len()
            invariant
                texts == views(contents@),
                i <= contents@.len(),
                forall|q: int| 0 <= q < contents@.len() ==> key_cuttable(#[trigger] contents@[q]@),
                keys@.len() == i,
                forall|q: int| 0 <= q < i ==> (#[trigger] keys@[q])@ == dedup_key(texts[q]),
                forall|k: int| 0 <= k < kept@.len() ==> (#[trigger] kept@[k]) < i,
                forall|k: int, m: int| 0 <= k < m < kept@.len() ==> kept@[k] < kept@[m],
                forall|q: int| 0 <= q < i ==> (kept@.contains(q as usize) <==> first_of_key(texts, q)),
            decreases contents@.len() - i,
        {
            assert(key_cuttable(contents@[i as int]@));
            let key = key_chars(contents[i].as_str());
            let mut seen = false;
            let mut j: usize = 0;
            while j < i
                invariant
                    i < contents@.len(),
                    j <= i,
                    keys@.len() == i,
                    key@ == dedup_key(texts[i as int]),
                    forall|q: int| 0 <= q < i ==> (#[trigger] keys@[q])@ == dedup_key(texts[q]),
                    seen <==> exists|q: int| 0 <= q < j && dedup_key(#[trigger] texts[q]) == dedup_key(texts[i as int]),
                decreases i - j,
            {
                if same_chars(&keys[j], &key) {
                    seen = true;
                }
                j = j + 1;
            }
            let ghost before = kept@;
            if !seen {
                kept.push(i);
                assert(kept@ == before.push(i));
            }
            proof {
                assert forall|q: int| 0 <= q < i + 1 implies (kept@.contains(q as usize) <==> first_of_key(texts, q)) by {
                    if q < i {
                        if kept@.contains(q as usize) {
                            let k = choose|k: int| 0 <= k < kept@.len() && kept@[k] == q as usize;
                            if k < before.len() {
                                assert(before[k] == q as usize);
                            }
                        }
                        if before.contains(q as usize) {
                            let k = choose|k: int| 0 <= k < before.len() && before[k] == q as usize;
                            assert(kept@[k] == q as usize);
                        }
                    } else {
                        if seen {
                            let w = choose|w: int| 0 <= w < i && dedup_key(#[trigger] texts[w]) == dedup_key(texts[i as int]);
                            assert(!first_of_key(texts, q));
                            if kept@.contains(q as usize) {
                                let k = choose|k: int| 0 <= k < kept@.len() && kept@[k] == q as usize;
                                assert(before[k] < i);
                            }
                        } else {
                            assert(kept@[kept@.len() - 1] == i);
                        }
                    }
                }
            }
            keys.push(key);
            i = i + 1;
        }
        kept
    }
}

} // verus!
