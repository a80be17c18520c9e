//! Tests of chunking: chunks, splitters, and the fixed, semantic and
//! hierarchical chunkers.

use synton::chunk::{Chunk, ChunkType};
use synton::chunk_error::ChunkingError;
use synton::fixed::{find_breaking_point, FixedChunkConfig, FixedChunker};
use synton::hierarchical::{HierarchicalChunkConfig, HierarchicalChunker};
use synton::semantic::{SemanticChunkConfig, SemanticChunker};
use synton::strategy::{chunks_from_ranges, split_into_paragraphs, split_into_sentences, ChunkMetadata, ChunkingConfig};

fn fresh_id() -> u128 {
    uuid::Uuid::new_v4().as_u128()
}

fn ratio(counts: (usize, usize)) -> f32 {
    if counts.1 == 0 {
        0.0
    } else {
        counts.0 as f32 / counts.1 as f32
    }
}

#[test]
fn test_chunk_creation() {
    let chunk = Chunk::new("Hello world".to_string(), 0, (0, 11), ChunkType::Sentence);

    assert_eq!(chunk.content, "Hello world");
    assert_eq!(chunk.index, 0);
    assert_eq!(chunk.range, (0, 11));
    assert_eq!(chunk.chunk_type, ChunkType::Sentence);
    assert!(!chunk.is_empty());
    assert_eq!(chunk.len(), 11);
}

#[test]
fn test_chunk_with_parent() {
    let parent_id = fresh_id();
    let chunk = Chunk::new("test".to_string(), 0, (0, 4), ChunkType::Sentence).with_parent(parent_id);

    assert_eq!(chunk.parent_id, Some(parent_id));
    assert_eq!(chunk.level, 1);
}

#[test]
fn test_chunk_type_levels() {
    assert_eq!(ChunkType::Document.level(), 0);
    assert_eq!(ChunkType::Paragraph.level(), 1);
    assert_eq!(ChunkType::Sentence.level(), 2);
    assert_eq!(ChunkType::Custom.level(), 3);
}

#[test]
fn test_split_into_sentences() {
    let text = "Hello world. How are you? I'm fine!";
    let sentences = split_into_sentences(text);
    assert_eq!(sentences.len(), 3);
    assert_eq!(sentences[0], "Hello world.");
    assert_eq!(sentences[1], "How are you?");
    assert_eq!(sentences[2], "I'm fine!");
}

#[test]
fn test_split_into_paragraphs() {
    let text = "First paragraph.\n\nSecond paragraph.\n\n\nThird paragraph.";
    let paragraphs = split_into_paragraphs(text);
    assert_eq!(paragraphs.len(), 3);
    assert_eq!(paragraphs[0], "First paragraph.");
    assert_eq!(paragraphs[1], "Second paragraph.");
    assert_eq!(paragraphs[2], "Third paragraph.");
}

#[test]
fn strategy_test_config_validation() {
    let config = ChunkingConfig::new();
    assert!(config.validate().is_ok());

    let invalid_config = ChunkingConfig { max_chunk_size: 0, ..Default::default() };
    assert!(invalid_config.validate().is_err());
}

#[test]
fn fixed_test_config_validation() {
    let valid = FixedChunkConfig::new(100, 10);
    assert!(valid.validate().is_ok());

    let invalid = FixedChunkConfig::new(0, 10);
    assert!(invalid.validate().is_err());

    let invalid_overlap = FixedChunkConfig::new(100, 100);
    assert!(invalid_overlap.validate().is_err());
}

#[test]
fn hierarchical_test_config_validation() {
    let valid = HierarchicalChunkConfig::new();
    assert!(valid.validate().is_ok());

    let invalid = HierarchicalChunkConfig { max_document_size: 100, max_paragraph_size: 200, ..Default::default() };
    assert!(invalid.validate().is_err());
}

#[test]
fn test_fixed_chunking() {
    let chunker = FixedChunker::new_with_sizes(20, 5).unwrap();
    let text = "The quick brown fox jumps over the lazy dog. The dog was sleeping.";
    let chunks = chunker.chunk(text, ChunkMetadata::default()).unwrap();

    assert!(!chunks.is_empty());
    for chunk in &chunks {
        assert!(chunk.len() <= 25);
    }
}

#[test]
fn test_fixed_chunking_empty_input() {
    let chunker = FixedChunker::new();
    let result = chunker.chunk("", ChunkMetadata::default());
    assert!(matches!(result, Err(ChunkingError::EmptyInput)));
}

#[test]
fn test_fixed_chunking_single_chunk() {
    let chunker = FixedChunker::new_with_sizes(100, 10).unwrap();
    let text = "Short text.";
    let chunks = chunker.chunk(text, ChunkMetadata::default()).unwrap();

    assert_eq!(chunks.len(), 1);
    assert_eq!(chunks[0].content, "Short text.");
}

#[test]
fn test_semantic_chunking() {
    let chunker = SemanticChunker::with_config(SemanticChunkConfig::new(200, 500)).unwrap();
    let text = "This is about cats. Cats are furry animals. \
                 Now let's talk about dogs. Dogs are loyal pets. \
                 Finally, birds can fly.";
    let chunks = chunker.chunk(text, ChunkMetadata::default()).unwrap();

    assert!(!chunks.is_empty());
    for chunk in &chunks {
        assert!(!chunk.content.is_empty());
    }
}

#[test]
fn test_semantic_chunking_empty_input() {
    let chunker = SemanticChunker::new();
    let result = chunker.chunk("", ChunkMetadata::default());
    assert!(matches!(result, Err(ChunkingError::EmptyInput)));
}

#[test]
fn test_semantic_chunking_short_input() {
    let chunker = SemanticChunker::with_config(SemanticChunkConfig::new(1000, 300)).unwrap();
    let result = chunker.chunk("Short.", ChunkMetadata::default());
    assert!(matches!(result, Err(ChunkingError::InputTooShort { .. })));
}

#[test]
fn test_similarity_calculation() {
    let chunker = SemanticChunker::new();

    let sim1 = ratio(chunker.calculate_similarity("cat dog", "cat dog"));
    assert!(sim1 > 0.8);

    let sim2 = ratio(chunker.calculate_similarity("cat dog", "bird fish"));
    assert!(sim2 < 0.5);

    let sim3 = ratio(chunker.calculate_similarity("cat dog mouse", "cat bird fish"));
    assert!(sim3 > 0.0 && sim3 < 1.0);
}

#[test]
fn test_hierarchical_chunking() {
    let chunker = HierarchicalChunker::new().unwrap();
    let text = "This is the first paragraph. It has multiple sentences. \
                 This is the second paragraph. It also has sentences. \
                 And a third paragraph for good measure.";

    let chunks = chunker.chunk(text, ChunkMetadata::default()).unwrap();

    assert!(!chunks.is_empty());
    let has_document = chunks.iter().any(|c| c.level == 0);
    let has_paragraph = chunks.iter().any(|c| c.level == 1);
    let has_sentence = chunks.iter().any(|c| c.level == 2);

    assert!(has_document, "Should have document-level chunk");
    assert!(has_paragraph, "Should have paragraph-level chunks");
    assert!(has_sentence, "Should have sentence-level chunks");
}

#[test]
fn test_hierarchical_chunking_structure() {
    let chunker = HierarchicalChunker::new().unwrap();
    let text = "This is the first paragraph with multiple sentences to make it long enough. \
                 It has several sentences to ensure proper chunking behavior. \
                 This is the second paragraph which also needs to be sufficiently long. \
                 It contains additional sentences for testing the hierarchical structure. \
                 Here is a third paragraph to add more content to the test. \
                 This ensures we have enough text for proper semantic chunking.";

    let result = chunker.chunk_hierarchical(text, ChunkMetadata::default()).unwrap();

    assert_eq!(result.documents.len(), 1);
    assert!(!result.paragraphs.is_empty());
    assert!(!result.sentences.is_empty());
    for sentence in &result.sentences {
        assert!(sentence.parent_id.is_some());
    }
}

#[test]
fn test_hierarchical_chunking_empty_input() {
    let chunker = HierarchicalChunker::new().unwrap();
    let result = chunker.chunk("", ChunkMetadata::default());
    assert!(matches!(result, Err(ChunkingError::EmptyInput)));
}

#[test]
fn test_get_children() {
    let parent_id = fresh_id();
    let child1_id = fresh_id();
    let child2_id = fresh_id();

    let mut parent = Chunk::new("parent".to_string(), 0, (0, 6), ChunkType::Document);
    parent.id = parent_id;
    parent.add_child(child1_id);
    parent.add_child(child2_id);

    let mut child1 = Chunk::new("child1".to_string(), 0, (0, 6), ChunkType::Sentence).with_parent(parent_id);
    child1.id = child1_id;

    let mut child2 = Chunk::new("child2".to_string(), 0, (0, 6), ChunkType::Sentence).with_parent(parent_id);
    child2.id = child2_id;

    let all_chunks = vec![parent.clone(), child1, child2];
    let parent_map = HierarchicalChunker::build_parent_map(&all_chunks);

    assert_eq!(parent_map.get(&child1_id), Some(&parent_id));
    assert_eq!(parent_map.get(&child2_id), Some(&parent_id));
}

#[test]
fn sentences_are_trimmed_and_not_empty() {
    let sentences = split_into_sentences("  One.  Two!\nThree?   ...  tail  ");
    assert_eq!(sentences, vec!["One.", "Two!", "Three?", "...", "tail"]);
    for s in &sentences {
        assert!(!s.is_empty());
        assert_eq!(s.trim(), s);
    }
    assert!(split_into_sentences("   ").is_empty());
    assert_eq!(split_into_sentences("v1.2 is out."), vec!["v1.2 is out."]);
}

#[test]
fn paragraphs_skip_empty_pieces() {
    assert_eq!(split_into_paragraphs("\n\n\n\n a \n\n\n\n"), vec!["a"]);
    assert!(split_into_paragraphs("").is_empty());
}

#[test]
fn breaking_point_prefers_newline_then_space() {
    let chars: Vec<char> = "abc def\nghi jkl".chars().collect();
    assert_eq!(find_breaking_point(&chars, 0, 12), 8);
    let chars: Vec<char> = "abc def ghi".chars().collect();
    assert_eq!(find_breaking_point(&chars, 0, 10), 7);
    let chars: Vec<char> = "abcdefghij".chars().collect();
    assert_eq!(find_breaking_point(&chars, 0, 6), 6);
}

#[test]
fn breaking_point_stays_inside_the_window() {
    let chars: Vec<char> = "a\nbcdef".chars().collect();
    assert_eq!(find_breaking_point(&chars, 2, 5), 5);
}

#[test]
fn fixed_chunking_always_advances() {
    let chunker = FixedChunker::new_with_sizes(5, 1).unwrap();
    let chunks = chunker.chunk("a bcdefghij", ChunkMetadata::default()).unwrap();
    assert!(!chunks.is_empty());
    for w in chunks.windows(2) {
        assert!(w[0].range.0 < w[1].range.0);
    }
    assert_eq!(chunks.last().unwrap().range.1, 11);
}

#[test]
fn document_summary_is_a_prefix() {
    let chunker = HierarchicalChunker::new().unwrap();
    let text = "word ".repeat(150);
    let doc = chunker.create_document_chunk(&text, &[]).unwrap();
    assert!(doc.content.ends_with("..."));
    let summary = &doc.content[..doc.content.len() - 3];
    assert!(!summary.is_empty());
    assert!(text.starts_with(summary));
    assert!(summary.len() <= 500);
    assert_eq!(doc.level, 0);
}

#[test]
fn fixed_chunks_follow_the_text() {
    let chunker = FixedChunker::new_with_sizes(10, 2).unwrap();
    let text = "  aaaa bbbb cccc dddd  ";
    let chunks = chunker.chunk(text, ChunkMetadata::default()).unwrap();
    let chars: Vec<char> = text.trim().chars().collect();
    for (k, c) in chunks.iter().enumerate() {
        assert_eq!(c.index, k);
        assert_eq!(c.chunk_type, ChunkType::Custom);
        let expected: String = chars[c.range.0..c.range.1].iter().collect();
        assert_eq!(c.content, expected);
        assert!(c.content.chars().count() <= 10);
    }
    assert_eq!(chunks.last().unwrap().range.1, chars.len());
}

#[test]
fn semantic_chunks_cover_all_sentences() {
    let chunker = SemanticChunker::with_config(SemanticChunkConfig::new(40, 300)).unwrap();
    let text = "Alpha beta gamma. Alpha beta delta. Something else here. More text follows now.";
    let chunks = chunker.chunk(text, ChunkMetadata::default()).unwrap();
    let joined: Vec<String> = chunks.iter().map(|c| c.content.clone()).collect();
    assert_eq!(joined.join(" "), split_into_sentences(text).join(" "));
    for (k, c) in chunks.iter().enumerate() {
        assert_eq!(c.index, k);
        assert_eq!(c.chunk_type, ChunkType::Paragraph);
        assert_eq!(c.boundary_score, 800);
    }
}

#[test]
fn chunking_errors_have_messages() {
    assert_eq!(ChunkingError::EmptyInput.to_string(), "Empty input provided");
    assert_eq!(
        ChunkingError::InputTooShort { min: 100, actual: 6 }.to_string(),
        "Input too short: minimum 100 characters, got 6"
    );
    assert_eq!(ChunkingError::InvalidOverlap("x".to_string()).to_string(), "Invalid overlap size: x");
    assert_eq!(ChunkingError::ConfigError("y".to_string()).to_string(), "Configuration error: y");
}

#[test]
fn ranges_make_trimmed_chunks() {
    let text = "  héllo  world ";
    let chunks = chunks_from_ranges(text, &[(0, 9), (9, 16)], ChunkType::Sentence);
    assert_eq!(chunks.len(), 2);
    assert_eq!(chunks[0].content, "héllo");
    assert_eq!(chunks[1].content, "world");
    assert_eq!(chunks[1].index, 1);
    assert_eq!(chunks[1].range, (9, 16));
}

#[test]
fn hierarchical_sentences_hang_under_paragraphs() {
    let chunker = HierarchicalChunker::new().unwrap();
    let text = "The first sentence of the text is here. The second sentence follows it closely. \
                A third sentence ends the text for this test of the hierarchy.";
    let chunks = chunker.chunk(text, ChunkMetadata::default()).unwrap();
    let document = &chunks[0];
    assert_eq!(document.chunk_type, ChunkType::Document);
    let paragraphs: Vec<&Chunk> = chunks.iter().filter(|c| c.chunk_type == ChunkType::Paragraph).collect();
    assert_eq!(document.child_ids, paragraphs.iter().map(|p| p.id).collect::<Vec<u128>>());
    for c in chunks.iter().filter(|c| c.chunk_type == ChunkType::Sentence) {
        assert_eq!(c.level, 2);
        assert!(paragraphs.iter().any(|p| Some(p.id) == c.parent_id));
    }
}

#[test]
fn similarity_is_symmetric_and_full_with_itself() {
    let chunker = SemanticChunker::new();
    let a = "the cat sat on the mat";
    let b = "a cat and a dog";
    assert_eq!(chunker.calculate_similarity(a, b), chunker.calculate_similarity(b, a));
    assert_eq!(chunker.calculate_similarity(a, b), (1, 8));
    assert_eq!(chunker.calculate_similarity(a, a), (5, 5));
    assert_eq!(chunker.calculate_similarity("", "x y"), (0, 2));
    assert_eq!(chunker.calculate_similarity("  ", "\t"), (0, 0));
}
