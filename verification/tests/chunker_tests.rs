use rainbow_docs::chunker::{DocumentFeatures, IntelligentChunker, SemanticUnitType};
use rainbow_docs::chunking::{ChunkingConfig, ChunkingStrategy, ContentType, EnhancedDocumentChunk};
use rainbow_docs::error::AppError;
use rainbow_docs::structure_parser::{DocumentElement, DocumentStructureParser, ElementType, Section};

fn chunker(target: usize) -> IntelligentChunker {
    IntelligentChunker { config: ChunkingConfig { target_chunk_size: target, ..ChunkingConfig::default() } }
}

#[test]
fn test_simple_chunking() {
    let config = ChunkingConfig { strategy: ChunkingStrategy::Simple, target_chunk_size: 100, ..ChunkingConfig::default() };
    let chunker = IntelligentChunker::new(config).unwrap();
    let content = "This is a test document. ".repeat(20);
    let structure = DocumentStructureParser::new_default().parse(&content).unwrap();
    let chunks = chunker.chunk_document("doc1", "Test Title", &content, &structure).unwrap();
    assert!(chunks.len() > 1);
    // The strategy reported in a chunking's statistics is the configured one.
    assert_eq!(chunker.config.strategy, ChunkingStrategy::Simple);
    for (i, c) in chunks.iter().enumerate() {
        assert_eq!(c.chunk_index, i);
        assert_eq!(c.extraction_method, "simple");
    }
}

#[test]
fn simple_cuts_end_at_sentences() {
    let c = chunker(30);
    let chunks = c.chunk_text_simple("One two. Three four five six seven. End", "d");
    let texts: Vec<&str> = chunks.iter().map(|c| c.content.as_str()).collect();
    assert_eq!(texts, vec!["One two.", "Three four five six seven.", "End"]);
    assert_eq!(chunks[1].chunk_index, 1);
    assert_eq!(chunks[1].id, "d_chunk_0001");
    assert_eq!(chunks[2].total_chunks, 0);
    // Without a sentence end the cut falls after a line break, then after a space.
    let chunks = c.chunk_text_simple("aaaa bbbb\ncccc dddd eeee ffff gggg hhhh", "d");
    assert_eq!(chunks[0].content, "aaaa bbbb");
    let chunks = chunker(5).chunk_text_simple("abcdefghij", "d");
    let texts: Vec<&str> = chunks.iter().map(|c| c.content.as_str()).collect();
    assert_eq!(texts, vec!["abcde", "fghij"]);
    assert!(c.chunk_text_simple("", "d").is_empty());
}

#[test]
fn overlap_and_new_chunk_rule() {
    let c = IntelligentChunker { config: ChunkingConfig { overlap_size: 8, ..ChunkingConfig::default() } };
    assert_eq!(c.extract_overlap("short"), "short");
    assert_eq!(c.extract_overlap("hello wonderful world"), "wonderful world");
    assert_eq!(c.extract_overlap("abcdefghijklmnop"), "ijklmnop");
    let c = IntelligentChunker { config: ChunkingConfig { target_chunk_size: 10, max_chunk_size: 300, ..ChunkingConfig::default() } };
    assert!(!c.should_start_new_chunk("", "anything at all here"));
    assert!(c.should_start_new_chunk("123456", "123"));
    assert!(!c.should_start_new_chunk("12345", "123"));
    assert!(!c.should_start_new_chunk("1234", "12"));
    let c = IntelligentChunker { config: ChunkingConfig { target_chunk_size: 1000, max_chunk_size: 210, ..ChunkingConfig::default() } };
    assert!(c.should_start_new_chunk("12345678901", "x"));
}

#[test]
fn content_types_from_text() {
    let c = chunker(100);
    assert_eq!(c.detect_content_type_from_text("```rust\nx\n```"), ContentType::Code { language: None });
    assert_eq!(c.detect_content_type_from_text("| a |\n|---|"), ContentType::Table);
    assert_eq!(c.detect_content_type_from_text("intro\n  - item"), ContentType::List);
    assert_eq!(c.detect_content_type_from_text("> a\n> b"), ContentType::Quote);
    assert_eq!(c.detect_content_type_from_text("plain words"), ContentType::Text);
    assert_eq!(c.detect_content_type_from_text(""), ContentType::Quote);
}

#[test]
fn paragraphs_become_units() {
    let c = chunker(100);
    let units = c.identify_semantic_units("First para\n\n\n\nSecond é\n\nThird", &Vec::new());
    let shape: Vec<(String, usize, usize)> = units.iter().map(|u| (u.content.clone(), u.start_position, u.end_position)).collect();
    assert_eq!(
        shape,
        vec![
            ("First para".to_string(), 0, 10),
            ("Second é".to_string(), 14, 23),
            ("Third".to_string(), 25, 30),
        ]
    );
    assert!(units.iter().all(|u| u.unit_type == SemanticUnitType::Paragraph));
}

#[test]
fn semantic_chunking_groups_and_links() {
    let c = IntelligentChunker {
        config: ChunkingConfig { strategy: ChunkingStrategy::Semantic, target_chunk_size: 30, overlap_size: 0, ..ChunkingConfig::default() },
    };
    let chunks = c.semantic_chunking("doc", "Title", "alpha beta\n\ngamma delta\n\nepsilon", &Vec::new());
    let texts: Vec<&str> = chunks.iter().map(|c| c.content.as_str()).collect();
    assert_eq!(texts, vec!["Title\n\nalpha beta\n\ngamma delta", "epsilon"]);
    assert_eq!(chunks[0].next_chunk_id.as_deref(), Some("doc_chunk_0001"));
    assert_eq!(chunks[1].previous_chunk_id.as_deref(), Some("doc_chunk_0000"));
    assert_eq!(chunks[1].total_chunks, 2);
    assert_eq!(chunks[1].extraction_method, "semantic");
    assert_eq!(chunks[1].processing_flags, vec!["strategy:Semantic".to_string()]);
    assert_eq!(chunks[1].source_range, Some((32, 39)));
    assert_eq!(chunks[0].source_range, Some((0, 30)));
}

#[test]
fn semantic_units_from_structure() {
    let parser = DocumentStructureParser::new_default();
    let s = parser.parse("Some text.\n\n```rust\nfn a() {}\n```\n").unwrap();
    let c = chunker(1000);
    let units = c.identify_semantic_units("ignored", &s.elements);
    assert_eq!(units.len(), s.elements.len());
    assert!(units.iter().any(|u| u.unit_type == SemanticUnitType::Code));
}

#[test]
fn hybrid_refinement_merges_small_chunks() {
    let c = IntelligentChunker {
        config: ChunkingConfig { strategy: ChunkingStrategy::Hybrid, target_chunk_size: 1000, min_chunk_size: 100, max_chunk_size: 1500, ..ChunkingConfig::default() },
    };
    let chunks = vec![
        EnhancedDocumentChunk::new("d".to_string(), "first".to_string(), 0, 0),
        EnhancedDocumentChunk::new("d".to_string(), "second".to_string(), 1, 0),
        EnhancedDocumentChunk::new("d".to_string(), "x".repeat(1600), 2, 0),
    ];
    let refined = c.refine_chunks("d", chunks);
    assert_eq!(refined[0].content, "first\n\nsecond");
    assert_eq!(refined[0].text_length, 13);
    assert_eq!(refined.len(), 2);
    assert_eq!(refined[1].content.len(), 1600);
    assert_eq!(refined[1].chunk_index, 1);
    assert_eq!(refined[1].extraction_method, "hybrid");
}

#[test]
fn test_intelligent_chunker_creation() {
    let config = ChunkingConfig::default();
    let chunker = IntelligentChunker::new(config).unwrap();
    assert!(chunker.config.validate().is_ok());
}

#[test]
fn chunker_refuses_inconsistent_sizes() {
    let config = ChunkingConfig { min_chunk_size: 2000, ..ChunkingConfig::default() };
    match IntelligentChunker::new(config) {
        Err(AppError::Validation(m)) => {
            assert_eq!(m, "Invalid chunking config: min_chunk_size must be less than target_chunk_size")
        }
        _ => panic!("expected a validation error"),
    }
}

#[test]
fn test_structural_chunking() {
    let config = ChunkingConfig { strategy: ChunkingStrategy::StructureBased, ..ChunkingConfig::default() };
    let chunker = IntelligentChunker::new(config).unwrap();
    let content = r#"
# Chapter 1

This is chapter 1 content.

## Section 1.1

This is section 1.1 content.

# Chapter 2

This is chapter 2 content.
"#;
    let structure = DocumentStructureParser::new_default().parse(content).unwrap();
    let chunks = chunker.chunk_document("doc1", "Test Doc", content, &structure).unwrap();
    assert!(chunks.len() >= 2);
    assert!(structure.outline.len() >= 3);
    for (i, c) in chunks.iter().enumerate() {
        assert_eq!(c.chunk_index, i);
        assert_eq!(c.total_chunks, chunks.len());
        assert_eq!(c.extraction_method, "structural");
        assert_eq!(c.id, format!("doc1_chunk_{:04}", i));
    }
}

#[test]
fn structural_chunking_without_outline_is_simple() {
    let chunker = chunker(1000);
    let structure = DocumentStructureParser::new_default().parse("Just one line.").unwrap();
    assert!(structure.outline.is_empty());
    let chunks = chunker.structural_chunking("d", "T", "Just one line.", &structure);
    assert_eq!(chunks.len(), 1);
    assert_eq!(chunks[0].content, "T\n\nJust one line.");
    assert_eq!(chunks[0].total_chunks, 0);
}

fn section(start: usize, end: usize, level: u8, element_indices: Vec<usize>) -> Section {
    Section {
        id: "s".to_string(),
        title: "H".to_string(),
        level,
        path: vec!["H".to_string()],
        start_position: start,
        end_position: end,
        children: Vec::new(),
        element_indices,
        content_length: end - start,
    }
}

fn paragraph(text: &str) -> DocumentElement {
    DocumentElement {
        element_type: ElementType::Paragraph,
        content: text.to_string(),
        position: (0, 0),
        section_id: None,
        attributes: Vec::new(),
    }
}

#[test]
fn small_section_is_one_chunk() {
    let c = chunker(1000);
    let sec = section(7, 16, 1, Vec::new());
    let chunks = c.chunk_section("d", "intro\n\n# H\n\nbody", &sec, &Vec::new(), 3);
    assert_eq!(chunks.len(), 1);
    assert_eq!(chunks[0].content, "# H\n\nbody");
    assert_eq!(chunks[0].chunk_index, 3);
    assert_eq!(chunks[0].id, "d_chunk_0003");
    assert_eq!(chunks[0].section_path, vec!["H".to_string()]);
    assert_eq!(chunks[0].section_level, Some(1));
    assert_eq!(chunks[0].content_type, ContentType::Text);
    assert_eq!(chunks[0].extraction_method, "structural");
}

#[test]
fn large_section_splits_at_elements() {
    let c = IntelligentChunker {
        config: ChunkingConfig { target_chunk_size: 6, max_chunk_size: 5, overlap_size: 0, ..ChunkingConfig::default() },
    };
    let els = vec![paragraph("aaaa"), paragraph("bbbb"), paragraph("cccc")];
    let sec = section(0, 16, 2, vec![0, 1, 2]);
    let chunks = c.chunk_section("d", "aaaa\n\nbbbb\n\ncccc", &sec, &els, 5);
    let texts: Vec<&str> = chunks.iter().map(|c| c.content.as_str()).collect();
    assert_eq!(texts, vec!["aaaa", "bbbb", "cccc"]);
    assert_eq!(chunks[2].chunk_index, 7);
    assert_eq!(chunks[1].section_level, Some(2));
    let direct = c.split_large_section("d", &sec, &els, 5);
    assert_eq!(direct.len(), 3);
}

#[test]
fn text_outside_sections_is_chunked() {
    let c = chunker(1000);
    let sec = section(7, 16, 1, Vec::new());
    let chunks = c.chunk_orphan_content("d", "intro\n\n# H\n\nbody", &vec![sec], 1);
    assert_eq!(chunks.len(), 1);
    assert_eq!(chunks[0].content, "intro");
    assert_eq!(chunks[0].chunk_index, 1);
    let covered = section(0, 16, 1, Vec::new());
    assert!(c.chunk_orphan_content("d", "intro\n\n# H\n\nbody", &vec![covered], 0).is_empty());
}

#[test]
fn hybrid_chunking_keeps_a_small_document_whole() {
    let c = IntelligentChunker { config: ChunkingConfig { strategy: ChunkingStrategy::Hybrid, ..ChunkingConfig::default() } };
    let structure = DocumentStructureParser::new_default().parse("Hello world.").unwrap();
    let chunks = c.hybrid_chunking("d", "T", "Hello world.", &structure);
    assert_eq!(chunks.len(), 1);
    assert_eq!(chunks[0].content, "T\n\nHello world.");
    assert_eq!(chunks[0].total_chunks, 1);
    assert_eq!(chunks[0].extraction_method, "hybrid");
}

fn features(sections: usize, code: usize, elements: usize, tables: usize, paragraphs: usize, length: usize) -> DocumentFeatures {
    DocumentFeatures {
        has_clear_structure: sections > 0,
        section_count: sections,
        code_block_count: code,
        element_count: elements,
        table_count: tables,
        paragraph_count: paragraphs,
        document_length: length,
    }
}

#[test]
fn adaptive_strategy_choice() {
    let c = chunker(1000);
    assert_eq!(c.select_best_strategy(&features(4, 0, 10, 0, 1, 10)), ChunkingStrategy::StructureBased);
    assert_eq!(c.select_best_strategy(&features(3, 4, 10, 0, 1, 10)), ChunkingStrategy::Hybrid);
    assert_eq!(c.select_best_strategy(&features(3, 3, 10, 0, 1, 10)), ChunkingStrategy::Simple);
    assert_eq!(c.select_best_strategy(&features(0, 1, 0, 0, 0, 0)), ChunkingStrategy::Hybrid);
    assert_eq!(c.select_best_strategy(&features(0, 0, 5, 3, 0, 0)), ChunkingStrategy::Hybrid);
    assert_eq!(c.select_best_strategy(&features(0, 0, 5, 0, 2, 1001)), ChunkingStrategy::Semantic);
    assert_eq!(c.select_best_strategy(&features(0, 0, 5, 0, 2, 1000)), ChunkingStrategy::Simple);
    assert_eq!(c.select_best_strategy(&features(0, 0, 5, 0, 0, 5000)), ChunkingStrategy::Simple);
}

#[test]
fn document_features_count_the_structure() {
    let c = chunker(1000);
    let content = "# A\n\ntext\n\n```rust\nx\n```\n";
    let s = DocumentStructureParser::new_default().parse(content).unwrap();
    let f = c.analyze_document_features(content, &s);
    assert!(f.has_clear_structure);
    assert_eq!(f.section_count, s.outline.len());
    assert_eq!(f.code_block_count, 1);
    assert_eq!(f.element_count, s.elements.len());
    assert_eq!(f.document_length, content.len());
}

#[test]
fn simple_cuts_are_checked_before_cutting() {
    assert!(rainbow_docs::chunker::simple_cuts_defined("Plain text. More text.", 10));
    assert!(rainbow_docs::chunker::simple_cuts_defined("", 0));
    assert!(!rainbow_docs::chunker::simple_cuts_defined("abc", 0));
    // The tenth byte falls inside the second character.
    assert!(!rainbow_docs::chunker::simple_cuts_defined("ééééééé", 3));
}

#[test]
fn strategies_dispatch_and_adapt() {
    let content = "Alpha beta gamma.\n\nDelta epsilon.\n\nZeta eta theta.";
    let structure = DocumentStructureParser::new_default().parse(content).unwrap();
    let config = ChunkingConfig { target_chunk_size: 30, max_chunk_size: 300, min_chunk_size: 20, overlap_size: 0, ..ChunkingConfig::default() };
    let chunker = IntelligentChunker::new(config).unwrap();
    // Without sections or many paragraphs' worth of text, adaptive chunking chooses simple
    // chunking, so both give the same chunks.
    let adaptive = chunker.adaptive_chunking("d", "T", content, &structure).unwrap();
    let simple = chunker.chunk_with_strategy(ChunkingStrategy::Simple, "d", "T", content, &structure).unwrap();
    let a: Vec<&str> = adaptive.iter().map(|c| c.content.as_str()).collect();
    let b: Vec<&str> = simple.iter().map(|c| c.content.as_str()).collect();
    assert_eq!(a, b);
    for strategy in [ChunkingStrategy::Simple, ChunkingStrategy::Semantic, ChunkingStrategy::StructureBased, ChunkingStrategy::Hybrid] {
        let chunks = chunker.chunk_with_strategy(strategy, "d", "T", content, &structure).unwrap();
        assert!(!chunks.is_empty());
        let n = chunks.len();
        for (i, c) in chunks.iter().enumerate() {
            assert_eq!(c.chunk_index, i);
            assert_eq!(c.document_id, "d");
            assert_eq!(c.id, format!("d_chunk_{:04}", i));
            let expected_total = if strategy == ChunkingStrategy::Simple { 0 } else if strategy == ChunkingStrategy::StructureBased && structure.outline.is_empty() { 0 } else { n };
            assert_eq!(c.total_chunks, expected_total);
        }
    }
}

#[test]
fn simple_strategy_refuses_a_cut_inside_a_character() {
    // A two-byte character straddles the first cut at one byte.
    let config = ChunkingConfig { strategy: ChunkingStrategy::Simple, target_chunk_size: 1, max_chunk_size: 10, min_chunk_size: 1, overlap_size: 0, ..ChunkingConfig::default() };
    let chunker = IntelligentChunker { config };
    let structure = DocumentStructureParser::new_default().parse("é").unwrap();
    assert!(chunker.chunk_document("d", "é", "é", &structure).is_none());
}

#[test]
fn chunker_accepts_minimum_equal_to_target() {
    let config = ChunkingConfig { target_chunk_size: 100, min_chunk_size: 100, ..ChunkingConfig::default() };
    assert!(IntelligentChunker::new(config).is_ok());
    let config = ChunkingConfig { target_chunk_size: 100, min_chunk_size: 101, ..ChunkingConfig::default() };
    match IntelligentChunker::new(config) {
        Err(AppError::Validation(m)) => assert_eq!(m, "Invalid chunking config: min_chunk_size must be less than target_chunk_size"),
        _ => panic!("expected a validation error"),
    }
}
