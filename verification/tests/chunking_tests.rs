use rainbow_docs::chunking::{make_chunk_id, ChunkingConfig, ChunkingStrategy, ContentType, EnhancedDocumentChunk};

#[test]
fn test_chunking_config_default() {
    let config = ChunkingConfig::default();
    assert_eq!(config.target_chunk_size, 1000);
    assert_eq!(config.max_chunk_size, 1500);
    assert_eq!(config.min_chunk_size, 100);
    assert!(config.quality.enabled);
}

#[test]
fn test_config_validation() {
    let mut config = ChunkingConfig::default();
    assert!(config.validate().is_ok());
    config.min_chunk_size = 1200;
    assert!(config.validate().is_err());
}

#[test]
fn test_enhanced_document_chunk_creation() {
    let chunk = EnhancedDocumentChunk::new("doc123".to_string(), "This is test content.".to_string(), 0, 1);
    assert_eq!(chunk.document_id, "doc123");
    assert_eq!(chunk.chunk_index, 0);
    assert_eq!(chunk.text_length, 21);
    assert_eq!(chunk.id, "doc123_chunk_0000");
}

#[test]
fn config_errors_name_the_broken_rule() {
    let mut c = ChunkingConfig::default();
    c.min_chunk_size = 1001;
    assert_eq!(c.validate().unwrap_err(), "min_chunk_size must be less than target_chunk_size");
    let mut c = ChunkingConfig::default();
    c.min_chunk_size = 1000;
    assert!(c.validate().is_ok());
    let mut c = ChunkingConfig::default();
    c.max_chunk_size = 1000;
    assert_eq!(c.validate().unwrap_err(), "target_chunk_size must be less than max_chunk_size");
    let mut c = ChunkingConfig::default();
    c.overlap_size = 100;
    assert_eq!(c.validate().unwrap_err(), "overlap_size must be less than min_chunk_size");
}

#[test]
fn strategies_and_analyses() {
    assert_eq!(ChunkingStrategy::from_setting("HYBRID"), ChunkingStrategy::Hybrid);
    assert_eq!(ChunkingStrategy::from_setting("structural"), ChunkingStrategy::StructureBased);
    assert_eq!(ChunkingStrategy::from_setting("whatever"), ChunkingStrategy::Simple);
    assert_eq!(ChunkingStrategy::StructureBased.name(), "Structural");
    let mut c = ChunkingConfig::default();
    assert!(!c.needs_structural_analysis() && !c.needs_semantic_analysis());
    c.strategy = ChunkingStrategy::Adaptive;
    assert!(c.needs_structural_analysis() && c.needs_semantic_analysis());
    c.strategy = ChunkingStrategy::Semantic;
    assert!(!c.needs_structural_analysis() && c.needs_semantic_analysis());
    assert_eq!(ContentType::default(), ContentType::Text);
}

#[test]
fn chunk_ids_are_zero_padded() {
    assert_eq!(make_chunk_id("d", 7), "d_chunk_0007");
    assert_eq!(make_chunk_id("d", 12345), "d_chunk_12345");
    let c = EnhancedDocumentChunk::new_at("文档".to_string(), "é".to_string(), 3, 5, 9)
        .with_structure(vec!["A".to_string()], Some(2));
    assert_eq!(c.id, "文档_chunk_0003");
    assert_eq!(c.text_length, 2);
    assert_eq!(c.extraction_method, "structural");
    assert_eq!(c.section_level, Some(2));
    let s = EnhancedDocumentChunk::new_at("d".to_string(), "x".to_string(), 0, 1, 0)
        .with_semantics(None, Some(vec!["k".to_string()]));
    assert_eq!(s.extraction_method, "semantic");
}
