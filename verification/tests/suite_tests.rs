use rainbow_docs::chunk_suite::{create_test_chunks, fixed_cuts_defined, incomplete_chunks, size_violations};
use rainbow_docs::chunking::{ChunkingConfig, EnhancedDocumentChunk};

#[test]
fn long_document_is_cut_every_target_bytes() {
    let content = "A".repeat(10000);
    let chunks = create_test_chunks(&content, &ChunkingConfig::default()).unwrap();
    assert_eq!(chunks.len(), 10);
    assert!(chunks.iter().all(|c| c.content.len() == 1000 && c.total_chunks == 10));
    assert_eq!(chunks[3].id, "test_doc_chunk_0003");
    assert_eq!(chunks[3].chunk_index, 3);
    let short = create_test_chunks("abcdefg", &ChunkingConfig { target_chunk_size: 3, ..ChunkingConfig::default() }).unwrap();
    let texts: Vec<&str> = short.iter().map(|c| c.content.as_str()).collect();
    assert_eq!(texts, vec!["abc", "def", "g"]);
    assert!(create_test_chunks("", &ChunkingConfig::default()).unwrap().is_empty());
}

#[test]
fn fixed_cuts_must_fall_between_characters() {
    assert!(fixed_cuts_defined("abcdef", 4));
    assert!(fixed_cuts_defined("", 0));
    assert!(!fixed_cuts_defined("ab", 0));
    assert!(!fixed_cuts_defined("éé", 1));
    assert!(fixed_cuts_defined("éé", 2));
}

fn chunk(text: &str) -> EnhancedDocumentChunk {
    EnhancedDocumentChunk::new("d".to_string(), text.to_string(), 0, 0)
}

#[test]
fn size_and_integrity_counts() {
    let chunks = vec![chunk("short."), chunk(&"x".repeat(60)), chunk("ends well!  "), chunk("cut in the mid"), chunk("   ")];
    assert_eq!(size_violations(&chunks, 50, 2000), 4);
    assert_eq!(size_violations(&chunks, 0, 100), 0);
    assert_eq!(incomplete_chunks(&chunks), 2);
    assert_eq!(incomplete_chunks(&vec![chunk("句子。")]), 0);
}
