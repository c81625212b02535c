use rainbow_docs::benchmark::{repeat_str, ChunkingBenchmark, SizeCategory};

#[test]
fn benchmark_documents_cover_four_sizes() {
    let b = ChunkingBenchmark::new();
    let docs = b.test_documents();
    assert_eq!(docs.len(), 4);
    assert_eq!(docs[0].id, "small_1");
    assert_eq!(docs[0].content, "This is a small test document.\n\n".repeat(10));
    assert_eq!(docs[0].size_category, SizeCategory::Small);
    assert!(docs[0].content.len() < 1024);
    assert!(docs[1].content.len() >= 1024 && docs[1].content.len() < 10 * 1024);
    assert!(docs[1].content.starts_with("\n# Medium Document\n\n## Introduction\n"));
    assert!(docs[2].content.len() >= 10 * 1024 && docs[2].content.len() < 100 * 1024);
    assert!(docs[3].content.len() > 100 * 1024);
    assert_eq!(docs[3].size_category, SizeCategory::XLarge);
}

#[test]
fn large_document_has_twenty_chapters() {
    let large = ChunkingBenchmark::generate_large_document();
    assert!(large.starts_with("\n# Chapter 1\n\n## Section 1.1\n\nLorem ipsum"));
    assert!(large.contains("\n# Chapter 20\n\n"));
    assert!(large.contains("## Section 20.5\n\n"));
    assert!(!large.contains("# Chapter 21"));
    assert_eq!(large.matches("```python\n").count(), 40);
    assert_eq!(ChunkingBenchmark::generate_xlarge_document(), large.repeat(5));
}

#[test]
fn repeating_text() {
    assert_eq!(repeat_str("ab", 3), "ababab");
    assert_eq!(repeat_str("ab", 0), "");
}

#[test]
fn mixed_workload_steps() {
    let (seed, read, index) = rainbow_docs::benchmark::mixed_step(42, 100);
    assert_eq!(seed, 46_347_652_635);
    assert!(read);
    assert_eq!(index, 35);
    let (wrapped, _, _) = rainbow_docs::benchmark::mixed_step(u64::MAX, 7);
    assert_eq!(wrapped, u64::MAX.wrapping_mul(1103515245).wrapping_add(12345));
}
