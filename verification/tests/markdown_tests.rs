use rainbow_docs::markdown::{MarkdownProcessor, ValidationErrorType};

#[test]
fn test_markdown_rendering() {
    let processor = MarkdownProcessor::new();
    let markdown = "# Hello World\n\nThis is **bold** text.";
    let html = processor.render(markdown).unwrap();

    assert!(html.contains("<h1>"));
    assert!(html.contains("<strong>"));
}

#[test]
fn test_excerpt_extraction() {
    let processor = MarkdownProcessor::new();
    let markdown = "# Title\n\nThis is a long paragraph that should be truncated at some point to create a proper excerpt.";
    let excerpt = processor.extract_excerpt(markdown, 50);

    assert!(excerpt.len() <= 53); // 50 + "..."
    assert!(excerpt.ends_with("..."));
}

#[test]
fn markdown_test_reading_time_estimation() {
    let processor = MarkdownProcessor::new();
    let markdown = &"word ".repeat(200); // 200 words
    let time = processor.estimate_reading_time(markdown);

    assert_eq!(time, 1); // Should be 1 minute
}

#[test]
fn test_strip_markdown() {
    let processor = MarkdownProcessor::new();
    let markdown = "# Title\n\nThis is **bold** and *italic* text with [link](url).";
    let plain = processor.strip_markdown(markdown);

    assert_eq!(plain, "Title This is bold and italic text with link.");
}

#[test]
fn word_count_and_reading_time() {
    let p = MarkdownProcessor::new();
    assert_eq!(p.count_words("one *two*  three\nfour"), 4);
    assert_eq!(p.estimate_reading_time(&"w ".repeat(1000)), 5);
    assert_eq!(p.estimate_reading_time(""), 1);
}

#[test]
fn excerpt_short_text_is_whole() {
    let p = MarkdownProcessor::new();
    assert_eq!(p.extract_excerpt("Hello *world*", 200), "Hello world");
    assert_eq!(p.extract_excerpt("Hello world", 0), "");
    assert_eq!(p.extract_excerpt("Hello wonderful world", 12), "Hello...");
    assert_eq!(p.extract_excerpt("abcdefgh", 4), "abcd...");
}

#[test]
fn excerpt_cuts_at_cjk_punctuation() {
    let p = MarkdownProcessor::new();
    // "你好，世界" : each CJK char is 3 bytes.
    let e = p.extract_excerpt("你好，世界很大", 12);
    assert_eq!(e, "你好，...");
}

#[test]
fn toc_entries() {
    let p = MarkdownProcessor::new();
    let toc = p.extract_toc("# One\n\ntext\n\n## Two `x`\n").unwrap();
    assert_eq!(toc.len(), 2);
    assert_eq!(toc[0].level, 1);
    assert_eq!(toc[0].title, "One");
    assert_eq!(toc[0].id, "heading-1");
    assert_eq!(toc[1].title, "Two ");
    assert_eq!(toc[1].id, "heading-2");
}

#[test]
fn generated_toc_ids() {
    let p = MarkdownProcessor::new();
    let toc = p.generate_toc("# A {#custom}\n\n# B\n\n# C\n").unwrap();
    assert_eq!(toc.len(), 3);
    assert_eq!(toc[0].id, "custom");
    assert_eq!(toc[1].id, "");
    assert_eq!(toc[2].id, "-2");
    assert!(toc.iter().all(|t| t.title.is_empty()));
}

#[test]
fn validation_reports_unknown_language_and_empty_link() {
    let p = MarkdownProcessor::new();
    let errs = p.validate("```nosuchlang\nx\n```\n\n[a]()\n\n```rust\ny\n```\n").unwrap();
    assert_eq!(errs.len(), 2);
    assert!(matches!(errs[0].error_type, ValidationErrorType::UnknownLanguage));
    assert_eq!(errs[0].message, "Unknown language: nosuchlang");
    assert!(matches!(errs[1].error_type, ValidationErrorType::InvalidLink));
    assert_eq!(errs[1].message, "Empty link URL");
}

#[test]
fn process_collects_everything() {
    let p = MarkdownProcessor::new();
    let c = p.process("# T\n\nsome words here").unwrap();
    assert!(c.html.contains("<h1>T</h1>"));
    assert_eq!(c.word_count, 4);
    assert_eq!(c.reading_time, 1);
    assert_eq!(c.excerpt, "T some words here");
    assert_eq!(c.toc.len(), 1);
}

#[test]
fn bundled_syntaxes_know_rust() {
    let p = MarkdownProcessor::new();
    assert!(p.is_valid_language("rs"));
    assert!(p.is_valid_language("rust"));
    assert!(!p.is_valid_language("no-such-language-token"));
}
