use rainbow_docs::structure_parser::{section_id_from, DocumentStructureParser, ElementType, ParserConfig};

#[test]
fn test_parse_headers() {
    let parser = DocumentStructureParser::new_default();
    let markdown = r#"
# Chapter 1
Content of chapter 1

## Section 1.1
Content of section 1.1

### Subsection 1.1.1
Content of subsection

# Chapter 2
Content of chapter 2
"#;

    let structure = parser.parse(markdown).unwrap();
    assert_eq!(structure.outline.len(), 4);
    assert_eq!(structure.outline[0].level, 1);
    assert_eq!(structure.outline[0].title, "Chapter 1");
    assert_eq!(structure.outline[1].level, 2);
    assert_eq!(structure.outline[1].title, "Section 1.1");
}

#[test]
fn test_parse_code_blocks() {
    let parser = DocumentStructureParser::new_default();
    let markdown = r#"
Here's some Rust code:

```rust
fn main() {
    println!("Hello, world!");
}
```

And some inline `code`.
"#;

    let structure = parser.parse(markdown).unwrap();
    let code_blocks: Vec<_> = structure
        .elements
        .iter()
        .filter(|e| matches!(e.element_type, ElementType::CodeBlock { .. }))
        .collect();

    assert_eq!(code_blocks.len(), 1);
    if let ElementType::CodeBlock { language } = &code_blocks[0].element_type {
        assert_eq!(language, &Some("rust".to_string()));
    }
}

#[test]
fn test_metadata_calculation() {
    let parser = DocumentStructureParser::new_default();
    let markdown = r#"
# Title

## Section
Some paragraph content.

```rust
code block
```

- List item 1
- List item 2

| Column 1 | Column 2 |
|----------|----------|
| Data 1   | Data 2   |
"#;

    let structure = parser.parse(markdown).unwrap();
    assert_eq!(structure.metadata.header_counts.get(&1), Some(&1));
    assert_eq!(structure.metadata.header_counts.get(&2), Some(&1));
    assert_eq!(structure.metadata.code_block_count, 1);
    assert_eq!(structure.metadata.list_count, 1);
    assert_eq!(structure.metadata.table_count, 1);
    // The estimated reading time is fractional and kept by callers; it is derived from the
    // content length, which the structure records.
    assert_eq!(structure.content_length, markdown.len());
}

#[test]
fn sections_get_paths_ids_and_ends() {
    let parser = DocumentStructureParser::new_default();
    let md = "# Intro Part\n\ntext one\n\n## Sub A\n\nmore\n\n# Next\n\nlast\n";
    let s = parser.parse(md).unwrap();
    assert_eq!(s.outline.len(), 3);
    assert_eq!(s.outline[0].id, "section_1_intro_part");
    assert_eq!(s.outline[1].id, "section_2_sub_a");
    assert_eq!(s.outline[1].path, vec!["Intro Part".to_string()]);
    assert!(s.outline[2].path.is_empty());
    // "Intro Part" ends where "Next" (same level) starts; "Sub A" ends there too.
    assert_eq!(s.outline[0].end_position, s.outline[2].start_position);
    assert_eq!(s.outline[1].end_position, s.outline[2].start_position);
    assert_eq!(s.outline[2].end_position, s.content_length);
    for sec in &s.outline {
        assert_eq!(sec.content_length, sec.end_position - sec.start_position);
        for &i in &sec.element_indices {
            let e = &s.elements[i];
            assert!(e.position.0 >= sec.start_position && e.position.1 <= sec.end_position);
        }
    }
    let paragraphs: Vec<_> = s.elements.iter().filter(|e| matches!(e.element_type, ElementType::Paragraph)).collect();
    assert_eq!(paragraphs.len(), 3);
    assert_eq!(paragraphs[0].content, "text one");
    assert_eq!(paragraphs[0].section_id.as_deref(), Some("section_1_intro_part"));
    assert_eq!(s.metadata.paragraph_count, 3);
}

#[test]
fn links_only_when_configured() {
    let md = "See [the site](http://x.y) and ![pic](a.png).\n";
    let plain = DocumentStructureParser::new_default().parse(md).unwrap();
    assert!(plain.elements.iter().all(|e| !matches!(e.element_type, ElementType::Link { .. })));
    let img: Vec<_> = plain.elements.iter().filter(|e| matches!(e.element_type, ElementType::Image { .. })).collect();
    assert_eq!(img.len(), 1);
    assert_eq!(img[0].attributes, vec![("url".to_string(), "a.png".to_string()), ("alt".to_string(), "pic".to_string())]);

    let mut cfg = ParserConfig::default();
    cfg.extract_links = true;
    let with_links = DocumentStructureParser::new(cfg).parse(md).unwrap();
    let links: Vec<_> = with_links.elements.iter().filter(|e| matches!(e.element_type, ElementType::Link { .. })).collect();
    assert_eq!(links.len(), 1);
    assert_eq!(links[0].content, "the site");
    assert_eq!(links[0].attributes, vec![("url".to_string(), "http://x.y".to_string())]);
}

#[test]
fn rule_and_inline_code_elements() {
    let md = "a `x` b\n\n---\n";
    let s = DocumentStructureParser::new_default().parse(md).unwrap();
    let kinds: Vec<_> = s.elements.iter().map(|e| format!("{:?}", e.element_type)).collect();
    assert!(kinds.contains(&"InlineCode".to_string()));
    assert!(kinds.contains(&"Rule".to_string()));
    let rule = s.elements.iter().find(|e| matches!(e.element_type, ElementType::Rule)).unwrap();
    assert_eq!(rule.content, "---");
    assert_eq!(rule.position.1 - rule.position.0, 3);
}

#[test]
fn empty_document() {
    let s = DocumentStructureParser::new_default().parse("").unwrap();
    assert!(s.outline.is_empty());
    assert!(s.elements.is_empty());
    assert_eq!(s.content_length, 0);
}

#[test]
fn text_wider_than_its_source_still_parses() {
    // The entity expands to more bytes than it is written with; without a section ending
    // before it starts, the structure is still given.
    let parser = DocumentStructureParser::new_default();
    let s = parser.parse("&nGt;").unwrap();
    assert_eq!(s.content_length, 5);
    assert!(s.outline.is_empty());
}

#[test]
fn section_ids_from_lowered_titles() {
    let low: Vec<char> = "intro part!".chars().collect();
    let alnum: Vec<bool> = low.iter().map(|c| c.is_alphanumeric()).collect();
    assert_eq!(section_id_from(2, &low, &alnum), "section_2_intro_part_");
}
