use rainbow_docs::document::{
    document_for_creation,    CreateDocumentRequest, Document, DocumentListItem, DocumentQuery, DocumentResponse,
    UpdateDocumentRequest,
};

fn sample() -> Document {
    Document::new(
        "space_123".to_string(),
        "Test Document".to_string(),
        "test-document".to_string(),
        "user_123".to_string(),
    )
}

#[test]
fn test_document_creation() {
    let doc = sample();
    assert_eq!(doc.title, "Test Document");
    assert_eq!(doc.slug, "test-document");
    assert_eq!(doc.space_id, "space_123");
    assert_eq!(doc.author_id, "user_123");
    assert!(!doc.is_published);
}

#[test]
fn test_excerpt_generation() {
    let mut doc = sample();

    doc.excerpt = Some("Custom excerpt".to_string());
    assert_eq!(doc.generate_excerpt(), "Custom excerpt");

    doc.excerpt = None;
    doc.content = "This is a long content that should be truncated when generating an excerpt. ".repeat(10);
    let excerpt = doc.generate_excerpt();
    assert!(excerpt.len() <= 150);
    assert!(excerpt.ends_with("..."));
}

#[test]
fn document_test_reading_time_estimation() {
    let mut doc = sample();
    doc.content = "word ".repeat(400);
    assert_eq!(doc.estimate_reading_time(), 2);
    doc.content = "word ".repeat(100);
    assert_eq!(doc.estimate_reading_time(), 1);
}

#[test]
fn test_document_access_control() {
    let mut doc = sample();
    assert!(doc.can_read(Some("user_123"), true));
    assert!(!doc.can_read(Some("user_456"), true));
    assert!(!doc.can_read(None, true));

    doc.is_published = true;
    assert!(doc.can_read(Some("user_123"), true));
    assert!(doc.can_read(Some("user_456"), true));
    assert!(doc.can_read(None, true));

    assert!(doc.can_read(Some("user_123"), false));
    assert!(doc.can_read(Some("user_456"), false));
    assert!(!doc.can_read(None, false));
}

fn create_request(title: &str, slug: &str) -> CreateDocumentRequest {
    CreateDocumentRequest {
        title: title.to_string(),
        slug: slug.to_string(),
        content: None,
        excerpt: None,
        is_published: None,
        parent_id: None,
        sort_order: None,
        metadata: None,
    }
}

#[test]
fn test_title_length_validation() {
    let long_title = "x".repeat(201);
    let request = create_request(&long_title, "test-doc");
    assert!(request.validate().is_err());
}

#[test]
fn create_request_field_checks() {
    assert!(create_request("Test Document", "test-document").validate().is_ok());
    assert!(create_request("", "test-doc").validate().is_err());
    let e = create_request("Test Document", "Test Document").validate().unwrap_err();
    assert_eq!(e.errors.len(), 1);
    assert_eq!(e.errors[0].field, "slug");
    assert_eq!(e.errors[0].code, "regex");
    assert_eq!(e.errors[0].message, "Slug can only contain lowercase letters, numbers, and hyphens");
    let e = create_request("", "").validate().unwrap_err();
    let codes: Vec<(String, String)> = e.errors.iter().map(|f| (f.field.clone(), f.code.clone())).collect();
    assert_eq!(
        codes,
        vec![
            ("title".to_string(), "length".to_string()),
            ("slug".to_string(), "length".to_string()),
            ("slug".to_string(), "regex".to_string()),
        ]
    );
    // 200 characters, some of them multi-byte, is still a valid title.
    let title = "é".repeat(200);
    assert!(create_request(&title, "ok-1").validate().is_ok());
}

#[test]
fn update_request_checks_title_only_when_present() {
    let mut r = UpdateDocumentRequest {
        title: None,
        content: None,
        excerpt: None,
        is_published: None,
        parent_id: None,
        sort_order: None,
        metadata: None,
    };
    assert!(r.validate().is_ok());
    r.title = Some(String::new());
    assert!(r.validate().is_err());
    r.title = Some("fine".to_string());
    assert!(r.validate().is_ok());
}

#[test]
fn excerpt_drops_headings_and_marks() {
    let mut doc = sample();
    doc.content = "  # Heading\nSome **bold** and `code`\n## Sub\nmore  text\r\n".to_string();
    assert_eq!(doc.generate_excerpt(), "Some bold and code more text");
    doc.content = "   ".to_string();
    assert_eq!(doc.generate_excerpt(), "");
    doc.content = "# only a heading".to_string();
    assert_eq!(doc.generate_excerpt(), "");
}

#[test]
fn excerpt_of_long_text_keeps_147_bytes() {
    let mut doc = sample();
    doc.content = "a".repeat(151);
    let e = doc.generate_excerpt();
    assert_eq!(e, format!("{}...", "a".repeat(147)));
    doc.content = "a".repeat(150);
    assert_eq!(doc.generate_excerpt(), "a".repeat(150));
}

#[test]
fn responses_take_the_document_fields() {
    let mut doc = sample();
    doc.id = Some("doc_1".to_string());
    doc.created_at = Some(5);
    doc.metadata.tags = vec!["t".to_string()];
    let r = DocumentResponse::from_document_at(doc.clone(), 99);
    assert_eq!(r.id, "doc_1");
    assert_eq!(r.created_at, 5);
    assert_eq!(r.updated_at, 99);
    assert!(r.rendered_content.is_none());
    let item = DocumentListItem::from_document_at(doc, 7);
    assert_eq!(item.tags, vec!["t".to_string()]);
    assert_eq!(item.updated_at, 7);
    assert_eq!(item.children_count, 0);
    let anon = DocumentResponse::from_document_at(sample(), 1);
    assert_eq!(anon.id, "");
}

#[test]
fn default_document_query() {
    let q = DocumentQuery::default();
    assert_eq!(q.page, Some(1));
    assert_eq!(q.limit, Some(20));
    assert_eq!(q.sort.as_deref(), Some("sort_order"));
    assert_eq!(q.order.as_deref(), Some("asc"));
    assert!(q.search.is_none());
}

#[test]
fn test_create_document_validation() {
    let request = create_request("", "test-doc");
    assert!(request.validate().is_err());
}

#[test]
fn test_document_slug_validation() {
    let mut valid_request = create_request("Test Document", "test-document");
    valid_request.content = Some("# Test Content".to_string());
    valid_request.is_published = Some(true);
    valid_request.sort_order = Some(1);
    assert!(valid_request.validate().is_ok());
    let invalid_request = create_request("Test Document", "Test Document");
    assert!(invalid_request.validate().is_err());
}

#[test]
fn creation_assembles_the_document() {
    let mut req = CreateDocumentRequest {
        title: "Guide".to_string(),
        slug: "guide".to_string(),
        content: Some("# Guide\n\nText".to_string()),
        excerpt: Some("About the guide".to_string()),
        is_published: None,
        parent_id: Some("p1".to_string()),
        sort_order: None,
        metadata: None,
    };
    let d = document_for_creation("s1", "u1", &req, "Guide Text".to_string(), 1);
    assert_eq!(d.space_id, "space:s1");
    assert_eq!(d.parent_id.as_deref(), Some("document:p1"));
    assert_eq!(d.content, "# Guide\n\nText");
    assert_eq!(d.excerpt.as_deref(), Some("Guide Text"));
    assert_eq!(d.metadata.seo.description.as_deref(), Some("About the guide"));
    assert_eq!(d.metadata.reading_time, Some(1));
    assert!(!d.is_published);
    req.content = None;
    req.parent_id = None;
    let d = document_for_creation("s1", "u1", &req, String::new(), 1);
    assert_eq!(d.content, "");
    assert!(d.parent_id.is_none());
}
