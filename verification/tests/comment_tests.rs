use rainbow_docs::comment::{Comment, CommentQuery, CommentResponse, CreateCommentRequest, UpdateCommentRequest};

#[test]
fn test_comment_creation() {
    let comment = Comment::new(
        "doc123".to_string(),
        "user456".to_string(),
        "This is a comment".to_string(),
    );
    assert_eq!(comment.document_id, "doc123");
    assert_eq!(comment.author_id, "user456");
    assert_eq!(comment.content, "This is a comment");
    assert!(!comment.is_resolved);
    assert!(!comment.is_reply());
}

#[test]
fn test_comment_permissions() {
    let comment = Comment::new(
        "doc123".to_string(),
        "user456".to_string(),
        "Test comment".to_string(),
    );
    assert!(comment.can_edit("user456", false));
    assert!(comment.can_delete("user456", false));
    assert!(!comment.can_edit("user789", false));
    assert!(!comment.can_delete("user789", false));
    assert!(comment.can_edit("user789", true));
    assert!(comment.can_delete("user789", true));
}

#[test]
fn test_create_comment_validation() {
    let valid_request = CreateCommentRequest {
        content: "This is a valid comment".to_string(),
        parent_id: None,
        metadata: None,
    };
    assert!(valid_request.validate().is_ok());

    let invalid_request = CreateCommentRequest { content: "".to_string(), parent_id: None, metadata: None };
    assert!(invalid_request.validate().is_err());

    let too_long_request = CreateCommentRequest { content: "x".repeat(2001), parent_id: None, metadata: None };
    assert!(too_long_request.validate().is_err());
}

#[test]
fn likes_are_counted_once_and_removed() {
    let mut c = Comment::new("d".to_string(), "a".to_string(), "hi".to_string());
    c.like("u1".to_string());
    c.like("u2".to_string());
    c.like("u1".to_string());
    assert_eq!(c.like_count(), 2);
    assert!(c.is_liked_by("u1"));
    assert_eq!(c.liked_by, vec!["u1".to_string(), "u2".to_string()]);
    c.unlike("u1".to_string());
    assert!(!c.is_liked_by("u1"));
    assert_eq!(c.like_count(), 1);
    c.unlike("nobody".to_string());
    assert_eq!(c.liked_by, vec!["u2".to_string()]);
}

#[test]
fn replies_edits_and_deletion() {
    let c = Comment::new("d".to_string(), "a".to_string(), "hi".to_string()).with_parent("p1".to_string());
    assert!(c.is_reply());
    assert_eq!(c.parent_id.as_deref(), Some("p1"));
    let mut c = c;
    c.update_content_at("edited".to_string(), "a".to_string(), 42);
    assert_eq!(c.content, "edited");
    assert_eq!(c.updated_at, Some(42));
    c.soft_delete_at("mod".to_string(), 43);
    assert!(c.is_deleted);
    assert_eq!(c.deleted_at, Some(43));
    assert_eq!(c.deleted_by.as_deref(), Some("mod"));
    c.update_content("again".to_string(), "a".to_string());
    assert!(c.updated_at.is_some());
}

#[test]
fn update_request_and_response() {
    let ok = UpdateCommentRequest { content: None, is_resolved: Some(true), metadata: None };
    assert!(ok.validate().is_ok());
    let bad = UpdateCommentRequest { content: Some("x".repeat(2001)), is_resolved: None, metadata: None };
    let e = bad.validate().unwrap_err();
    assert_eq!(e.errors[0].field, "content");
    let c = Comment::new("d".to_string(), "a".to_string(), "hi".to_string());
    let r = CommentResponse::from_comment_at(c, 10);
    assert_eq!(r.id, "");
    assert_eq!(r.created_at, 10);
    assert!(!r.can_edit && !r.can_delete);
    let q = CommentQuery::default();
    assert_eq!(q.sort.as_deref(), Some("created_at"));
    assert_eq!(q.order.as_deref(), Some("asc"));
    assert_eq!(q.page, Some(1));
}
