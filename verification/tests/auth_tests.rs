use rainbow_docs::auth::{require_permission, require_role, 
    can_admin_document, can_manage_space, can_read_document, can_write_document, require_admin,
    DocumentPermission, User,
};
use rainbow_docs::error::AppError;

fn user(id: &str, email: &str, roles: &[&str], permissions: &[&str]) -> User {
    User {
        id: id.to_string(),
        email: email.to_string(),
        roles: roles.iter().map(|s| s.to_string()).collect(),
        permissions: permissions.iter().map(|s| s.to_string()).collect(),
        profile: None,
    }
}

#[test]
fn test_document_permission_includes() {
    assert!(DocumentPermission::Admin.includes(&DocumentPermission::Read));
    assert!(DocumentPermission::Admin.includes(&DocumentPermission::Write));
    assert!(DocumentPermission::Admin.includes(&DocumentPermission::Admin));

    assert!(DocumentPermission::Write.includes(&DocumentPermission::Read));
    assert!(DocumentPermission::Write.includes(&DocumentPermission::Write));
    assert!(!DocumentPermission::Write.includes(&DocumentPermission::Admin));

    assert!(DocumentPermission::Read.includes(&DocumentPermission::Read));
    assert!(!DocumentPermission::Read.includes(&DocumentPermission::Write));
    assert!(!DocumentPermission::Read.includes(&DocumentPermission::Admin));
}

#[test]
fn test_permission_functions() {
    let admin_user = user("admin_1", "admin@example.com", &["admin"], &["docs.admin"]);
    let writer_user = user("writer_1", "writer@example.com", &["writer"], &["docs.read", "docs.write"]);
    let reader_user = user("reader_1", "reader@example.com", &["user"], &["docs.read"]);

    assert!(can_read_document(&admin_user));
    assert!(can_write_document(&admin_user));
    assert!(can_admin_document(&admin_user));

    assert!(can_read_document(&writer_user));
    assert!(can_write_document(&writer_user));
    assert!(!can_admin_document(&writer_user));

    assert!(can_read_document(&reader_user));
    assert!(!can_write_document(&reader_user));
    assert!(!can_admin_document(&reader_user));
}

#[test]
fn require_admin_accepts_role_or_permission() {
    assert!(require_admin(&user("a", "a@x", &["admin"], &[])).is_ok());
    assert!(require_admin(&user("b", "b@x", &[], &["docs.admin"])).is_ok());
    match require_admin(&user("c", "c@x", &["user"], &["docs.write"])) {
        Err(AppError::Authorization(m)) => assert_eq!(m, "Admin permission required"),
        other => panic!("unexpected {:?}", other),
    }
}

#[test]
fn manage_space_owner_or_admin() {
    let owner = user("owner_1", "o@x", &[], &["docs.read"]);
    assert!(can_manage_space(&owner, "owner_1"));
    assert!(!can_manage_space(&owner, "someone_else"));
    let admin = user("adm", "adm@x", &[], &["docs.admin"]);
    assert!(can_manage_space(&admin, "someone_else"));
}

#[test]
fn permission_names_round_trip() {
    for p in [DocumentPermission::Read, DocumentPermission::Write, DocumentPermission::Admin] {
        assert_eq!(DocumentPermission::from_string(p.to_string()), Some(p));
    }
    assert_eq!(DocumentPermission::from_string("owner"), None);
    assert_eq!(DocumentPermission::Write.to_string(), "write");
}

#[test]
fn error_status_and_messages() {
    assert_eq!(AppError::not_found("x".to_string()).status_code(), 404);
    assert_eq!(AppError::Database("boom".to_string()).public_message(), "Database error occurred");
    assert_eq!(AppError::conflict("dup".to_string()).public_message(), "dup");
    assert_eq!(AppError::Http("x".to_string()).status_code(), 502);
}

#[test]
fn request_gates_by_permission_and_role() {
    let u = User {
        id: "u".to_string(),
        email: "u@example.com".to_string(),
        roles: vec!["writer".to_string()],
        permissions: vec!["docs.write".to_string()],
        profile: None,
    };
    assert!(require_permission(Some(&u), "docs.write").is_ok());
    match require_permission(Some(&u), "docs.admin") {
        Err(AppError::Authorization(m)) => assert_eq!(m, "Permission docs.admin required"),
        _ => panic!("expected a refusal"),
    }
    match require_permission(None, "docs.read") {
        Err(AppError::Authentication(m)) => assert_eq!(m, "User not authenticated"),
        _ => panic!("expected a refusal"),
    }
    assert!(require_role(Some(&u), "writer").is_ok());
    match require_role(Some(&u), "admin") {
        Err(AppError::Authorization(m)) => assert_eq!(m, "Role admin required"),
        _ => panic!("expected a refusal"),
    }
}

#[test]
fn error_bodies_name_type_message_and_details() {
    let b = AppError::NotFound("Document not found".to_string()).response_body();
    assert_eq!(b.error, "not_found");
    assert_eq!(b.message, "Document not found");
    assert!(b.details.is_none());
    let b = AppError::Internal("disk on fire".to_string()).response_body();
    assert_eq!(b.error, "internal");
    assert_eq!(b.message, "Internal server error");
    assert!(b.details.is_none());
    let b = AppError::ValidationErrors("title: length".to_string()).response_body();
    assert_eq!(b.error, "validation_errors");
    assert_eq!(b.message, "Validation failed");
    assert_eq!(b.details.as_deref(), Some("title: length"));
}
