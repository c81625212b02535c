use rainbow_docs::document::DocumentQuery;
use rainbow_docs::queries::{
    page_window, plan_document_list, plan_space_list, record_key_of, total_pages, QueryParam, SpaceListQuery,
};

#[test]
fn pages_and_record_keys() {
    let w = page_window(Some(3), Some(10));
    assert_eq!((w.page, w.limit, w.offset), (3, 10, 20));
    let w = page_window(None, None);
    assert_eq!((w.page, w.limit, w.offset), (1, 20, 0));
    assert_eq!(total_pages(0, 20), 0);
    assert_eq!(total_pages(41, 20), 3);
    assert_eq!(record_key_of("space:abc").as_deref(), Some("abc"));
    assert_eq!(record_key_of("space:abc:def").as_deref(), Some("abc"));
    assert_eq!(record_key_of("plain"), None);
}

#[test]
fn document_list_plan() {
    let mut q = DocumentQuery::default();
    q.search = Some("rust".to_string());
    q.is_published = Some(true);
    let plan = plan_document_list("s1", &q);
    assert_eq!(
        plan.where_clause,
        "space_id = $space_id AND is_deleted = false AND (title CONTAINS $search OR content CONTAINS $search) AND is_published = $is_published"
    );
    assert_eq!(plan.count_query, format!("SELECT count() FROM document WHERE {} GROUP ALL", plan.where_clause));
    assert!(plan.list_query.contains("ORDER BY sort_order ASC, created_at DESC"));
    let names: Vec<&str> = plan.params.iter().map(|(n, _)| n.as_str()).collect();
    assert_eq!(names, vec!["space_id", "limit", "offset", "search", "is_published"]);
    assert!(matches!(&plan.params[0].1, QueryParam::Text(t) if t == "space:s1"));
}

#[test]
fn space_list_plan() {
    let q = SpaceListQuery { page: Some(2), limit: Some(5), search: None, owner_id: Some("u9".to_string()), is_public: None, sort: None, order: None };
    let plan = plan_space_list(&q, Some("u1"));
    assert_eq!(plan.where_clause, "WHERE (is_public = true OR owner_id = $user_id) AND owner_id = $owner_id");
    assert_eq!(plan.order_clause, "ORDER BY updated_at desc");
    assert_eq!(plan.data_query, format!("SELECT * FROM space {} ORDER BY updated_at desc LIMIT 5 START 5", plan.where_clause));
    let anon = plan_space_list(&q, None);
    assert_eq!(anon.where_clause, "WHERE is_public = true AND owner_id = $owner_id");
    assert_eq!(anon.params.len(), 1);
}
