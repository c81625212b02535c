use rainbow_docs::doc_tree::build_document_tree;
use rainbow_docs::document::Document;

fn doc(id: &str, parent: Option<&str>) -> Document {
    let mut d = Document::new("space:s".to_string(), format!("Title {}", id), format!("slug-{}", id), "u".to_string());
    d.id = Some(id.to_string());
    d.parent_id = parent.map(|p| p.to_string());
    d
}

#[test]
fn roots_gather_their_children() {
    let docs = vec![doc("a", None), doc("b", Some("document:a")), doc("c", None), doc("d", Some("document:c"))];
    let tree = build_document_tree(&docs, &vec![0, 1, 2, 3]);
    assert_eq!(tree.len(), 2);
    assert_eq!(tree[0].id, "a");
    assert_eq!(tree[0].title, "Title a");
    assert_eq!(tree[0].children.len(), 1);
    assert_eq!(tree[0].children[0].id, "b");
    assert_eq!(tree[0].children[0].slug, "slug-b");
    assert_eq!(tree[1].id, "c");
    assert_eq!(tree[1].children[0].id, "d");
}

#[test]
fn a_root_met_after_its_child_replaces_the_stand_in() {
    let docs = vec![doc("a", None), doc("b", Some("document:a"))];
    let tree = build_document_tree(&docs, &vec![1, 0]);
    assert_eq!(tree.len(), 1);
    assert_eq!(tree[0].id, "a");
    assert!(tree[0].children.is_empty());
}

#[test]
fn children_of_missing_parents_are_dropped() {
    let docs = vec![doc("a", None), doc("b", Some("document:zz")), doc("c", Some("nocolon"))];
    let tree = build_document_tree(&docs, &vec![0, 1, 2]);
    assert_eq!(tree.len(), 1);
    assert_eq!(tree[0].id, "a");
    assert!(tree[0].children.is_empty());
    let mut anonymous = doc("x", None);
    anonymous.id = None;
    assert!(build_document_tree(&vec![anonymous], &vec![0]).is_empty());
}
