use vstd::prelude::*;
use crate::document::{Document, DocumentTreeNode};
use crate::queries::{record_key, record_key_of};
use crate::text::{copy_string, str_eq};

verus! {

broadcast use vstd::string::group_string_axioms;

/// What a tree node shows of a document: id, title, slug, publication, sort order.
pub type NodeHead = (Seq<char>, Seq<char>, Seq<char>, bool, i32);

/// The head of a node.
pub open spec fn head_of(n: DocumentTreeNode) -> NodeHead {
    (n.id@, n.title@, n.slug@, n.is_published, n.sort_order)
}

/// The heads of nodes, in order.
pub open spec fn heads(v: Seq<DocumentTreeNode>) -> Seq<NodeHead> {
    Seq::new(v.len(), |i: int| head_of(v[i]))
}

/// A node of a space's tree: its head and those of its children.
pub open spec fn node_view(n: DocumentTreeNode) -> (NodeHead, Seq<NodeHead>) {
    (head_of(n), heads(n.children@))
}

/// The nodes of a tree, each with the heads of its children.
pub open spec fn nodes_view(v: Seq<DocumentTreeNode>) -> Seq<(NodeHead, Seq<NodeHead>)> {
    Seq::new(v.len(), |i: int| node_view(v[i]))
}

/// Whether no child of a node has children of its own.
pub open spec fn flat_children(n: DocumentTreeNode) -> bool {
    forall|i: int| 0 <= i < n.children@.len() ==> (#[trigger] n.children@[i]).children@.len() == 0
}

/// The head of the node made for a document with an id.
pub open spec fn doc_head(d: Document) -> NodeHead {
    (d.id->0@, d.title@, d.slug@, d.is_published, d.sort_order)
}

/// The stand-in for a parent that was not met (yet): titled `Unknown`.
pub open spec fn placeholder(key: Seq<char>) -> NodeHead {
    (key, "Unknown"@, "unknown"@, false, 0)
}

/// The nodes by id, once a document has been placed: a document without a parent becomes a
/// node of its own (replacing any node of that id, with its children); one with a parent
/// joins the children of the node keyed by the parent reference's second field, made as a
/// stand-in when missing. A document without an id, or whose parent reference has no second
/// field, changes nothing.
pub open spec fn place(m: Map<Seq<char>, (NodeHead, Seq<NodeHead>)>, d: Document) -> Map<Seq<char>, (NodeHead, Seq<NodeHead>)> {
    if d.id is None {
        m
    } else {
        match d.parent_id {
            None => m.insert(d.id->0@, (doc_head(d), seq![])),
            Some(p) => match record_key(p@) {
                None => m,
                Some(k) => if m.dom().contains(k) {
                    m.insert(k, (m[k].0, m[k].1.push(doc_head(d))))
                } else {
                    m.insert(k, (placeholder(k), seq![doc_head(d)]))
                },
            },
        }
    }
}

/// The nodes by id once the documents at the positions of `walk` are placed in that order
/// (positions out of range are passed over).
pub open spec fn placed(docs: Seq<Document>, walk: Seq<usize>) -> Map<Seq<char>, (NodeHead, Seq<NodeHead>)>
    decreases walk.len(),
{
    if walk.len() == 0 {
        Map::empty()
    } else {
        let m = placed(docs, walk.drop_last());
        if walk.last() < docs.len() {
            place(m, docs[walk.last() as int])
        } else {
            m
        }
    }
}

/// The ids of the documents with an id and no parent, in list order.
pub open spec fn root_ids(docs: Seq<Document>) -> Seq<Seq<char>>
    decreases docs.len(),
{
    if docs.len() == 0 {
        seq![]
    } else {
        let d = docs.last();
        if d.id is Some && d.parent_id is None {
            root_ids(docs.drop_last()).push(d.id->0@)
        } else {
            root_ids(docs.drop_last())
        }
    }
}

/// Taking the roots out of the nodes in order: each id present yields its node, which leaves
/// the map; an id not present (any more) yields nothing.
pub open spec fn take_roots(m: Map<Seq<char>, (NodeHead, Seq<NodeHead>)>, ids: Seq<Seq<char>>) -> (Map<Seq<char>, (NodeHead, Seq<NodeHead>)>, Seq<(NodeHead, Seq<NodeHead>)>)
    decreases ids.len(),
{
    if ids.len() == 0 {
        (m, seq![])
    } else {
        let st = take_roots(m, ids.drop_last());
        let r = ids.last();
        if st.0.dom().contains(r) {
            (st.0.remove(r), st.1.push(st.0[r]))
        } else {
            st
        }
    }
}

/// The tree of a space's documents when the grouping pass walks them in the order `walk`.
pub open spec fn document_tree(docs: Seq<Document>, walk: Seq<usize>) -> Seq<(NodeHead, Seq<NodeHead>)> {
    take_roots(placed(docs, walk), root_ids(docs)).1
}

/// The nodes held in a list of (id, node) pairs, later pairs winning.
pub open spec fn table_view(v: Seq<(String, DocumentTreeNode)>) -> Map<Seq<char>, (NodeHead, Seq<NodeHead>)>
    decreases v.len(),
{
    if v.len() == 0 {
        Map::empty()
    } else {
        table_view(v.drop_last()).insert(v.last().0@, node_view(v.last().1))
    }
}

/// Whether the ids of a list of pairs are distinct and every node's children are leaves.
pub open spec fn table_ok(v: Seq<(String, DocumentTreeNode)>) -> bool {
    &&& forall|i: int, j: int| 0 <= i < j < v.len() ==> (#[trigger] v[i]).0@ != (#[trigger] v[j]).0@
    &&& forall|i: int| 0 <= i < v.len() ==> flat_children(#[trigger] v[i].1)
}

proof fn lemma_table_lookup(v: Seq<(String, DocumentTreeNode)>, i: int)
    requires
        table_ok(v),
        0 <= i < v.len(),
    ensures
        table_view(v).dom().contains(v[i].0@),
        table_view(v)[v[i].0@] == node_view(v[i].1),
    decreases v.len(),
{
    if i < v.len() - 1 {
        lemma_table_lookup(v.drop_last(), i);
        assert(v.drop_last()[i] == v[i]);
        assert(v[i].0@ != v[v.len() - 1].0@);
    }
}

proof fn lemma_table_absent(v: Seq<(String, DocumentTreeNode)>, k: Seq<char>)
    requires
        forall|i: int| 0 <= i < v.len() ==> (#[trigger] v[i]).0@ != k,
    ensures
        !table_view(v).dom().contains(k),
    decreases v.len(),
{
    if v.len() > 0 {
        lemma_table_absent(v.drop_last(), k);
        assert(v[v.len() - 1].0@ != k);
    }
}

proof fn lemma_table_update(v: Seq<(String, DocumentTreeNode)>, i: int, n: DocumentTreeNode)
    requires
        table_ok(v),
        0 <= i < v.len(),
    ensures
        table_view(v.update(i, (v[i].0, n))) =~= table_view(v).insert(v[i].0@, node_view(n)),
    decreases v.len(),
{
    let w = v.update(i, (v[i].0, n));
    if i == v.len() - 1 {
        assert(w.drop_last() =~= v.drop_last());
        assert forall|j: int| 0 <= j < v.drop_last().len() implies (#[trigger] v.drop_last()[j]).0@ != v[i].0@ by {
            assert(v.drop_last()[j] == v[j]);
        }
        lemma_table_absent(v.drop_last(), v[i].0@);
    } else {
        lemma_table_update(v.drop_last(), i, n);
        assert(w.drop_last() =~= v.drop_last().update(i, (v[i].0, n)));
        assert(v[i].0@ != v[v.len() - 1].0@);
    }
}

proof fn lemma_table_remove(v: Seq<(String, DocumentTreeNode)>, i: int)
    requires
        table_ok(v),
        0 <= i < v.len(),
    ensures
        table_view(v.remove(i)) =~= table_view(v).remove(v[i].0@),
    decreases v.len(),
{
    if i == v.len() - 1 {
        assert(v.remove(i) =~= v.drop_last());
        assert forall|j: int| 0 <= j < v.drop_last().len() implies (#[trigger] v.drop_last()[j]).0@ != v[i].0@ by {
            assert(v.drop_last()[j] == v[j]);
        }
        lemma_table_absent(v.drop_last(), v[i].0@);
    } else {
        lemma_table_remove(v.drop_last(), i);
        assert(v.remove(i).drop_last() =~= v.drop_last().remove(i));
        assert(v.remove(i).last() == v.last());
        assert(v[i].0@ != v[v.len() - 1].0@);
    }
}

/// The position of the pair with id `key`, if any.
fn table_find(v: &Vec<(String, DocumentTreeNode)>, key: &str) -> (r: Option<usize>)
    ensures
        match r {
            Some(i) => i < v@.len() && v@[i as int].0@ == key@,
            None => forall|i: int| 0 <= i < v@.len() ==> (#[trigger] v@[i]).0@ != key@,
        },
{
    let mut i: usize = 0;
    while i < v.len()
        invariant
            i <= v@.len(),
            forall|j: int| 0 <= j < i ==> (#[trigger] v@[j]).0@ != key@,
        decreases v.len() - i,
    {
        if str_eq(v[i].0.as_str(), key) {
            return Some(i);
        }
        i += 1;
    }
    None
}

/// The node made for a document with an id, without children.
fn node_of(d: &Document, id: &String) -> (r: DocumentTreeNode)
    requires
        d.id == Some(*id),
    ensures
        head_of(r) == doc_head(*d),
        r.children@.len() == 0,
{
    DocumentTreeNode {
        id: copy_string(id),
        title: copy_string(&d.title),
        slug: copy_string(&d.slug),
        is_published: d.is_published,
        sort_order: d.sort_order,
        children: Vec::new(),
    }
}

/// Places one document into the table (see [`place`]).
fn place_into(table: &mut Vec<(String, DocumentTreeNode)>, d: &Document)
    requires
        table_ok(old(table)@),
    ensures
        table_ok(final(table)@),
        table_view(final(table)@) == place(table_view(old(table)@), *d),
{
    let ghost m = table_view(table@);
    let id = match &d.id {
        None => return,
        Some(id) => id,
    };
    match &d.parent_id {
        None => {
            let node = node_of(d, id);
            match table_find(table, id.as_str()) {
                Some(i) => {
                    let ghost before = table@;
                    let (key, _replaced) = table.remove(i);
                    table.insert(i, (key, node));
                    proof {
                        lemma_table_update(before, i as int, node);
                        assert(table@ =~= before.update(i as int, (before[i as int].0, node)));
                        assert(node_view(node).1 =~= Seq::<NodeHead>::empty());
                        assert forall|a: int, b: int| 0 <= a < b < table@.len() implies (#[trigger] table@[a]).0@ != (#[trigger] table@[b]).0@ by {
                            assert(before[a].0@ != before[b].0@);
                        }
                    }
                },
                None => {
                    let ghost before = table@;
                    let key = copy_string(id);
                    table.push((key, node));
                    proof {
                        assert(table@.drop_last() =~= before);
                        assert(node_view(node).1 =~= Seq::<NodeHead>::empty());
                        assert forall|a: int, b: int| 0 <= a < b < table@.len() implies (#[trigger] table@[a]).0@ != (#[trigger] table@[b]).0@ by {
                            if b < before.len() {
                                assert(before[a].0@ != before[b].0@);
                            }
                        }
                    }
                },
            }
        },
        Some(p) => {
            let key = match record_key_of(p.as_str()) {
                None => return,
                Some(k) => k,
            };
            let leaf = node_of(d, id);
            match table_find(table, key.as_str()) {
                Some(i) => {
                    let ghost before = table@;
                    proof {
                        lemma_table_lookup(before, i as int);
                    }
                    let (k, mut parent) = table.remove(i);
                    let ghost old_parent = parent;
                    parent.children.push(leaf);
                    table.insert(i, (k, parent));
                    proof {
                        assert(table@ =~= before.update(i as int, (before[i as int].0, parent)));
                        lemma_table_update(before, i as int, parent);
                        assert(heads(parent.children@) =~= heads(old_parent.children@).push(head_of(leaf)));
                        assert forall|a: int, b: int| 0 <= a < b < table@.len() implies (#[trigger] table@[a]).0@ != (#[trigger] table@[b]).0@ by {
                            assert(before[a].0@ != before[b].0@);
                        }
                        assert forall|a: int| 0 <= a < table@.len() implies flat_children(#[trigger] table@[a].1) by {
                            if a != i {
                                assert(table@[a] == before[a]);
                            } else {
                                assert(flat_children(before[i as int].1));
                                assert forall|c: int| 0 <= c < parent.children@.len() implies (#[trigger] parent.children@[c]).children@.len() == 0 by {
                                    if c < old_parent.children@.len() {
                                        assert(parent.children@[c] == old_parent.children@[c]);
                                    }
                                }
                            }
                        }
                    }
                },
                None => {
                    let ghost before = table@;
                    proof {
                        lemma_table_absent(before, key@);
                    }
                    let mut children: Vec<DocumentTreeNode> = Vec::new();
                    children.push(leaf);
                    let stand_in = DocumentTreeNode {
                        id: copy_string(&key),
                        title: "Unknown".to_owned(),
                        slug: "unknown".to_owned(),
                        is_published: false,
                        sort_order: 0,
                        children,
                    };
                    table.push((key, stand_in));
                    proof {
                        reveal_strlit("Unknown");
                        reveal_strlit("unknown");
                        assert(table@.drop_last() =~= before);
                        assert(heads(stand_in.children@) =~= seq![doc_head(*d)]);
                        assert(node_view(stand_in) == (placeholder(key@), seq![doc_head(*d)]));
                        assert forall|a: int, b: int| 0 <= a < b < table@.len() implies (#[trigger] table@[a]).0@ != (#[trigger] table@[b]).0@ by {
                            if b < before.len() {
                                assert(before[a].0@ != before[b].0@);
                            }
                        }
                    }
                },
            }
        },
    }
}

/// Builds the tree of a space's documents, listed by sort order then creation: the documents
/// without a parent are the roots, in list order, and each document with a parent joins the
/// children of the node its parent reference names (see [`place`]). The grouping pass visits
/// the documents at the positions of `walk`, in that order, which is the order in which a
/// hash map keyed by id hands them out; the tree is stated for every such order.
pub fn build_document_tree(docs: &Vec<Document>, walk: &Vec<usize>) -> (r: Vec<DocumentTreeNode>)
    ensures
        nodes_view(r@) == document_tree(docs@, walk@),
        forall|i: int| 0 <= i < r@.len() ==> flat_children(#[trigger] r@[i]),
{
    let mut table: Vec<(String, DocumentTreeNode)> = Vec::new();
    let mut k: usize = 0;
    assert(walk@.take(0) =~= Seq::<usize>::empty());
    while k < walk.len()
        invariant
            k <= walk@.len(),
            table_ok(table@),
            table_view(table@) == placed(docs@, walk@.take(k as int)),
        decreases walk.len() - k,
    {
        assert(walk@.take(k + 1).drop_last() =~= walk@.take(k as int));
        assert(walk@.take(k + 1).last() == walk@[k as int]);
        let w = walk[k];
        if w < docs.len() {
            place_into(&mut table, &docs[w]);
        }
        k += 1;
    }
    assert(walk@.take(walk@.len() as int) =~= walk@);
    let ghost m0 = table_view(table@);
    let mut result: Vec<DocumentTreeNode> = Vec::new();
    let mut j: usize = 0;
    assert(docs@.take(0) =~= Seq::<Document>::empty());
    while j < docs.len()
        invariant
            j <= docs@.len(),
            m0 == placed(docs@, walk@),
            table_ok(table@),
            table_view(table@) == take_roots(m0, root_ids(docs@.take(j as int))).0,
            nodes_view(result@) == take_roots(m0, root_ids(docs@.take(j as int))).1,
            forall|i: int| 0 <= i < result@.len() ==> flat_children(#[trigger] result@[i]),
        decreases docs.len() - j,
    {
        assert(docs@.take(j + 1).drop_last() =~= docs@.take(j as int));
        assert(docs@.take(j + 1).last() == docs@[j as int]);
        let d = &docs[j];
        if d.parent_id.is_none() {
            if let Some(id) = &d.id {
                let ghost ids = root_ids(docs@.take(j + 1));
                assert(ids.drop_last() == root_ids(docs@.take(j as int)));
                assert(ids.last() == id@);
                match table_find(&table, id.as_str()) {
                    Some(i) => {
                        let ghost before = table@;
                        let ghost before_result = result@;
                        proof {
                            lemma_table_lookup(before, i as int);
                            lemma_table_remove(before, i as int);
                        }
                        let (_, node) = table.remove(i);
                        result.push(node);
                        proof {
                            assert(nodes_view(result@) =~= nodes_view(before_result).push(node_view(node)));
                            assert forall|a: int, b: int| 0 <= a < b < table@.len() implies (#[trigger] table@[a]).0@ != (#[trigger] table@[b]).0@ by {
                                let a2 = if a < i { a } else { a + 1 };
                                let b2 = if b < i { b } else { b + 1 };
                                assert(table@[a] == before[a2]);
                                assert(table@[b] == before[b2]);
                                assert(before[a2].0@ != before[b2].0@);
                            }
                            assert forall|a: int| 0 <= a < table@.len() implies flat_children(#[trigger] table@[a].1) by {
                                let a2 = if a < i { a } else { a + 1 };
                                assert(table@[a] == before[a2]);
                            }
                            assert(flat_children(before[i as int].1));
                        }
                    },
                    None => {
                        proof {
                            lemma_table_absent(table@, id@);
                        }
                    },
                }
            }
        }
        j += 1;
    }
    assert(docs@.take(docs@.len() as int) =~= docs@);
    result
}

/// Whether every node of a map is filed under its own id.
pub open spec fn filed_by_id(m: Map<Seq<char>, (NodeHead, Seq<NodeHead>)>) -> bool {
    forall|k: Seq<char>| #[trigger] m.dom().contains(k) ==> m[k].0.0 == k
}

proof fn lemma_placed_filed(docs: Seq<Document>, walk: Seq<usize>)
    ensures
        filed_by_id(placed(docs, walk)),
    decreases walk.len(),
{
    if walk.len() > 0 {
        lemma_placed_filed(docs, walk.drop_last());
    }
}

proof fn lemma_take_roots(m: Map<Seq<char>, (NodeHead, Seq<NodeHead>)>, ids: Seq<Seq<char>>)
    requires
        filed_by_id(m),
    ensures
        ({
            let st = take_roots(m, ids);
            &&& forall|k: Seq<char>| #[trigger] st.0.dom().contains(k) ==> m.dom().contains(k) && st.0[k] == m[k]
            &&& forall|i: int| 0 <= i < st.1.len() ==> !st.0.dom().contains((#[trigger] st.1[i]).0.0)
            &&& forall|i: int, j: int| 0 <= i < j < st.1.len() ==> (#[trigger] st.1[i]).0.0 != (#[trigger] st.1[j]).0.0
        }),
    decreases ids.len(),
{
    if ids.len() > 0 {
        lemma_take_roots(m, ids.drop_last());
        let st = take_roots(m, ids.drop_last());
        let r = ids.last();
        if st.0.dom().contains(r) {
            assert(st.0[r].0.0 == r);
            let out = st.1.push(st.0[r]);
            assert forall|i: int, j: int| 0 <= i < j < out.len() implies (#[trigger] out[i]).0.0 != (#[trigger] out[j]).0.0 by {
                if j == st.1.len() {
                    assert(!st.0.dom().contains(st.1[i].0.0));
                }
            }
        }
    }
}

/// Every document heads the tree at most once: the roots of a space's tree have distinct ids,
/// whatever order the grouping pass walks the documents in.
pub proof fn law_tree_roots_distinct(docs: Seq<Document>, walk: Seq<usize>)
    ensures
        forall|i: int, j: int|
            0 <= i < j < document_tree(docs, walk).len() ==> (#[trigger] document_tree(docs, walk)[i]).0.0 != (#[trigger] document_tree(docs, walk)[j]).0.0,
{
    lemma_placed_filed(docs, walk);
    lemma_take_roots(placed(docs, walk), root_ids(docs));
}

} // verus!
