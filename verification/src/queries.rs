use vstd::prelude::*;
use crate::document::{DocumentListItem, DocumentListResponse, DocumentQuery};
use crate::md::opt_view;
use crate::text::{append_chars, chars_of, decimal, decimal_chars, join, string_from_chars};

verus! {

broadcast use vstd::string::group_string_axioms;

/// A value bound to a query parameter.
#[derive(Debug, Clone)]
pub enum QueryParam {
    Text(String),
    Number(u64),
    Flag(bool),
}

/// The value of a [`QueryParam`].
pub enum ParamV {
    Text(Seq<char>),
    Number(u64),
    Flag(bool),
}

pub open spec fn param_view(p: QueryParam) -> ParamV {
    match p {
        QueryParam::Text(s) => ParamV::Text(s@),
        QueryParam::Number(n) => ParamV::Number(n),
        QueryParam::Flag(b) => ParamV::Flag(b),
    }
}

/// The names and values of bound parameters.
pub open spec fn params_view(v: Seq<(String, QueryParam)>) -> Seq<(Seq<char>, ParamV)> {
    Seq::new(v.len(), |i: int| (v[i].0@, param_view(v[i].1)))
}

/// Appends the characters of `s` to `v`.
fn push_text(v: &mut Vec<char>, s: &str)
    ensures
        final(v)@ == old(v)@ + s@,
{
    let c = chars_of(s);
    append_chars(v, &c);
}

fn push_param(v: &mut Vec<(String, QueryParam)>, name: &str, value: QueryParam)
    ensures
        params_view(final(v)@) == params_view(old(v)@).push((name@, param_view(value))),
{
    let ghost before = v@;
    let ghost pv = param_view(value);
    v.push((name.to_owned(), value));
    assert(params_view(v@) =~= params_view(before).push((name@, pv)));
}

/// The page, page size and number of skipped rows of a listing (1 and 20 by default).
#[derive(Debug, Clone, Copy, PartialEq, Eq, Structural)]
pub struct PageWindow {
    pub page: u32,
    pub limit: u32,
    pub offset: u32,
}

/// The page and page size asked for, with the defaults.
pub open spec fn page_of(page: Option<u32>) -> u32 {
    match page {
        Some(p) => p,
        None => 1,
    }
}

pub open spec fn limit_of(limit: Option<u32>) -> u32 {
    match limit {
        Some(l) => l,
        None => 20,
    }
}

/// The window of a listing: the page and size asked for (1 and 20 when absent), skipping the
/// rows of the pages before.
pub fn page_window(page: Option<u32>, limit: Option<u32>) -> (r: PageWindow)
    requires
        page_of(page) >= 1,
        (page_of(page) - 1) * limit_of(limit) <= u32::MAX,
    ensures
        r.page == page_of(page),
        r.limit == limit_of(limit),
        r.offset == (page_of(page) - 1) * limit_of(limit),
{
    let p = match page {
        Some(p) => p,
        None => 1,
    };
    let l = match limit {
        Some(l) => l,
        None => 20,
    };
    PageWindow { page: p, limit: l, offset: (p - 1) * l }
}

/// The number of pages of `limit` rows that `total` rows fill.
pub fn total_pages(total: u32, limit: u32) -> (r: u32)
    requires
        limit >= 1,
        total + limit <= u32::MAX,
    ensures
        r == (total + limit - 1) / (limit as int),
{
    (total + limit - 1) / limit
}

/// The second `:`-separated field of a record id (`space:abc` gives `abc`), if there is one.
pub open spec fn record_key(id: Seq<char>) -> Option<Seq<char>> {
    match first_index(id, ':', 0) {
        None => None,
        Some(i) => {
            let rest = id.skip(i + 1);
            match first_index(rest, ':', 0) {
                Some(j) => Some(rest.take(j)),
                None => Some(rest),
            }
        },
    }
}

/// The first index from `from` on where `c` holds `x`.
pub open spec fn first_index(c: Seq<char>, x: char, from: int) -> Option<int>
    decreases c.len() - from,
{
    if from < 0 || from >= c.len() {
        None
    } else if c[from] == x {
        Some(from)
    } else {
        first_index(c, x, from + 1)
    }
}

fn find_char_from(c: &Vec<char>, x: char, from: usize) -> (r: Option<usize>)
    requires
        from <= c.len(),
    ensures
        match r {
            Some(i) => first_index(c@, x, from as int) == Some(i as int) && from <= i < c.len(),
            None => first_index(c@, x, from as int) is None,
        },
    decreases c.len() - from,
{
    if from == c.len() {
        None
    } else if c[from] == x {
        Some(from)
    } else {
        find_char_from(c, x, from + 1)
    }
}

proof fn lemma_first_index_shift(c: Seq<char>, x: char, from: int, k: int)
    requires
        0 <= k <= from <= c.len(),
    ensures
        first_index(c.skip(k), x, from - k) == (match first_index(c, x, from) {
            Some(i) => Some(i - k),
            None => None,
        }),
    decreases c.len() - from,
{
    if from < c.len() {
        assert(c.skip(k)[from - k] == c[from]);
        if c[from] != x {
            lemma_first_index_shift(c, x, from + 1, k);
        }
    }
}

/// The key part of a record id (see [`record_key`]).
pub fn record_key_of(id: &str) -> (r: Option<String>)
    ensures
        opt_view(r) == record_key(id@),
{
    let c = chars_of(id);
    match find_char_from(&c, ':', 0) {
        None => None,
        Some(i) => {
            let rest = crate::text::slice_chars(&c, i + 1, c.len());
            assert(rest@ =~= c@.skip(i + 1));
            proof {
                lemma_first_index_shift(c@, ':', i + 1, i + 1);
                assert(c@.skip(i + 1) =~= rest@);
            }
            match find_char_from(&c, ':', i + 1) {
                Some(j) => {
                    let key = crate::text::slice_chars(&c, i + 1, j);
                    assert(key@ =~= rest@.take(j - (i + 1)));
                    Some(string_from_chars(key.as_slice()))
                },
                None => Some(string_from_chars(rest.as_slice())),
            }
        },
    }
}

/// The conditions on documents listed by `q` in space `space_id`: in the space, not deleted,
/// then the optional search, parent and publication filters.
pub open spec fn document_conditions(q: DocumentQuery) -> Seq<Seq<char>> {
    seq!["space_id = $space_id"@, "is_deleted = false"@] + (if q.search is Some {
        seq!["(title CONTAINS $search OR content CONTAINS $search)"@]
    } else {
        seq![]
    }) + (if q.parent_id is Some {
        seq!["parent_id = $parent_id"@]
    } else {
        seq![]
    }) + (if q.is_published is Some {
        seq!["is_published = $is_published"@]
    } else {
        seq![]
    })
}

/// The parameters of a document listing, in order.
pub open spec fn document_params(space_id: Seq<char>, q: DocumentQuery, w: PageWindow) -> Seq<(Seq<char>, ParamV)> {
    seq![
        ("space_id"@, ParamV::Text("space:"@ + space_id)),
        ("limit"@, ParamV::Number(w.limit as u64)),
        ("offset"@, ParamV::Number(w.offset as u64)),
    ] + (match q.search {
        Some(s) => seq![("search"@, ParamV::Text(s@))],
        None => seq![],
    }) + (match q.parent_id {
        Some(p) => seq![("parent_id"@, ParamV::Text("document:"@ + p@))],
        None => seq![],
    }) + (match q.is_published {
        Some(b) => seq![("is_published"@, ParamV::Flag(b))],
        None => seq![],
    })
}

/// The queries of a document listing.
#[derive(Debug, Clone)]
pub struct DocumentListPlan {
    pub window: PageWindow,
    pub where_clause: String,
    /// The query of one page of documents.
    pub list_query: String,
    /// The query of the number of documents.
    pub count_query: String,
    /// The parameters of the page query; the count query takes them without `limit` and
    /// `offset`.
    pub params: Vec<(String, QueryParam)>,
}

/// The text of the page query around the conditions.
pub open spec fn document_list_text(where_clause: Seq<char>) -> Seq<char> {
    "SELECT id, title, slug, excerpt, is_published, created_at, updated_at, sort_order \n             FROM document \n             WHERE "@
        + where_clause
        + " \n             ORDER BY sort_order ASC, created_at DESC \n             LIMIT $limit START $offset"@
}

fn add_condition(out: &mut Vec<char>, conds: Ghost<Seq<Seq<char>>>, c: &str) -> (r: Ghost<Seq<Seq<char>>>)
    requires
        conds@.len() >= 1,
        old(out)@ == join(conds@, " AND "@),
    ensures
        r@ == conds@.push(c@),
        final(out)@ == join(r@, " AND "@),
{
    push_text(out, " AND ");
    push_text(out, c);
    let ghost n = conds@.push(c@);
    assert(n.drop_last() =~= conds@);
    Ghost(n)
}

/// Plans the listing of documents of space `space_id` for `query`: its window, conditions,
/// queries and parameters.
pub fn plan_document_list(space_id: &str, query: &DocumentQuery) -> (r: DocumentListPlan)
    requires
        page_of(query.page) >= 1,
        (page_of(query.page) - 1) * limit_of(query.limit) <= u32::MAX,
    ensures
        r.window.page == page_of(query.page),
        r.window.limit == limit_of(query.limit),
        r.window.offset == (page_of(query.page) - 1) * limit_of(query.limit),
        r.where_clause@ == join(document_conditions(*query), " AND "@),
        r.list_query@ == document_list_text(r.where_clause@),
        r.count_query@ == "SELECT count() FROM document WHERE "@ + r.where_clause@ + " GROUP ALL"@,
        params_view(r.params@) == document_params(space_id@, *query, r.window),
{
    let window = page_window(query.page, query.limit);
    let mut w: Vec<char> = Vec::new();
    push_text(&mut w, "space_id = $space_id");
    let ghost mut conds: Seq<Seq<char>> = seq!["space_id = $space_id"@];
    assert(join(conds, " AND "@) == "space_id = $space_id"@);
    let g = add_condition(&mut w, Ghost(conds), "is_deleted = false");
    proof {
        conds = g@;
    }
    if query.search.is_some() {
        let g = add_condition(&mut w, Ghost(conds), "(title CONTAINS $search OR content CONTAINS $search)");
        proof {
            conds = g@;
        }
    }
    if query.parent_id.is_some() {
        let g = add_condition(&mut w, Ghost(conds), "parent_id = $parent_id");
        proof {
            conds = g@;
        }
    }
    if query.is_published.is_some() {
        let g = add_condition(&mut w, Ghost(conds), "is_published = $is_published");
        proof {
            conds = g@;
        }
    }
    assert(conds =~= document_conditions(*query));
    let where_clause = string_from_chars(w.as_slice());
    let mut lq: Vec<char> = Vec::new();
    push_text(&mut lq, "SELECT id, title, slug, excerpt, is_published, created_at, updated_at, sort_order \n             FROM document \n             WHERE ");
    append_chars(&mut lq, &w);
    push_text(&mut lq, " \n             ORDER BY sort_order ASC, created_at DESC \n             LIMIT $limit START $offset");
    let mut cq: Vec<char> = Vec::new();
    push_text(&mut cq, "SELECT count() FROM document WHERE ");
    append_chars(&mut cq, &w);
    push_text(&mut cq, " GROUP ALL");
    let mut params: Vec<(String, QueryParam)> = Vec::new();
    let mut sid: Vec<char> = Vec::new();
    push_text(&mut sid, "space:");
    push_text(&mut sid, space_id);
    push_param(&mut params, "space_id", QueryParam::Text(string_from_chars(sid.as_slice())));
    push_param(&mut params, "limit", QueryParam::Number(window.limit as u64));
    push_param(&mut params, "offset", QueryParam::Number(window.offset as u64));
    match &query.search {
        Some(s) => push_param(&mut params, "search", QueryParam::Text(s.as_str().to_owned())),
        None => {},
    }
    match &query.parent_id {
        Some(p) => {
            let mut pid: Vec<char> = Vec::new();
            push_text(&mut pid, "document:");
            push_text(&mut pid, p.as_str());
            push_param(&mut params, "parent_id", QueryParam::Text(string_from_chars(pid.as_slice())));
        },
        None => {},
    }
    match query.is_published {
        Some(b) => push_param(&mut params, "is_published", QueryParam::Flag(b)),
        None => {},
    }
    assert(params_view(params@) =~= document_params(space_id@, *query, window));
    DocumentListPlan {
        window,
        where_clause,
        list_query: string_from_chars(lq.as_slice()),
        count_query: string_from_chars(cq.as_slice()),
        params,
    }
}

/// One page of a document listing, with the number of pages that `total` documents fill.
pub fn document_list_response(documents: Vec<DocumentListItem>, total: u32, window: PageWindow) -> (r: DocumentListResponse)
    requires
        window.limit >= 1,
        total + window.limit <= u32::MAX,
    ensures
        r.documents == documents,
        r.total == total,
        r.page == window.page,
        r.limit == window.limit,
        r.total_pages == (total + window.limit - 1) / (window.limit as int),
{
    let pages = total_pages(total, window.limit);
    DocumentListResponse { documents, total, page: window.page, limit: window.limit, total_pages: pages }
}

/// The parameters of a space listing.
#[derive(Debug, Clone)]
pub struct SpaceListQuery {
    pub page: Option<u32>,
    pub limit: Option<u32>,
    pub search: Option<String>,
    pub owner_id: Option<String>,
    pub is_public: Option<bool>,
    /// The field to sort by (`updated_at` by default).
    pub sort: Option<String>,
    /// `asc` or `desc` (`desc` by default).
    pub order: Option<String>,
}

/// The conditions on the spaces a user (or an anonymous visitor) may list for `q`: public or
/// owned by the user, then the optional search, owner and visibility filters.
pub open spec fn space_conditions(q: SpaceListQuery, signed_in: bool) -> Seq<Seq<char>> {
    seq![
        if signed_in {
            "(is_public = true OR owner_id = $user_id)"@
        } else {
            "is_public = true"@
        },
    ] + (if q.search is Some {
        seq!["(string::lowercase(name) CONTAINS string::lowercase($search) OR string::lowercase(description) CONTAINS string::lowercase($search))"@]
    } else {
        seq![]
    }) + (if q.owner_id is Some {
        seq!["owner_id = $owner_id"@]
    } else {
        seq![]
    }) + (if q.is_public is Some {
        seq!["is_public = $is_public"@]
    } else {
        seq![]
    })
}

/// The parameters of a space listing, in order.
pub open spec fn space_params(q: SpaceListQuery, user_id: Option<Seq<char>>) -> Seq<(Seq<char>, ParamV)> {
    (match user_id {
        Some(u) => seq![("user_id"@, ParamV::Text(u))],
        None => seq![],
    }) + (match q.search {
        Some(s) => seq![("search"@, ParamV::Text(s@))],
        None => seq![],
    }) + (match q.owner_id {
        Some(o) => seq![("owner_id"@, ParamV::Text(o@))],
        None => seq![],
    }) + (match q.is_public {
        Some(b) => seq![("is_public"@, ParamV::Flag(b))],
        None => seq![],
    })
}

/// A string option's text, or a default.
pub open spec fn text_or(o: Option<String>, d: Seq<char>) -> Seq<char> {
    match o {
        Some(s) => s@,
        None => d,
    }
}

/// The queries of a space listing.
#[derive(Debug, Clone)]
pub struct SpaceListPlan {
    pub window: PageWindow,
    /// `WHERE` and the conditions.
    pub where_clause: String,
    /// `ORDER BY`, the field and the direction.
    pub order_clause: String,
    pub count_query: String,
    pub data_query: String,
    pub params: Vec<(String, QueryParam)>,
}

/// Plans the listing of spaces for `query`, by the user `user_id` (`None` for an anonymous
/// visitor).
pub fn plan_space_list(query: &SpaceListQuery, user_id: Option<&str>) -> (r: SpaceListPlan)
    requires
        page_of(query.page) >= 1,
        (page_of(query.page) - 1) * limit_of(query.limit) <= u32::MAX,
    ensures
        r.window.page == page_of(query.page),
        r.window.limit == limit_of(query.limit),
        r.window.offset == (page_of(query.page) - 1) * limit_of(query.limit),
        r.where_clause@ == "WHERE "@ + join(space_conditions(*query, user_id is Some), " AND "@),
        r.order_clause@ == "ORDER BY "@ + text_or(query.sort, "updated_at"@) + " "@ + text_or(
            query.order,
            "desc"@,
        ),
        r.count_query@ == "SELECT count() FROM space "@ + r.where_clause@,
        r.data_query@ == "SELECT * FROM space "@ + r.where_clause@ + " "@ + r.order_clause@
            + " LIMIT "@ + decimal(r.window.limit as nat) + " START "@ + decimal(r.window.offset as nat),
        params_view(r.params@) == space_params(
            *query,
            match user_id {
                Some(u) => Some(u@),
                None => None,
            },
        ),
{
    let window = page_window(query.page, query.limit);
    let mut conds: Vec<char> = Vec::new();
    let ghost mut cs: Seq<Seq<char>>;
    if user_id.is_some() {
        push_text(&mut conds, "(is_public = true OR owner_id = $user_id)");
        proof {
            cs = seq!["(is_public = true OR owner_id = $user_id)"@];
        }
    } else {
        push_text(&mut conds, "is_public = true");
        proof {
            cs = seq!["is_public = true"@];
        }
    }
    assert(conds@ == join(cs, " AND "@));
    if query.search.is_some() {
        let g = add_condition(
            &mut conds,
            Ghost(cs),
            "(string::lowercase(name) CONTAINS string::lowercase($search) OR string::lowercase(description) CONTAINS string::lowercase($search))",
        );
        proof {
            cs = g@;
        }
    }
    if query.owner_id.is_some() {
        let g = add_condition(&mut conds, Ghost(cs), "owner_id = $owner_id");
        proof {
            cs = g@;
        }
    }
    if query.is_public.is_some() {
        let g = add_condition(&mut conds, Ghost(cs), "is_public = $is_public");
        proof {
            cs = g@;
        }
    }
    assert(cs =~= space_conditions(*query, user_id is Some));
    let mut w: Vec<char> = Vec::new();
    push_text(&mut w, "WHERE ");
    append_chars(&mut w, &conds);
    let mut o: Vec<char> = Vec::new();
    push_text(&mut o, "ORDER BY ");
    match &query.sort {
        Some(f) => push_text(&mut o, f.as_str()),
        None => push_text(&mut o, "updated_at"),
    }
    push_text(&mut o, " ");
    match &query.order {
        Some(d) => push_text(&mut o, d.as_str()),
        None => push_text(&mut o, "desc"),
    }
    let mut cq: Vec<char> = Vec::new();
    push_text(&mut cq, "SELECT count() FROM space ");
    append_chars(&mut cq, &w);
    let mut dq: Vec<char> = Vec::new();
    push_text(&mut dq, "SELECT * FROM space ");
    append_chars(&mut dq, &w);
    push_text(&mut dq, " ");
    append_chars(&mut dq, &o);
    push_text(&mut dq, " LIMIT ");
    let l = decimal_chars(window.limit as u64);
    append_chars(&mut dq, &l);
    push_text(&mut dq, " START ");
    let off = decimal_chars(window.offset as u64);
    append_chars(&mut dq, &off);
    let mut params: Vec<(String, QueryParam)> = Vec::new();
    match user_id {
        Some(u) => push_param(&mut params, "user_id", QueryParam::Text(u.to_owned())),
        None => {},
    }
    match &query.search {
        Some(s) => push_param(&mut params, "search", QueryParam::Text(s.as_str().to_owned())),
        None => {},
    }
    match &query.owner_id {
        Some(x) => push_param(&mut params, "owner_id", QueryParam::Text(x.as_str().to_owned())),
        None => {},
    }
    match query.is_public {
        Some(b) => push_param(&mut params, "is_public", QueryParam::Flag(b)),
        None => {},
    }
    let ghost uv = match user_id {
        Some(u) => Some(u@),
        None => None,
    };
    assert(params_view(params@) =~= space_params(*query, uv));
    SpaceListPlan {
        window,
        where_clause: string_from_chars(w.as_slice()),
        order_clause: string_from_chars(o.as_slice()),
        count_query: string_from_chars(cq.as_slice()),
        data_query: string_from_chars(dq.as_slice()),
        params,
    }
}

} // verus!
