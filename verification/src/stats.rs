use vstd::prelude::*;

verus! {

broadcast use vstd::string::group_string_axioms;

/// A frequently searched term and how often it was searched.
#[derive(Debug, Clone)]
pub struct SearchTerm {
    pub term: String,
    pub count: i64,
}

/// A recent search: the query, its number of results and when it ran (RFC 3339 text).
#[derive(Debug, Clone)]
pub struct RecentSearch {
    pub query: String,
    pub results_count: i64,
    pub timestamp: String,
}

/// Figures on searching.
#[derive(Debug, Clone)]
pub struct SearchStats {
    pub total_documents: i64,
    pub total_searches_today: i64,
    pub most_searched_terms: Vec<SearchTerm>,
    pub recent_searches: Vec<RecentSearch>,
}

/// How active a space is.
#[derive(Debug, Clone)]
pub struct SpaceActivity {
    pub space_id: String,
    pub space_name: String,
    pub document_count: i64,
    pub recent_activity: i64,
}

/// Figures on documents.
#[derive(Debug, Clone)]
pub struct DocumentStats {
    pub total_documents: i64,
    pub total_spaces: i64,
    pub total_comments: i64,
    pub documents_created_today: i64,
    pub most_active_spaces: Vec<SpaceActivity>,
}

pub open spec fn terms_view(v: Seq<SearchTerm>) -> Seq<(Seq<char>, i64)> {
    Seq::new(v.len(), |i: int| (v[i].term@, v[i].count))
}

pub open spec fn recent_view(v: Seq<RecentSearch>) -> Seq<(Seq<char>, i64, Seq<char>)> {
    Seq::new(v.len(), |i: int| (v[i].query@, v[i].results_count, v[i].timestamp@))
}

pub open spec fn activity_view(v: Seq<SpaceActivity>) -> Seq<(Seq<char>, Seq<char>, i64, i64)> {
    Seq::new(v.len(), |i: int| (v[i].space_id@, v[i].space_name@, v[i].document_count, v[i].recent_activity))
}

/// The search figures the statistics page shows; they are fixed sample figures, not counted
/// from stored data.
pub fn search_stats_report() -> (r: SearchStats)
    ensures
        r.total_documents == 156,
        r.total_searches_today == 42,
        terms_view(r.most_searched_terms@) == seq![
            ("API documentation"@, 15i64),
            ("authentication"@, 12i64),
            ("database"@, 8i64),
        ],
        recent_view(r.recent_searches@) == seq![
            ("user management"@, 7i64, "2024-01-15T10:30:00Z"@),
            ("deployment guide"@, 3i64, "2024-01-15T10:25:00Z"@),
        ],
{
    let terms = vec![
        SearchTerm { term: "API documentation".to_owned(), count: 15 },
        SearchTerm { term: "authentication".to_owned(), count: 12 },
        SearchTerm { term: "database".to_owned(), count: 8 },
    ];
    let recent = vec![
        RecentSearch {
            query: "user management".to_owned(),
            results_count: 7,
            timestamp: "2024-01-15T10:30:00Z".to_owned(),
        },
        RecentSearch {
            query: "deployment guide".to_owned(),
            results_count: 3,
            timestamp: "2024-01-15T10:25:00Z".to_owned(),
        },
    ];
    assert(terms_view(terms@) =~= seq![
        ("API documentation"@, 15i64),
        ("authentication"@, 12i64),
        ("database"@, 8i64),
    ]);
    assert(recent_view(recent@) =~= seq![
        ("user management"@, 7i64, "2024-01-15T10:30:00Z"@),
        ("deployment guide"@, 3i64, "2024-01-15T10:25:00Z"@),
    ]);
    SearchStats {
        total_documents: 156,
        total_searches_today: 42,
        most_searched_terms: terms,
        recent_searches: recent,
    }
}

/// The document figures the statistics page shows; they are fixed sample figures, not counted
/// from stored data.
pub fn document_stats_report() -> (r: DocumentStats)
    ensures
        r.total_documents == 156,
        r.total_spaces == 12,
        r.total_comments == 89,
        r.documents_created_today == 3,
        activity_view(r.most_active_spaces@) == seq![
            ("space_1"@, "API Documentation"@, 45i64, 12i64),
            ("space_2"@, "User Guides"@, 32i64, 8i64),
        ],
{
    let spaces = vec![
        SpaceActivity {
            space_id: "space_1".to_owned(),
            space_name: "API Documentation".to_owned(),
            document_count: 45,
            recent_activity: 12,
        },
        SpaceActivity {
            space_id: "space_2".to_owned(),
            space_name: "User Guides".to_owned(),
            document_count: 32,
            recent_activity: 8,
        },
    ];
    assert(activity_view(spaces@) =~= seq![
        ("space_1"@, "API Documentation"@, 45i64, 12i64),
        ("space_2"@, "User Guides"@, 32i64, 8i64),
    ]);
    DocumentStats {
        total_documents: 156,
        total_spaces: 12,
        total_comments: 89,
        documents_created_today: 3,
        most_active_spaces: spaces,
    }
}

} // verus!
