use vstd::prelude::*;
use crate::clock::now_millis;
use crate::document::{id_or_empty, time_or, CustomField};
use crate::md::opt_view;
use crate::text::{contains_str, str_eq, views};
use crate::validation::{
    check, field_errors_view, finish, length_ok, length_within, note, FieldError, ValidationErrors,
};

verus! {

broadcast use vstd::string::group_string_axioms;

/// Extra data of a comment: mentioned user ids, attachment URLs and custom fields.
#[derive(Debug, Clone)]
pub struct CommentMetadata {
    pub mentions: Vec<String>,
    pub attachments: Vec<String>,
    pub custom_fields: Vec<CustomField>,
}

impl Default for CommentMetadata {
    fn default() -> (r: Self)
        ensures
            r.mentions@.len() == 0,
            r.attachments@.len() == 0,
            r.custom_fields@.len() == 0,
    {
        CommentMetadata { mentions: Vec::new(), attachments: Vec::new(), custom_fields: Vec::new() }
    }
}

/// A comment on a document, possibly a reply to another comment. Times are milliseconds since
/// the Unix epoch.
#[derive(Debug, Clone)]
pub struct Comment {
    pub id: Option<String>,
    pub document_id: String,
    /// The comment this one answers.
    pub parent_id: Option<String>,
    pub author_id: String,
    pub content: String,
    pub is_resolved: bool,
    pub metadata: CommentMetadata,
    /// The users who like the comment.
    pub liked_by: Vec<String>,
    pub is_deleted: bool,
    pub deleted_at: Option<i64>,
    pub deleted_by: Option<String>,
    pub created_at: Option<i64>,
    pub updated_at: Option<i64>,
}

/// The likes after `user` likes a comment liked by `likes`: unchanged if already there,
/// else the user is added at the end.
pub open spec fn liked(likes: Seq<Seq<char>>, user: Seq<char>) -> Seq<Seq<char>> {
    if likes.contains(user) {
        likes
    } else {
        likes.push(user)
    }
}

/// `likes` without any occurrence of `user`.
pub open spec fn unliked(likes: Seq<Seq<char>>, user: Seq<char>) -> Seq<Seq<char>>
    decreases likes.len(),
{
    if likes.len() == 0 {
        likes
    } else {
        let rest = unliked(likes.drop_last(), user);
        if likes.last() == user {
            rest
        } else {
            rest.push(likes.last())
        }
    }
}

/// Whether no user occurs twice.
pub open spec fn distinct(likes: Seq<Seq<char>>) -> bool {
    forall|i: int, j: int| 0 <= i < j < likes.len() ==> likes[i] != likes[j]
}

/// Two comments agree on everything but their likes.
pub open spec fn same_but_likes(a: Comment, b: Comment) -> bool {
    &&& a.id == b.id
    &&& a.document_id == b.document_id
    &&& a.parent_id == b.parent_id
    &&& a.author_id == b.author_id
    &&& a.content == b.content
    &&& a.is_resolved == b.is_resolved
    &&& a.metadata == b.metadata
    &&& a.is_deleted == b.is_deleted
    &&& a.deleted_at == b.deleted_at
    &&& a.deleted_by == b.deleted_by
    &&& a.created_at == b.created_at
    &&& a.updated_at == b.updated_at
}

/// Whether a user may edit or delete a comment: its author or a moderator.
pub open spec fn may_change(author: Seq<char>, user: Seq<char>, is_moderator: bool) -> bool {
    author == user || is_moderator
}

impl Comment {
    /// A new top-level comment, unresolved, without likes.
    pub fn new(document_id: String, author_id: String, content: String) -> (r: Self)
        ensures
            r.id is None,
            r.document_id == document_id,
            r.parent_id is None,
            r.author_id == author_id,
            r.content == content,
            !r.is_resolved,
            r.metadata.mentions@.len() == 0,
            r.metadata.attachments@.len() == 0,
            r.metadata.custom_fields@.len() == 0,
            r.liked_by@.len() == 0,
            !r.is_deleted,
            r.deleted_at is None,
            r.deleted_by is None,
            r.created_at is None,
            r.updated_at is None,
    {
        Comment {
            id: None,
            document_id,
            parent_id: None,
            author_id,
            content,
            is_resolved: false,
            metadata: CommentMetadata::default(),
            liked_by: Vec::new(),
            is_deleted: false,
            deleted_at: None,
            deleted_by: None,
            created_at: None,
            updated_at: None,
        }
    }

    /// Whether `user_id` wrote the comment.
    pub fn is_author(&self, user_id: &str) -> (r: bool)
        ensures
            r == (self.author_id@ == user_id@),
    {
        str_eq(self.author_id.as_str(), user_id)
    }

    /// Whether the comment answers another one.
    pub fn is_reply(&self) -> (r: bool)
        ensures
            r == self.parent_id is Some,
    {
        self.parent_id.is_some()
    }

    /// Whether the user may edit the comment.
    pub fn can_edit(&self, user_id: &str, is_moderator: bool) -> (r: bool)
        ensures
            r == may_change(self.author_id@, user_id@, is_moderator),
    {
        self.is_author(user_id) || is_moderator
    }

    /// Whether the user may delete the comment.
    pub fn can_delete(&self, user_id: &str, is_moderator: bool) -> (r: bool)
        ensures
            r == may_change(self.author_id@, user_id@, is_moderator),
    {
        self.is_author(user_id) || is_moderator
    }

    /// The comment as a reply to `parent_id`.
    pub fn with_parent(self, parent_id: String) -> (r: Self)
        ensures
            r.parent_id == Some(parent_id),
            r.id == self.id,
            r.document_id == self.document_id,
            r.author_id == self.author_id,
            r.content == self.content,
            r.is_resolved == self.is_resolved,
            r.metadata == self.metadata,
            r.liked_by == self.liked_by,
            r.is_deleted == self.is_deleted,
            r.deleted_at == self.deleted_at,
            r.deleted_by == self.deleted_by,
            r.created_at == self.created_at,
            r.updated_at == self.updated_at,
    {
        let mut c = self;
        c.parent_id = Some(parent_id);
        c
    }

    /// Replaces the content, stamping the update time `now`. The editor is not recorded.
    pub fn update_content_at(&mut self, content: String, editor_id: String, now: i64)
        ensures
            final(self).content == content,
            final(self).updated_at == Some(now),
            final(self).id == old(self).id,
            final(self).document_id == old(self).document_id,
            final(self).parent_id == old(self).parent_id,
            final(self).author_id == old(self).author_id,
            final(self).is_resolved == old(self).is_resolved,
            final(self).metadata == old(self).metadata,
            final(self).liked_by == old(self).liked_by,
            final(self).is_deleted == old(self).is_deleted,
            final(self).deleted_at == old(self).deleted_at,
            final(self).deleted_by == old(self).deleted_by,
            final(self).created_at == old(self).created_at,
    {
        self.content = content;
        self.updated_at = Some(now);
    }

    /// Replaces the content, stamping the current time as the update time.
    pub fn update_content(&mut self, content: String, editor_id: String)
        ensures
            final(self).content == content,
            final(self).updated_at is Some,
            final(self).id == old(self).id,
            final(self).document_id == old(self).document_id,
            final(self).parent_id == old(self).parent_id,
            final(self).author_id == old(self).author_id,
            final(self).is_resolved == old(self).is_resolved,
            final(self).metadata == old(self).metadata,
            final(self).liked_by == old(self).liked_by,
            final(self).is_deleted == old(self).is_deleted,
            final(self).deleted_at == old(self).deleted_at,
            final(self).deleted_by == old(self).deleted_by,
            final(self).created_at == old(self).created_at,
    {
        let now = now_millis();
        self.update_content_at(content, editor_id, now);
    }

    /// Marks the comment deleted by `deleter_id` at time `now`.
    pub fn soft_delete_at(&mut self, deleter_id: String, now: i64)
        ensures
            final(self).is_deleted,
            final(self).deleted_at == Some(now),
            final(self).deleted_by == Some(deleter_id),
            final(self).id == old(self).id,
            final(self).document_id == old(self).document_id,
            final(self).parent_id == old(self).parent_id,
            final(self).author_id == old(self).author_id,
            final(self).content == old(self).content,
            final(self).is_resolved == old(self).is_resolved,
            final(self).metadata == old(self).metadata,
            final(self).liked_by == old(self).liked_by,
            final(self).created_at == old(self).created_at,
            final(self).updated_at == old(self).updated_at,
    {
        self.is_deleted = true;
        self.deleted_at = Some(now);
        self.deleted_by = Some(deleter_id);
    }

    /// Marks the comment deleted by `deleter_id` at the current time.
    pub fn soft_delete(&mut self, deleter_id: String)
        ensures
            final(self).is_deleted,
            final(self).deleted_at is Some,
            final(self).deleted_by == Some(deleter_id),
            final(self).id == old(self).id,
            final(self).document_id == old(self).document_id,
            final(self).parent_id == old(self).parent_id,
            final(self).author_id == old(self).author_id,
            final(self).content == old(self).content,
            final(self).is_resolved == old(self).is_resolved,
            final(self).metadata == old(self).metadata,
            final(self).liked_by == old(self).liked_by,
            final(self).created_at == old(self).created_at,
            final(self).updated_at == old(self).updated_at,
    {
        let now = now_millis();
        self.soft_delete_at(deleter_id, now);
    }

    /// Records that `user_id` likes the comment; a second like changes nothing.
    pub fn like(&mut self, user_id: String)
        ensures
            views(final(self).liked_by@) == liked(views(old(self).liked_by@), user_id@),
            same_but_likes(*final(self), *old(self)),
    {
        if !contains_str(&self.liked_by, user_id.as_str()) {
            let ghost before = self.liked_by@;
            let ghost u = user_id@;
            self.liked_by.push(user_id);
            assert(views(self.liked_by@) =~= views(before).push(u));
        }
    }

    /// Removes every like of `user_id`.
    pub fn unlike(&mut self, user_id: String)
        ensures
            views(final(self).liked_by@) == unliked(views(old(self).liked_by@), user_id@),
            same_but_likes(*final(self), *old(self)),
    {
        let ghost old_likes = views(self.liked_by@);
        let mut kept: Vec<String> = Vec::new();
        let mut i: usize = 0;
        assert(old_likes.take(0) =~= Seq::<Seq<char>>::empty());
        while i < self.liked_by.len()
            invariant
                i <= self.liked_by.len(),
                old_likes == views(self.liked_by@),
                views(kept@) == unliked(old_likes.take(i as int), user_id@),
            decreases self.liked_by.len() - i,
        {
            assert(old_likes.take(i + 1).drop_last() =~= old_likes.take(i as int));
            assert(old_likes.take(i + 1).last() == self.liked_by@[i as int]@);
            if !str_eq(self.liked_by[i].as_str(), user_id.as_str()) {
                let ghost before = kept@;
                let s = self.liked_by[i].clone();
                kept.push(s);
                assert(views(kept@) =~= views(before).push(self.liked_by@[i as int]@));
            }
            i += 1;
        }
        assert(old_likes.take(self.liked_by.len() as int) =~= old_likes);
        self.liked_by = kept;
    }

    /// Whether `user_id` likes the comment.
    pub fn is_liked_by(&self, user_id: &str) -> (r: bool)
        ensures
            r == views(self.liked_by@).contains(user_id@),
    {
        contains_str(&self.liked_by, user_id)
    }

    /// The number of likes.
    pub fn like_count(&self) -> (r: usize)
        ensures
            r == self.liked_by@.len(),
    {
        self.liked_by.len()
    }
}

/// Liking twice is liking once.
pub proof fn law_like_idempotent(likes: Seq<Seq<char>>, user: Seq<char>)
    ensures
        liked(liked(likes, user), user) == liked(likes, user),
{
    if !likes.contains(user) {
        assert(likes.push(user)[likes.len() as int] == user);
    }
}

/// After a like, the user likes the comment.
pub proof fn law_like_marks(likes: Seq<Seq<char>>, user: Seq<char>)
    ensures
        liked(likes, user).contains(user),
{
    if !likes.contains(user) {
        assert(likes.push(user)[likes.len() as int] == user);
    }
}

/// Whatever remains after an unlike was there before.
proof fn lemma_unliked_sub(likes: Seq<Seq<char>>, user: Seq<char>, x: Seq<char>)
    requires
        unliked(likes, user).contains(x),
    ensures
        likes.contains(x),
        x != user,
    decreases likes.len(),
{
    let rest = unliked(likes.drop_last(), user);
    if likes.len() > 0 {
        if likes.last() != user && x == likes.last() {
            assert(likes[likes.len() - 1] == x);
        } else {
            if likes.last() != user {
                let i = choose|i: int| 0 <= i < rest.push(likes.last()).len() && rest.push(likes.last())[i] == x;
                assert(rest[i] == x);
            }
            lemma_unliked_sub(likes.drop_last(), user, x);
            let j = choose|j: int| 0 <= j < likes.drop_last().len() && likes.drop_last()[j] == x;
            assert(likes[j] == x);
        }
    }
}

/// After an unlike, the user no longer likes the comment.
pub proof fn law_unlike_clears(likes: Seq<Seq<char>>, user: Seq<char>)
    ensures
        !unliked(likes, user).contains(user),
{
    if unliked(likes, user).contains(user) {
        lemma_unliked_sub(likes, user, user);
    }
}

/// Unliking a user who does not like the comment changes nothing.
proof fn lemma_unliked_absent(likes: Seq<Seq<char>>, user: Seq<char>)
    requires
        !likes.contains(user),
    ensures
        unliked(likes, user) == likes,
    decreases likes.len(),
{
    if likes.len() > 0 {
        assert(!likes.drop_last().contains(user)) by {
            if likes.drop_last().contains(user) {
                let j = choose|j: int| 0 <= j < likes.drop_last().len() && likes.drop_last()[j] == user;
                assert(likes[j] == user);
            }
        }
        lemma_unliked_absent(likes.drop_last(), user);
        assert(likes[likes.len() - 1] != user);
        assert(likes.drop_last().push(likes.last()) =~= likes);
    }
}

/// A like undone by an unlike gives back the likes, for a user who had not liked the comment.
pub proof fn law_unlike_undoes_like(likes: Seq<Seq<char>>, user: Seq<char>)
    requires
        !likes.contains(user),
    ensures
        unliked(liked(likes, user), user) == likes,
{
    let l = likes.push(user);
    assert(l.drop_last() =~= likes);
    lemma_unliked_absent(likes, user);
}

/// Liking and unliking keep the likes free of duplicates.
pub proof fn law_likes_stay_distinct(likes: Seq<Seq<char>>, user: Seq<char>)
    requires
        distinct(likes),
    ensures
        distinct(liked(likes, user)),
        distinct(unliked(likes, user)),
    decreases likes.len(),
{
    if !likes.contains(user) {
        let l = likes.push(user);
        assert forall|i: int, j: int| 0 <= i < j < l.len() implies l[i] != l[j] by {
            if j == likes.len() {
                assert(likes[i] == l[i]);
            }
        }
    }
    if likes.len() > 0 {
        let d = likes.drop_last();
        assert(distinct(d)) by {
            assert forall|i: int, j: int| 0 <= i < j < d.len() implies d[i] != d[j] by {
                assert(d[i] == likes[i] && d[j] == likes[j]);
            }
        }
        law_likes_stay_distinct(d, user);
        let rest = unliked(d, user);
        if likes.last() != user {
            let r = rest.push(likes.last());
            assert forall|i: int, j: int| 0 <= i < j < r.len() implies r[i] != r[j] by {
                if j == rest.len() && r[i] == r[j] {
                    assert(rest.contains(likes.last())) by {
                        assert(rest[i] == likes.last());
                    }
                    lemma_unliked_sub(d, user, likes.last());
                    let k = choose|k: int| 0 <= k < d.len() && d[k] == likes.last();
                    assert(likes[k] == likes[likes.len() - 1]);
                }
            }
        }
    }
}

/// A request to comment on a document.
#[derive(Debug, Clone)]
pub struct CreateCommentRequest {
    /// 1 to 2000 characters.
    pub content: String,
    /// The comment this one answers.
    pub parent_id: Option<String>,
    pub metadata: Option<CommentMetadata>,
}

/// The failed checks of a comment's content.
pub open spec fn content_errors(content: Option<Seq<char>>) -> Seq<(Seq<char>, Seq<char>, Seq<char>)> {
    check(
        match content {
            Some(c) => length_within(c, 1, 2000),
            None => true,
        },
        "content"@,
        "length"@,
        "Content must be between 1 and 2000 characters"@,
    )
}

impl CreateCommentRequest {
    /// Checks the request's fields.
    pub fn validate(&self) -> (r: Result<(), ValidationErrors>)
        ensures
            r is Ok <==> length_within(self.content@, 1, 2000),
            r matches Err(e) ==> field_errors_view(e.errors@) == content_errors(Some(self.content@)),
    {
        let mut errors: Vec<FieldError> = Vec::new();
        let ok = length_ok(self.content.as_str(), 1, 2000);
        note(&mut errors, ok, "content", "length", "Content must be between 1 and 2000 characters");
        assert(field_errors_view(errors@) =~= content_errors(Some(self.content@)));
        finish(errors)
    }
}

/// A request to change a comment; absent fields stay as they are.
#[derive(Debug, Clone)]
pub struct UpdateCommentRequest {
    /// 1 to 2000 characters when present.
    pub content: Option<String>,
    pub is_resolved: Option<bool>,
    pub metadata: Option<CommentMetadata>,
}

impl UpdateCommentRequest {
    /// Checks the request's fields.
    pub fn validate(&self) -> (r: Result<(), ValidationErrors>)
        ensures
            r is Ok <==> content_errors(opt_view(self.content)).len() == 0,
            r matches Err(e) ==> field_errors_view(e.errors@) == content_errors(opt_view(self.content)),
    {
        let mut errors: Vec<FieldError> = Vec::new();
        let ok = match &self.content {
            Some(c) => length_ok(c.as_str(), 1, 2000),
            None => true,
        };
        note(&mut errors, ok, "content", "length", "Content must be between 1 and 2000 characters");
        assert(field_errors_view(errors@) =~= content_errors(opt_view(self.content)));
        finish(errors)
    }
}

/// The author of a comment, as shown next to it.
#[derive(Debug, Clone)]
pub struct CommentAuthor {
    pub id: String,
    pub email: String,
    pub display_name: Option<String>,
    pub avatar_url: Option<String>,
}

/// A comment as answered to clients. Times are milliseconds since the Unix epoch.
#[derive(Debug)]
pub struct CommentResponse {
    pub id: String,
    pub document_id: String,
    pub parent_id: Option<String>,
    pub author_id: String,
    pub author_info: Option<CommentAuthor>,
    pub content: String,
    pub is_resolved: bool,
    pub metadata: CommentMetadata,
    pub created_at: i64,
    pub updated_at: i64,
    pub replies: Option<Vec<CommentResponse>>,
    /// Whether the asking user may edit it; filled in by the caller, false here.
    pub can_edit: bool,
    /// Whether the asking user may delete it; filled in by the caller, false here.
    pub can_delete: bool,
}

impl CommentResponse {
    /// The answer for a comment, `now` standing in for a missing time.
    pub fn from_comment_at(comment: Comment, now: i64) -> (r: Self)
        ensures
            r.id@ == id_or_empty(comment.id),
            r.document_id == comment.document_id,
            r.parent_id == comment.parent_id,
            r.author_id == comment.author_id,
            r.author_info is None,
            r.content == comment.content,
            r.is_resolved == comment.is_resolved,
            r.metadata == comment.metadata,
            r.created_at == time_or(comment.created_at, now),
            r.updated_at == time_or(comment.updated_at, now),
            r.replies is None,
            !r.can_edit,
            !r.can_delete,
    {
        CommentResponse {
            id: match comment.id {
                Some(i) => i,
                None => String::new(),
            },
            document_id: comment.document_id,
            parent_id: comment.parent_id,
            author_id: comment.author_id,
            author_info: None,
            content: comment.content,
            is_resolved: comment.is_resolved,
            metadata: comment.metadata,
            created_at: match comment.created_at {
                Some(t) => t,
                None => now,
            },
            updated_at: match comment.updated_at {
                Some(t) => t,
                None => now,
            },
            replies: None,
            can_edit: false,
            can_delete: false,
        }
    }

    /// The answer for a comment, the current time standing in for a missing time.
    pub fn from_comment(comment: Comment) -> (r: Self)
        ensures
            r.id@ == id_or_empty(comment.id),
            r.document_id == comment.document_id,
            r.parent_id == comment.parent_id,
            r.author_id == comment.author_id,
            r.content == comment.content,
            comment.created_at matches Some(t) ==> r.created_at == t,
            comment.updated_at matches Some(t) ==> r.updated_at == t,
            r.replies is None,
            !r.can_edit,
            !r.can_delete,
    {
        let now = now_millis();
        Self::from_comment_at(comment, now)
    }
}

/// One page of comments.
#[derive(Debug)]
pub struct CommentListResponse {
    pub comments: Vec<CommentResponse>,
    pub total: u32,
    pub page: u32,
    pub limit: u32,
    pub total_pages: u32,
}

/// The parameters of a comment list query.
#[derive(Debug, Clone)]
pub struct CommentQuery {
    pub page: Option<u32>,
    pub limit: Option<u32>,
    /// Only the replies to this comment.
    pub parent_id: Option<String>,
    pub author_id: Option<String>,
    pub is_resolved: Option<bool>,
    /// `created_at` or `updated_at`.
    pub sort: Option<String>,
    /// `asc` or `desc`.
    pub order: Option<String>,
}

impl Default for CommentQuery {
    fn default() -> (r: Self)
        ensures
            r.page == Some(1u32),
            r.limit == Some(20u32),
            r.parent_id is None,
            r.author_id is None,
            r.is_resolved is None,
            r.sort matches Some(s) && s@ == "created_at"@,
            r.order matches Some(o) && o@ == "asc"@,
    {
        CommentQuery {
            page: Some(1),
            limit: Some(20),
            parent_id: None,
            author_id: None,
            is_resolved: None,
            sort: Some("created_at".to_owned()),
            order: Some("asc".to_owned()),
        }
    }
}

} // verus!
