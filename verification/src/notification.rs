use vstd::prelude::*;

verus! {

broadcast use vstd::string::group_string_axioms;

/// What a notification is about.
#[derive(Debug, Clone, Copy, PartialEq, Eq, Structural)]
pub enum NotificationType {
    SpaceInvitation,
    DocumentShared,
    CommentMention,
    DocumentUpdate,
    System,
}

/// The stored name of a notification type.
pub open spec fn notification_type_name(t: NotificationType) -> Seq<char> {
    match t {
        NotificationType::SpaceInvitation => "space_invitation"@,
        NotificationType::DocumentShared => "document_shared"@,
        NotificationType::CommentMention => "comment_mention"@,
        NotificationType::DocumentUpdate => "document_update"@,
        NotificationType::System => "system"@,
    }
}

impl NotificationType {
    /// The stored name of the type.
    pub fn as_str(&self) -> (r: &'static str)
        ensures
            r@ == notification_type_name(*self),
    {
        match self {
            NotificationType::SpaceInvitation => "space_invitation",
            NotificationType::DocumentShared => "document_shared",
            NotificationType::CommentMention => "comment_mention",
            NotificationType::DocumentUpdate => "document_update",
            NotificationType::System => "system",
        }
    }
}

/// A notification for a user. `data` is JSON text; times are milliseconds since the Unix
/// epoch.
#[derive(Debug, Clone)]
pub struct Notification {
    pub id: Option<String>,
    pub user_id: String,
    pub notification_type: NotificationType,
    pub title: String,
    pub content: String,
    pub data: Option<String>,
    pub is_read: bool,
    pub read_at: Option<i64>,
    pub created_at: i64,
    pub updated_at: i64,
}

/// A request to notify a user; `data` is JSON text.
#[derive(Debug, Clone)]
pub struct CreateNotificationRequest {
    pub user_id: String,
    pub notification_type: NotificationType,
    pub title: String,
    pub content: String,
    pub data: Option<String>,
}

/// A request to mark a notification read or unread.
#[derive(Debug, Clone)]
pub struct UpdateNotificationRequest {
    pub is_read: Option<bool>,
}

/// The parameters of a notification list query.
#[derive(Debug, Clone)]
pub struct NotificationListQuery {
    pub page: Option<u32>,
    pub limit: Option<u32>,
    pub unread_only: Option<bool>,
}

} // verus!
