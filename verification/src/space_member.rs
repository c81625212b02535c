use vstd::prelude::*;
use crate::auth::User;
use crate::error::AppError;
use crate::text::{chars_of, concat_str, contains_str, copy_string, slice_chars, str_eq,
    string_from_chars, trim, trim_bounds, views};
use crate::md::opt_view;
use crate::structure_parser::copy_opt;
use crate::validation::{
    check, email_is_valid, field_errors_view, finish, note, valid_email, FieldError,
    ValidationErrors,
};

verus! {

broadcast use vstd::string::group_string_axioms;

/// The role of a member in a space.
#[derive(Debug, Clone, Copy, PartialEq, Eq, Structural)]
pub enum MemberRole {
    Owner,
    Admin,
    Editor,
    Viewer,
    Member,
}

/// The state of a membership.
#[derive(Debug, Clone, Copy, PartialEq, Eq, Structural)]
pub enum MemberStatus {
    Pending,
    Accepted,
    Rejected,
    Removed,
}

impl Default for MemberRole {
    fn default() -> (r: Self)
        ensures
            r == MemberRole::Member,
    {
        MemberRole::Member
    }
}

impl Default for MemberStatus {
    fn default() -> (r: Self)
        ensures
            r == MemberStatus::Pending,
    {
        MemberStatus::Pending
    }
}

/// The permissions that come with a role, in order.
pub open spec fn role_permissions(role: MemberRole) -> Seq<Seq<char>> {
    match role {
        MemberRole::Owner => seq![
            "docs.read"@, "docs.write"@, "docs.delete"@, "docs.admin"@, "space.admin"@,
            "space.delete"@, "members.invite"@, "members.remove"@, "members.manage"@,
        ],
        MemberRole::Admin => seq![
            "docs.read"@, "docs.write"@, "docs.delete"@, "docs.admin"@, "members.invite"@,
            "members.manage"@,
        ],
        MemberRole::Editor => seq!["docs.read"@, "docs.write"@],
        MemberRole::Viewer => seq!["docs.read"@],
        MemberRole::Member => seq!["docs.read"@, "docs.write"@],
    }
}

/// The stored name of a role.
pub open spec fn role_name(role: MemberRole) -> Seq<char> {
    match role {
        MemberRole::Owner => "owner"@,
        MemberRole::Admin => "admin"@,
        MemberRole::Editor => "editor"@,
        MemberRole::Viewer => "viewer"@,
        MemberRole::Member => "member"@,
    }
}

/// The role stored under `name`; an unknown name counts as a plain member.
pub open spec fn role_from_name(name: Seq<char>) -> MemberRole {
    if name == "owner"@ {
        MemberRole::Owner
    } else if name == "admin"@ {
        MemberRole::Admin
    } else if name == "editor"@ {
        MemberRole::Editor
    } else if name == "viewer"@ {
        MemberRole::Viewer
    } else {
        MemberRole::Member
    }
}

fn push_str(v: &mut Vec<String>, s: &str)
    ensures
        views(final(v)@) == views(old(v)@).push(s@),
{
    let ghost before = v@;
    v.push(s.to_owned());
    assert(views(v@) =~= views(before).push(s@));
}

impl MemberRole {
    /// The permissions that come with the role.
    pub fn default_permissions(&self) -> (r: Vec<String>)
        ensures
            views(r@) == role_permissions(*self),
    {
        let mut v: Vec<String> = Vec::new();
        match self {
            MemberRole::Owner => {
                push_str(&mut v, "docs.read");
                push_str(&mut v, "docs.write");
                push_str(&mut v, "docs.delete");
                push_str(&mut v, "docs.admin");
                push_str(&mut v, "space.admin");
                push_str(&mut v, "space.delete");
                push_str(&mut v, "members.invite");
                push_str(&mut v, "members.remove");
                push_str(&mut v, "members.manage");
            },
            MemberRole::Admin => {
                push_str(&mut v, "docs.read");
                push_str(&mut v, "docs.write");
                push_str(&mut v, "docs.delete");
                push_str(&mut v, "docs.admin");
                push_str(&mut v, "members.invite");
                push_str(&mut v, "members.manage");
            },
            MemberRole::Editor => {
                push_str(&mut v, "docs.read");
                push_str(&mut v, "docs.write");
            },
            MemberRole::Viewer => {
                push_str(&mut v, "docs.read");
            },
            MemberRole::Member => {
                push_str(&mut v, "docs.read");
                push_str(&mut v, "docs.write");
            },
        }
        assert(views(v@) =~= role_permissions(*self));
        v
    }

    /// Whether the role grants `permission`.
    pub fn can_perform(&self, permission: &str) -> (r: bool)
        ensures
            r == role_permissions(*self).contains(permission@),
    {
        let perms = self.default_permissions();
        contains_str(&perms, permission)
    }

    /// The stored name of the role.
    pub fn as_str(&self) -> (r: &'static str)
        ensures
            r@ == role_name(*self),
    {
        match self {
            MemberRole::Owner => "owner",
            MemberRole::Admin => "admin",
            MemberRole::Editor => "editor",
            MemberRole::Viewer => "viewer",
            MemberRole::Member => "member",
        }
    }

    /// The role stored under `name`; an unknown name counts as a plain member.
    pub fn from_name(name: &str) -> (r: Self)
        ensures
            r == role_from_name(name@),
    {
        if str_eq(name, "owner") {
            MemberRole::Owner
        } else if str_eq(name, "admin") {
            MemberRole::Admin
        } else if str_eq(name, "editor") {
            MemberRole::Editor
        } else if str_eq(name, "viewer") {
            MemberRole::Viewer
        } else {
            MemberRole::Member
        }
    }
}

/// Roles are ordered by what they grant: an owner has every permission of an admin, an admin
/// every permission of an editor, an editor every permission of a viewer; a plain member has
/// exactly the permissions of an editor; every role may read documents.
pub proof fn law_role_permissions_nested(p: Seq<char>)
    ensures
        role_permissions(MemberRole::Admin).contains(p) ==> role_permissions(MemberRole::Owner).contains(p),
        role_permissions(MemberRole::Editor).contains(p) ==> role_permissions(MemberRole::Admin).contains(p),
        role_permissions(MemberRole::Viewer).contains(p) ==> role_permissions(MemberRole::Editor).contains(p),
        role_permissions(MemberRole::Member).contains(p) <==> role_permissions(MemberRole::Editor).contains(p),
        forall|r: MemberRole| role_permissions(r).contains("docs.read"@),
{
    let o = role_permissions(MemberRole::Owner);
    let a = role_permissions(MemberRole::Admin);
    let e = role_permissions(MemberRole::Editor);
    let v = role_permissions(MemberRole::Viewer);
    if a.contains(p) {
        let i = choose|i: int| 0 <= i < a.len() && a[i] == p;
        if i <= 3 {
            assert(o[i] == p);
        } else if i == 4 {
            assert(o[6] == p);
        } else {
            assert(o[8] == p);
        }
    }
    if e.contains(p) {
        let i = choose|i: int| 0 <= i < e.len() && e[i] == p;
        assert(a[i] == p);
    }
    if v.contains(p) {
        let i = choose|i: int| 0 <= i < v.len() && v[i] == p;
        assert(e[i] == p);
    }
    assert forall|r: MemberRole| role_permissions(r).contains("docs.read"@) by {
        assert(role_permissions(r)[0] == "docs.read"@);
    }
}

/// What each role grants: an owner may read, write, delete and administer documents,
/// administer and delete the space, and invite, remove and manage members (nine permissions);
/// an admin may read, write, delete and administer documents and invite and manage members
/// (six); an editor and a plain member may read and write documents; a viewer may only read.
pub proof fn law_role_grants(r: MemberRole, p: Seq<char>)
    ensures
        r == MemberRole::Owner ==> role_permissions(r).len() == 9 && (role_permissions(r).contains(p) <==> (p == "docs.read"@
            || p == "docs.write"@ || p == "docs.delete"@ || p == "docs.admin"@ || p == "space.admin"@
            || p == "space.delete"@ || p == "members.invite"@ || p == "members.remove"@ || p == "members.manage"@)),
        r == MemberRole::Admin ==> role_permissions(r).len() == 6 && (role_permissions(r).contains(p) <==> (p == "docs.read"@
            || p == "docs.write"@ || p == "docs.delete"@ || p == "docs.admin"@ || p == "members.invite"@
            || p == "members.manage"@)),
        r == MemberRole::Editor || r == MemberRole::Member ==> role_permissions(r).len() == 2
            && (role_permissions(r).contains(p) <==> (p == "docs.read"@ || p == "docs.write"@)),
        r == MemberRole::Viewer ==> role_permissions(r).len() == 1 && (role_permissions(r).contains(p) <==> p == "docs.read"@),
{
    let o = role_permissions(r);
    if o.contains(p) {
        let i = choose|i: int| 0 <= i < o.len() && o[i] == p;
        assert(o[i] == p);
    }
    if r == MemberRole::Owner {
        assert(o[0] == "docs.read"@ && o[1] == "docs.write"@ && o[2] == "docs.delete"@ && o[3] == "docs.admin"@);
        assert(o[4] == "space.admin"@ && o[5] == "space.delete"@ && o[6] == "members.invite"@);
        assert(o[7] == "members.remove"@ && o[8] == "members.manage"@);
    } else if r == MemberRole::Admin {
        assert(o[0] == "docs.read"@ && o[1] == "docs.write"@ && o[2] == "docs.delete"@ && o[3] == "docs.admin"@);
        assert(o[4] == "members.invite"@ && o[5] == "members.manage"@);
    } else if r == MemberRole::Viewer {
        assert(o[0] == "docs.read"@);
    } else {
        assert(o[0] == "docs.read"@ && o[1] == "docs.write"@);
    }
}

/// Reading back the stored name of a role gives the role.
pub proof fn law_role_name_roundtrip(r: MemberRole)
    ensures
        role_from_name(role_name(r)) == r,
{
    reveal_strlit("owner");
    reveal_strlit("admin");
    reveal_strlit("editor");
    reveal_strlit("viewer");
    reveal_strlit("member");
    assert("owner"@[0] != "admin"@[0]);
    assert("owner"@[0] != "editor"@[0]);
    assert("owner"@[0] != "viewer"@[0]);
    assert("admin"@[0] != "editor"@[0]);
    assert("admin"@[0] != "viewer"@[0]);
    assert("editor"@[0] != "viewer"@[0]);
    assert("owner"@ != "admin"@);
    assert("owner"@ != "editor"@);
    assert("owner"@ != "viewer"@);
    assert("admin"@ != "editor"@);
    assert("admin"@ != "viewer"@);
    assert("editor"@ != "viewer"@);
}

/// A member of a space. Times are milliseconds since the Unix epoch.
#[derive(Debug, Clone)]
pub struct SpaceMember {
    pub id: Option<String>,
    pub space_id: String,
    pub user_id: String,
    pub role: MemberRole,
    pub permissions: Vec<String>,
    pub invited_by: String,
    pub invited_at: i64,
    pub accepted_at: Option<i64>,
    pub status: MemberStatus,
    pub expires_at: Option<i64>,
    pub created_at: i64,
    pub updated_at: i64,
}

/// A pending invitation to a space. Times are milliseconds since the Unix epoch.
#[derive(Debug, Clone)]
pub struct SpaceInvitation {
    pub id: Option<String>,
    pub space_id: String,
    pub email: Option<String>,
    pub user_id: Option<String>,
    pub invite_token: String,
    pub role: MemberRole,
    pub permissions: Vec<String>,
    pub invited_by: String,
    pub message: Option<String>,
    pub max_uses: u32,
    pub used_count: u32,
    pub expires_at: i64,
    pub created_at: i64,
    pub updated_at: i64,
}

/// A member as answered to clients.
#[derive(Debug, Clone)]
pub struct SpaceMemberResponse {
    pub id: String,
    pub space_id: String,
    pub user_id: String,
    pub role: MemberRole,
    pub permissions: Vec<String>,
    pub status: MemberStatus,
    pub invited_at: i64,
    pub accepted_at: Option<i64>,
    pub created_at: i64,
    pub updated_at: i64,
}

impl SpaceMemberResponse {
    /// The answer for a member; a member without id gets the empty id.
    pub fn from_member(member: SpaceMember) -> (r: Self)
        ensures
            r.id@ == (match member.id {
                Some(i) => i@,
                None => Seq::<char>::empty(),
            }),
            r.space_id == member.space_id,
            r.user_id == member.user_id,
            r.role == member.role,
            r.permissions == member.permissions,
            r.status == member.status,
            r.invited_at == member.invited_at,
            r.accepted_at == member.accepted_at,
            r.created_at == member.created_at,
            r.updated_at == member.updated_at,
    {
        SpaceMemberResponse {
            id: match member.id {
                Some(i) => i,
                None => String::new(),
            },
            space_id: member.space_id,
            user_id: member.user_id,
            role: member.role,
            permissions: member.permissions,
            status: member.status,
            invited_at: member.invited_at,
            accepted_at: member.accepted_at,
            created_at: member.created_at,
            updated_at: member.updated_at,
        }
    }
}

/// A request to invite someone, by e-mail or by user id.
#[derive(Debug, Clone)]
pub struct InviteMemberRequest {
    pub email: Option<String>,
    pub user_id: Option<String>,
    pub role: MemberRole,
    pub message: Option<String>,
    /// Days until the invitation expires, 1 to 365 (7 when absent).
    pub expires_in_days: Option<u32>,
}

/// The failed checks of an invitation request: a malformed e-mail, a validity outside 1 to
/// 365 days.
pub open spec fn invite_errors(r: InviteMemberRequest) -> Seq<(Seq<char>, Seq<char>, Seq<char>)> {
    check(
        match r.email {
            Some(e) => valid_email(e@),
            None => true,
        },
        "email"@,
        "email"@,
        "Invalid email format"@,
    ) + check(
        match r.expires_in_days {
            Some(d) => 1 <= d <= 365,
            None => true,
        },
        "expires_in_days"@,
        "range"@,
        "Expiration days must be between 1 and 365"@,
    )
}

impl InviteMemberRequest {
    /// Checks the request's fields.
    pub fn validate(&self) -> (r: Result<(), ValidationErrors>)
        ensures
            r is Ok <==> invite_errors(*self).len() == 0,
            r matches Err(e) ==> field_errors_view(e.errors@) == invite_errors(*self),
    {
        let mut errors: Vec<FieldError> = Vec::new();
        let email_ok = match &self.email {
            Some(e) => email_is_valid(e.as_str()),
            None => true,
        };
        note(&mut errors, email_ok, "email", "email", "Invalid email format");
        let days_ok = match self.expires_in_days {
            Some(d) => 1 <= d && d <= 365,
            None => true,
        };
        note(&mut errors, days_ok, "expires_in_days", "range", "Expiration days must be between 1 and 365");
        assert(field_errors_view(errors@) =~= invite_errors(*self));
        finish(errors)
    }

    /// Days until the invitation expires: the requested number, 7 by default.
    pub fn expiry_days(&self) -> (r: u32)
        ensures
            r == match self.expires_in_days {
                Some(d) => d,
                None => 7u32,
            },
    {
        match self.expires_in_days {
            Some(d) => d,
            None => 7,
        }
    }
}

/// A request to change a member's role or permissions.
#[derive(Debug, Clone)]
pub struct UpdateMemberRequest {
    pub role: Option<MemberRole>,
    pub permissions: Option<Vec<String>>,
}

impl UpdateMemberRequest {
    /// The request has no field checks; it always passes.
    pub fn validate(&self) -> (r: Result<(), ValidationErrors>)
        ensures
            r is Ok,
    {
        Ok(())
    }
}

/// A request to accept an invitation.
#[derive(Debug, Clone)]
pub struct AcceptInvitationRequest {
    pub invite_token: String,
}

pub open spec fn starts_with(s: Seq<char>, p: Seq<char>) -> bool {
    p.len() <= s.len() && s.take(p.len() as int) == p
}

/// A user id as stored: trimmed, without a leading `user:` (trimmed again after it).
pub open spec fn clean_user_id(u: Seq<char>) -> Seq<char> {
    let t = trim(u);
    if starts_with(t, "user:"@) {
        trim(t.skip(5))
    } else {
        t
    }
}

/// A space id without a leading `space:`.
pub open spec fn plain_space_id(s: Seq<char>) -> Seq<char> {
    if starts_with(s, "space:"@) {
        s.skip(6)
    } else {
        s
    }
}

fn has_prefix(v: &Vec<char>, p: &str) -> (r: bool)
    ensures
        r == starts_with(v@, p@),
{
    let pc = chars_of(p);
    if pc.len() > v.len() {
        return false;
    }
    let mut i: usize = 0;
    while i < pc.len()
        invariant
            i <= pc.len() <= v.len(),
            pc@ == p@,
            forall|k: int| 0 <= k < i ==> v@[k] == pc@[k],
        decreases pc.len() - i,
    {
        if v[i] != pc[i] {
            assert(v@.take(pc.len() as int)[i as int] != p@[i as int]);
            return false;
        }
        i += 1;
    }
    assert(v@.take(pc.len() as int) =~= p@);
    true
}

/// Normalizes a user id to the stored form (see [`clean_user_id`]).
pub fn clean_user_id_format(user_id: &str) -> (r: String)
    ensures
        r@ == clean_user_id(user_id@),
{
    proof {
        reveal_strlit("user:");
    }
    let v = chars_of(user_id);
    let (lo, hi) = trim_bounds(&v);
    let t = slice_chars(&v, lo, hi);
    if has_prefix(&t, "user:") {
        let rest = slice_chars(&t, 5, t.len());
        assert(rest@ == t@.skip(5));
        let (lo2, hi2) = trim_bounds(&rest);
        let u = slice_chars(&rest, lo2, hi2);
        string_from_chars(u.as_slice())
    } else {
        string_from_chars(t.as_slice())
    }
}

/// A space id without its `space:` prefix.
pub fn strip_space_prefix(space_id: &str) -> (r: String)
    ensures
        r@ == plain_space_id(space_id@),
{
    proof {
        reveal_strlit("space:");
    }
    let v = chars_of(space_id);
    if has_prefix(&v, "space:") {
        let rest = slice_chars(&v, 6, v.len());
        assert(rest@ == v@.skip(6));
        string_from_chars(rest.as_slice())
    } else {
        string_from_chars(v.as_slice())
    }
}

/// Whether the stored owner of the space is the user (both ids normalized).
pub open spec fn is_owner(owner_id: Option<Seq<char>>, user_id: Seq<char>) -> bool {
    match owner_id {
        Some(o) => clean_user_id(o) == clean_user_id(user_id),
        None => false,
    }
}

/// Whether the owner recorded for a space is the user.
pub fn owner_matches(owner_id: Option<&str>, user_id: &str) -> (r: bool)
    ensures
        r == is_owner(
            match owner_id {
                Some(o) => Some(o@),
                None => None,
            },
            user_id@,
        ),
{
    match owner_id {
        Some(o) => {
            let a = clean_user_id_format(o);
            let b = clean_user_id_format(user_id);
            a == b
        },
        None => false,
    }
}

/// What the store holds of an accepted membership: its role name (if any) and its extra
/// permissions.
#[derive(Debug, Clone)]
pub struct MemberRecord {
    pub role: Option<String>,
    pub permissions: Vec<String>,
}

/// Whether a membership grants `permission`: by the role's permissions (an unknown or missing
/// role counts as a plain member) or by an extra permission.
pub open spec fn record_grants(m: MemberRecord, permission: Seq<char>) -> bool {
    let role = match m.role {
        Some(r) => role_from_name(r@),
        None => role_from_name("unknown"@),
    };
    role_permissions(role).contains(permission) || views(m.permissions@).contains(permission)
}

/// Whether `user_id` holds `permission` in a space whose recorded owner is `owner_id` and where
/// the user's accepted membership is `member`: the owner holds every permission.
pub fn permission_decision(
    owner_id: Option<&str>,
    user_id: &str,
    member: Option<&MemberRecord>,
    permission: &str,
) -> (r: bool)
    ensures
        r == (is_owner(
            match owner_id {
                Some(o) => Some(o@),
                None => None,
            },
            user_id@,
        ) || match member {
            Some(m) => record_grants(*m, permission@),
            None => false,
        }),
{
    if owner_matches(owner_id, user_id) {
        return true;
    }
    match member {
        Some(m) => {
            let role = match &m.role {
                Some(r) => MemberRole::from_name(r.as_str()),
                None => MemberRole::from_name("unknown"),
            };
            role.can_perform(permission) || contains_str(&m.permissions, permission)
        },
        None => false,
    }
}

/// Whether a user may enter a space: a signed-in user who owns it or is an accepted member.
pub fn access_decision(owner_id: Option<&str>, user_id: Option<&str>, is_member: bool) -> (r: bool)
    ensures
        r == match user_id {
            Some(u) => is_owner(
                match owner_id {
                    Some(o) => Some(o@),
                    None => None,
                },
                u@,
            ) || is_member,
            None => false,
        },
{
    match user_id {
        Some(u) => owner_matches(owner_id, u) || is_member,
        None => false,
    }
}

/// The index of the first invitation with `token` that has not expired at `now`.
pub fn find_invitation(invitations: &Vec<SpaceInvitation>, token: &str, now: i64) -> (r: Option<usize>)
    ensures
        match r {
            Some(i) => i < invitations@.len() && invitations@[i as int].invite_token@ == token@
                && invitations@[i as int].expires_at > now && forall|k: int|
                0 <= k < i ==> !(#[trigger] invitations@[k].invite_token@ == token@
                    && invitations@[k].expires_at > now),
            None => forall|k: int|
                0 <= k < invitations@.len() ==> !(#[trigger] invitations@[k].invite_token@ == token@
                    && invitations@[k].expires_at > now),
        },
{
    let mut i: usize = 0;
    while i < invitations.len()
        invariant
            i <= invitations.len(),
            forall|k: int|
                0 <= k < i ==> !(#[trigger] invitations@[k].invite_token@ == token@
                    && invitations@[k].expires_at > now),
        decreases invitations.len() - i,
    {
        if str_eq(invitations[i].invite_token.as_str(), token) && invitations[i].expires_at > now {
            return Some(i);
        }
        i += 1;
    }
    None
}

/// Whether an invitation may still be used: refused with a conflict once all its uses are
/// spent.
pub fn check_invitation_usable(invitation: &SpaceInvitation) -> (r: Result<(), AppError>)
    ensures
        r is Ok <==> invitation.used_count < invitation.max_uses,
        r matches Err(e) ==> e matches AppError::Conflict(m) && m@ == "Invitation has been used up"@,
{
    if invitation.used_count >= invitation.max_uses {
        Err(AppError::Conflict("Invitation has been used up".to_owned()))
    } else {
        Ok(())
    }
}

/// The error for a token that matches no live invitation.
pub fn invitation_not_found() -> (r: AppError)
    ensures
        r matches AppError::NotFound(m) && m@ == "Invitation not found or expired"@,
{
    AppError::NotFound("Invitation not found or expired".to_owned())
}

/// Where `pat` first occurs in `s`, searching from `from`.
pub open spec fn find_from(s: Seq<char>, pat: Seq<char>, from: int) -> Option<int>
    decreases s.len() + 1 - from,
{
    if from < 0 || from + pat.len() > s.len() {
        None
    } else if s.subrange(from, from + pat.len()) == pat {
        Some(from)
    } else {
        find_from(s, pat, from + 1)
    }
}

fn find_chars(s: &Vec<char>, pat: &Vec<char>) -> (r: Option<usize>)
    ensures
        match r {
            Some(i) => find_from(s@, pat@, 0) == Some(i as int) && i + pat@.len() <= s@.len(),
            None => find_from(s@, pat@, 0) is None,
        },
{
    if pat.len() > s.len() {
        return None;
    }
    if pat.len() == 0 {
        assert(s@.subrange(0, 0) =~= pat@);
        return Some(0);
    }
    let mut i: usize = 0;
    while i <= s.len() - pat.len()
        invariant
            1 <= pat.len() <= s.len(),
            i <= s.len() - pat.len() + 1,
            find_from(s@, pat@, 0) == find_from(s@, pat@, i as int),
        decreases s.len() + 1 - i,
    {
        let mut j: usize = 0;
        let mut same = true;
        while j < pat.len() && same
            invariant
                i + pat.len() <= s.len(),
                j <= pat.len(),
                same ==> forall|k: int| 0 <= k < j ==> s@[i + k] == pat@[k],
                !same ==> s@.subrange(i as int, i + pat.len()) != pat@,
            decreases pat.len() - j,
        {
            if s[i + j] != pat[j] {
                same = false;
                assert(s@.subrange(i as int, i + pat.len())[j as int] != pat@[j as int]);
            }
            j += 1;
        }
        if same {
            assert(s@.subrange(i as int, i + pat.len()) =~= pat@);
            return Some(i);
        }
        i += 1;
    }
    None
}

/// The space key of an invitation's raw space id: the inner id of a nested
/// `space:⟨⟨space:…⟩⟩` form (cut four characters after the `⟨⟨space:` mark, as the stored
/// form is read), otherwise the id without a leading `space:`.
pub open spec fn invitation_space_key(raw: Seq<char>) -> Seq<char> {
    let mark = seq!['⟨', '⟨', 's', 'p', 'a', 'c', 'e', ':'];
    match find_from(raw, mark, 0) {
        Some(start) => {
            let after = raw.skip(start + 4);
            match find_from(after, seq!['⟩', '⟩'], 0) {
                Some(end) => after.take(end),
                None => raw,
            }
        },
        None => plain_space_id(raw),
    }
}

/// The space key of an invitation's raw space id (see [`invitation_space_key`]).
pub fn clean_invitation_space_id(raw: &str) -> (r: String)
    ensures
        r@ == invitation_space_key(raw@),
{
    let v = chars_of(raw);
    let mark: Vec<char> = vec!['⟨', '⟨', 's', 'p', 'a', 'c', 'e', ':'];
    assert(mark@ =~= seq!['⟨', '⟨', 's', 'p', 'a', 'c', 'e', ':']);
    match find_chars(&v, &mark) {
        Some(start) => {
            assert(start + mark@.len() <= v@.len());
            assert(mark@.len() == 8);
            assert(start + 8 <= v.len());
            let after = slice_chars(&v, start + 4, v.len());
            assert(after@ =~= v@.skip(start + 4));
            let close: Vec<char> = vec!['⟩', '⟩'];
            assert(close@ =~= seq!['⟩', '⟩']);
            match find_chars(&after, &close) {
                Some(end) => {
                    let inner = slice_chars(&after, 0, end);
                    assert(inner@ =~= after@.take(end as int));
                    string_from_chars(inner.as_slice())
                },
                None => string_from_chars(v.as_slice()),
            }
        },
        None => strip_space_prefix(raw),
    }
}

/// Applies an update to a member at time `now`: a new role brings its default permissions,
/// explicit permissions replace them.
pub fn apply_member_update(member: &mut SpaceMember, request: UpdateMemberRequest, now: i64)
    ensures
        final(member).role == match request.role {
            Some(r) => r,
            None => old(member).role,
        },
        views(final(member).permissions@) == match request.permissions {
            Some(p) => views(p@),
            None => match request.role {
                Some(r) => role_permissions(r),
                None => views(old(member).permissions@),
            },
        },
        final(member).updated_at == now,
        final(member).user_id == old(member).user_id,
        final(member).space_id == old(member).space_id,
        final(member).status == old(member).status,
{
    if let Some(role) = request.role {
        member.role = role;
        member.permissions = role.default_permissions();
    }
    if let Some(permissions) = request.permissions {
        member.permissions = permissions;
    }
    member.updated_at = now;
}

/// A member may not remove themselves from a space.
pub fn check_removal(member_user_id: &str, remover_id: &str) -> (r: Result<(), AppError>)
    ensures
        r is Ok <==> member_user_id@ != remover_id@,
        r matches Err(e) ==> e matches AppError::Conflict(m) && m@ == "Cannot remove yourself from space"@,
{
    if str_eq(member_user_id, remover_id) {
        Err(AppError::Conflict("Cannot remove yourself from space".to_owned()))
    } else {
        Ok(())
    }
}

/// The milliseconds in a day.
pub const DAY_MILLIS: i64 = 86_400_000;

/// Why an invitation request is refused: its fields fail their checks, or the service
/// refuses it (no permission to invite, or the invited user is already a member).
#[derive(Debug, Clone)]
pub enum InviteRefusal {
    Invalid(ValidationErrors),
    Refused(AppError),
}

/// Whether an invitation was made from a request, in space `space_id`, by `inviter` at `now`
/// with `token`: the space id without `space:`, the request's addressee, role and message, the
/// role's default permissions, one use allowed and none made, expiring after the requested
/// days (7 by default).
pub open spec fn invitation_made(
    inv: SpaceInvitation,
    space_id: Seq<char>,
    inviter: User,
    request: InviteMemberRequest,
    token: Seq<char>,
    now: i64,
) -> bool {
    &&& inv.id is None
    &&& inv.space_id@ == plain_space_id(space_id)
    &&& opt_view(inv.email) == opt_view(request.email)
    &&& opt_view(inv.user_id) == opt_view(request.user_id)
    &&& inv.invite_token@ == token
    &&& inv.role == request.role
    &&& views(inv.permissions@) == role_permissions(request.role)
    &&& inv.invited_by@ == inviter.id@
    &&& opt_view(inv.message) == opt_view(request.message)
    &&& inv.max_uses == 1
    &&& inv.used_count == 0
    &&& inv.expires_at == now + DAY_MILLIS * (match request.expires_in_days {
        Some(d) => d,
        None => 7u32,
    })
    &&& inv.created_at == now
    &&& inv.updated_at == now
}

/// Decides an invitation request, in the order the service checks it: the request's fields,
/// then the inviter's permission to invite (`may_invite`, as `members.invite` is decided for
/// the inviter in the space), then, for a request naming a user, whether that user can
/// already enter the space (`already_member`). When all pass, the invitation to store, with
/// the fresh `token`, made at `now`.
pub fn invite_member_step(
    space_id: &str,
    inviter: &User,
    request: &InviteMemberRequest,
    may_invite: bool,
    already_member: bool,
    token: String,
    now: i64,
) -> (r: Result<SpaceInvitation, InviteRefusal>)
    requires
        now <= i64::MAX - 366 * DAY_MILLIS,
    ensures
        invite_errors(*request).len() > 0 ==> (r matches Err(InviteRefusal::Invalid(e))
            && field_errors_view(e.errors@) == invite_errors(*request)),
        invite_errors(*request).len() == 0 && !may_invite ==> (r matches Err(InviteRefusal::Refused(AppError::Authorization(m)))
            && m@ == "Permission denied: members.invite required"@),
        invite_errors(*request).len() == 0 && may_invite && request.user_id is Some && already_member ==> (r matches Err(
            InviteRefusal::Refused(AppError::Conflict(m)),
        ) && m@ == "User is already a member of this space"@),
        r is Ok <==> invite_errors(*request).len() == 0 && may_invite && !(request.user_id is Some && already_member),
        r matches Ok(inv) ==> invitation_made(inv, space_id@, *inviter, *request, token@, now),
{
    if let Err(e) = request.validate() {
        return Err(InviteRefusal::Invalid(e));
    }
    if !may_invite {
        return Err(InviteRefusal::Refused(AppError::Authorization("Permission denied: members.invite required".to_owned())));
    }
    if request.user_id.is_some() && already_member {
        return Err(InviteRefusal::Refused(AppError::Conflict("User is already a member of this space".to_owned())));
    }
    let days = request.expiry_days();
    assert(days <= 365) by {
        assert(invite_errors(*request).len() == 0);
        if let Some(d) = request.expires_in_days {
            if !(1 <= d <= 365) {
                assert(invite_errors(*request).len() > 0);
            }
        }
    }
    let expires_at = now + DAY_MILLIS * (days as i64);
    Ok(SpaceInvitation {
        id: None,
        space_id: strip_space_prefix(space_id),
        email: copy_opt(&request.email),
        user_id: copy_opt(&request.user_id),
        invite_token: token,
        role: request.role,
        permissions: request.role.default_permissions(),
        invited_by: copy_string(&inviter.id),
        message: copy_opt(&request.message),
        max_uses: 1,
        used_count: 0,
        expires_at,
        created_at: now,
        updated_at: now,
    })
}

/// Whether `m` is the membership made when `user_id` accepts invitation `inv` at `now`: in the
/// invitation's space (its key, see [`invitation_space_key`]), for the cleaned user id, with
/// the invitation's role, permissions and inviter, accepted at `now`.
pub open spec fn member_from_invitation(m: SpaceMember, inv: SpaceInvitation, user_id: Seq<char>, now: i64) -> bool {
    &&& m.id is None
    &&& m.space_id@ == invitation_space_key(inv.space_id@)
    &&& m.user_id@ == clean_user_id(user_id)
    &&& m.role == inv.role
    &&& views(m.permissions@) == views(inv.permissions@)
    &&& m.invited_by@ == inv.invited_by@
    &&& m.invited_at == now
    &&& m.accepted_at == Some(now)
    &&& m.status == MemberStatus::Accepted
    &&& m.expires_at is None
    &&& m.created_at == now
    &&& m.updated_at == now
}

/// Whether invitation `i` of `invs` is live for `token` at `now`, and no earlier one is.
pub open spec fn first_live(invs: Seq<SpaceInvitation>, token: Seq<char>, now: i64, i: int) -> bool {
    &&& 0 <= i < invs.len()
    &&& invs[i].invite_token@ == token
    &&& invs[i].expires_at > now
    &&& forall|k: int| 0 <= k < i ==> !(#[trigger] invs[k].invite_token@ == token && invs[k].expires_at > now)
}

/// Whether some invitation of `invs` is live for `token` at `now`.
pub open spec fn some_live(invs: Seq<SpaceInvitation>, token: Seq<char>, now: i64) -> bool {
    exists|k: int| 0 <= k < invs.len() && #[trigger] invs[k].invite_token@ == token && invs[k].expires_at > now
}

/// Accepts invitation `token` for `user_id` at `now`, over the stored `invitations`: the first
/// live invitation with the token, refused when none is live (not found), when its uses are
/// spent, or when the user can already enter its space (`already_member`, as decided for that
/// invitation's space). On acceptance, that invitation's use count grows by one and the new
/// membership is answered; on refusal nothing changes.
pub fn accept_invitation_step(
    invitations: &mut Vec<SpaceInvitation>,
    token: &str,
    user_id: &str,
    already_member: bool,
    now: i64,
) -> (r: Result<(usize, SpaceMember), AppError>)
    ensures
        !some_live(old(invitations)@, token@, now) ==> (r matches Err(AppError::NotFound(m))
            && m@ == "Invitation not found or expired"@),
        some_live(old(invitations)@, token@, now) ==> exists|i: int| #[trigger] first_live(old(invitations)@, token@, now, i) && {
            let inv = old(invitations)@[i];
            &&& inv.used_count >= inv.max_uses ==> (r matches Err(AppError::Conflict(m))
                && m@ == "Invitation has been used up"@)
            &&& inv.used_count < inv.max_uses && already_member ==> (r matches Err(AppError::Conflict(m))
                && m@ == "User is already a member of this space"@)
            &&& inv.used_count < inv.max_uses && !already_member ==> (r matches Ok((j, m)) && j == i
                && member_from_invitation(m, inv, user_id@, now))
        },
        r matches Ok((j, m)) ==> j < old(invitations)@.len() && final(invitations)@ == old(invitations)@.update(
            j as int,
            SpaceInvitation {
                used_count: (old(invitations)@[j as int].used_count + 1) as u32,
                updated_at: now,
                ..old(invitations)@[j as int]
            },
        ),
        r is Err ==> final(invitations)@ == old(invitations)@,
{
    let i = match find_invitation(invitations, token, now) {
        Some(i) => i,
        None => {
            assert(!some_live(invitations@, token@, now));
            return Err(invitation_not_found());
        },
    };
    assert(first_live(invitations@, token@, now, i as int));
    if let Err(e) = check_invitation_usable(&invitations[i]) {
        return Err(e);
    }
    if already_member {
        return Err(AppError::Conflict("User is already a member of this space".to_owned()));
    }
    let member = {
        let inv = &invitations[i];
        SpaceMember {
            id: None,
            space_id: clean_invitation_space_id(inv.space_id.as_str()),
            user_id: clean_user_id_format(user_id),
            role: inv.role,
            permissions: crate::text::copy_strings(&inv.permissions),
            invited_by: copy_string(&inv.invited_by),
            invited_at: now,
            accepted_at: Some(now),
            status: MemberStatus::Accepted,
            expires_at: None,
            created_at: now,
            updated_at: now,
        }
    };
    let mut inv = invitations.remove(i);
    inv.used_count = inv.used_count + 1;
    inv.updated_at = now;
    invitations.insert(i, inv);
    Ok((i, member))
}

/// The name shown for an inviter: a non-empty display name, else an e-mail other than the
/// placeholder `unknown@example.com`, else the user id.
pub open spec fn display_name_of(u: User) -> Seq<char> {
    let from_profile = match u.profile {
        Some(p) => match p.display_name {
            Some(n) => if n@.len() > 0 {
                Some(n@)
            } else {
                None
            },
            None => None,
        },
        None => None,
    };
    match from_profile {
        Some(n) => n,
        None => if u.email@ != "unknown@example.com"@ {
            u.email@
        } else {
            u.id@
        },
    }
}

/// The name shown for an inviter (see [`display_name_of`]).
pub fn inviter_display_name(inviter: &User) -> (r: String)
    ensures
        r@ == display_name_of(*inviter),
{
    if let Some(p) = &inviter.profile {
        if let Some(n) = &p.display_name {
            if !n.as_str().is_empty() {
                return copy_string(n);
            }
        }
    }
    if !str_eq(inviter.email.as_str(), "unknown@example.com") {
        copy_string(&inviter.email)
    } else {
        copy_string(&inviter.id)
    }
}

/// The space name to show: the stored one, or `未知空间` ("unknown space").
pub fn space_name_or_default(name: Option<String>) -> (r: String)
    ensures
        r@ == match name {
            Some(n) => n@,
            None => "未知空间"@,
        },
{
    match name {
        Some(n) => n,
        None => "未知空间".to_owned(),
    }
}

/// The title of an invitation notification: `<inviter> 邀请您加入 <space> 空间`.
pub fn invitation_title(inviter_name: &str, space_name: &str) -> (r: String)
    ensures
        r@ == inviter_name@ + " 邀请您加入 "@ + space_name@ + " 空间"@,
{
    let a = concat_str(inviter_name, " 邀请您加入 ");
    let b = concat_str(a.as_str(), space_name);
    concat_str(b.as_str(), " 空间")
}

/// The body of an invitation notification:
/// `<inviter> 邀请您以 <role> 的身份加入 <space> 空间。<message>`.
pub fn invitation_content(inviter_name: &str, role: &str, space_name: &str, message: Option<&str>) -> (r: String)
    ensures
        r@ == inviter_name@ + " 邀请您以 "@ + role@ + " 的身份加入 "@ + space_name@ + " 空间。"@
            + match message {
            Some(m) => m@,
            None => ""@,
        },
{
    let a = concat_str(inviter_name, " 邀请您以 ");
    let b = concat_str(a.as_str(), role);
    let c = concat_str(b.as_str(), " 的身份加入 ");
    let d = concat_str(c.as_str(), space_name);
    let e = concat_str(d.as_str(), " 空间。");
    let m = match message {
        Some(m) => m,
        None => "",
    };
    concat_str(e.as_str(), m)
}

} // verus!
