use vstd::prelude::*;
use crate::error::AppError;
use crate::text::{concat_str, str_eq, contains_str, views};

verus! {

broadcast use vstd::string::group_string_axioms;

/// Profile data of an authenticated user.
#[derive(Debug, Clone)]
pub struct UserProfile {
    pub display_name: Option<String>,
}

/// An authenticated user with roles and permissions.
#[derive(Debug, Clone)]
pub struct User {
    pub id: String,
    pub email: String,
    pub roles: Vec<String>,
    pub permissions: Vec<String>,
    pub profile: Option<UserProfile>,
}

/// Whether the user holds the permission `p`.
pub open spec fn has_permission(u: User, p: Seq<char>) -> bool {
    views(u.permissions@).contains(p)
}

/// Whether the user has the role `r`.
pub open spec fn has_role(u: User, r: Seq<char>) -> bool {
    views(u.roles@).contains(r)
}

/// Whether the user may administer documents.
pub open spec fn spec_can_admin(u: User) -> bool {
    has_permission(u, "docs.admin"@)
}

/// Whether the user may write documents.
pub open spec fn spec_can_write(u: User) -> bool {
    has_permission(u, "docs.write"@) || has_permission(u, "docs.admin"@)
}

/// Whether the user may read documents.
pub open spec fn spec_can_read(u: User) -> bool {
    has_permission(u, "docs.read"@) || has_permission(u, "docs.write"@) || has_permission(
        u,
        "docs.admin"@,
    )
}

/// Succeeds when the user has the `admin` role or the `docs.admin` permission.
pub fn require_admin(user: &User) -> (r: Result<(), AppError>)
    ensures
        r is Ok <==> (has_role(*user, "admin"@) || has_permission(*user, "docs.admin"@)),
        r matches Err(e) ==> e matches AppError::Authorization(m) && m@ == "Admin permission required"@,
{
    if contains_str(&user.roles, "admin") || contains_str(&user.permissions, "docs.admin") {
        Ok(())
    } else {
        Err(AppError::Authorization("Admin permission required".to_owned()))
    }
}

/// Lets a request through when its user holds `permission`: refused as unauthenticated
/// without a user, as unauthorized without the permission.
pub fn require_permission(user: Option<&User>, permission: &str) -> (r: Result<(), AppError>)
    ensures
        user is None ==> (r matches Err(AppError::Authentication(m)) && m@ == "User not authenticated"@),
        user matches Some(u) ==> (has_permission(*u, permission@) ==> r is Ok),
        user matches Some(u) ==> (!has_permission(*u, permission@) ==> (r matches Err(AppError::Authorization(m))
            && m@ == "Permission "@ + permission@ + " required"@)),
{
    match user {
        None => Err(AppError::Authentication("User not authenticated".to_owned())),
        Some(u) => {
            if contains_str(&u.permissions, permission) {
                Ok(())
            } else {
                let head = concat_str("Permission ", permission);
                Err(AppError::Authorization(concat_str(head.as_str(), " required")))
            }
        },
    }
}

/// Lets a request through when its user has `role`: refused as unauthenticated without a
/// user, as unauthorized without the role.
pub fn require_role(user: Option<&User>, role: &str) -> (r: Result<(), AppError>)
    ensures
        user is None ==> (r matches Err(AppError::Authentication(m)) && m@ == "User not authenticated"@),
        user matches Some(u) ==> (has_role(*u, role@) ==> r is Ok),
        user matches Some(u) ==> (!has_role(*u, role@) ==> (r matches Err(AppError::Authorization(m))
            && m@ == "Role "@ + role@ + " required"@)),
{
    match user {
        None => Err(AppError::Authentication("User not authenticated".to_owned())),
        Some(u) => {
            if contains_str(&u.roles, role) {
                Ok(())
            } else {
                let head = concat_str("Role ", role);
                Err(AppError::Authorization(concat_str(head.as_str(), " required")))
            }
        },
    }
}

/// Whether the user may read documents (`docs.read`, `docs.write` or `docs.admin`).
pub fn can_read_document(user: &User) -> (r: bool)
    ensures
        r == spec_can_read(*user),
{
    contains_str(&user.permissions, "docs.read") || contains_str(&user.permissions, "docs.write")
        || contains_str(&user.permissions, "docs.admin")
}

/// Whether the user may write documents (`docs.write` or `docs.admin`).
pub fn can_write_document(user: &User) -> (r: bool)
    ensures
        r == spec_can_write(*user),
{
    contains_str(&user.permissions, "docs.write") || contains_str(&user.permissions, "docs.admin")
}

/// Whether the user may administer documents (`docs.admin`).
pub fn can_admin_document(user: &User) -> (r: bool)
    ensures
        r == spec_can_admin(*user),
{
    contains_str(&user.permissions, "docs.admin")
}

/// Whether the user owns the space or may administer documents.
pub fn can_manage_space(user: &User, space_owner_id: &str) -> (r: bool)
    ensures
        r == (user.id@ == space_owner_id@ || spec_can_admin(*user)),
{
    str_eq(user.id.as_str(), space_owner_id) || can_admin_document(user)
}

/// Kinds of permission on a document.
#[derive(Debug, Clone, Copy, PartialEq, Eq, Structural)]
pub enum DocumentPermission {
    Read,
    Write,
    Admin,
}

impl DocumentPermission {
    /// The rank of a permission: a higher rank includes every lower one.
    pub open spec fn rank(self) -> int {
        match self {
            DocumentPermission::Read => 0,
            DocumentPermission::Write => 1,
            DocumentPermission::Admin => 2,
        }
    }

    /// The name of a permission.
    pub open spec fn name(self) -> Seq<char> {
        match self {
            DocumentPermission::Read => "read"@,
            DocumentPermission::Write => "write"@,
            DocumentPermission::Admin => "admin"@,
        }
    }

    /// The permission named `s` (`read`, `write` or `admin`), if any.
    pub fn from_string(s: &str) -> (r: Option<Self>)
        ensures
            r matches Some(p) ==> p.name() == s@,
            r is None ==> forall|p: DocumentPermission| p.name() != s@,
    {
        if str_eq(s, "read") {
            Some(DocumentPermission::Read)
        } else if str_eq(s, "write") {
            Some(DocumentPermission::Write)
        } else if str_eq(s, "admin") {
            Some(DocumentPermission::Admin)
        } else {
            proof {
                assert forall|p: DocumentPermission| p.name() != s@ by {
                    match p {
                        DocumentPermission::Read => {},
                        DocumentPermission::Write => {},
                        DocumentPermission::Admin => {},
                    }
                }
            }
            None
        }
    }

    /// The name of the permission.
    pub fn to_string(&self) -> (r: &'static str)
        ensures
            r@ == self.name(),
    {
        match self {
            DocumentPermission::Read => "read",
            DocumentPermission::Write => "write",
            DocumentPermission::Admin => "admin",
        }
    }

    /// Whether `self` grants everything that `other` grants.
    pub fn includes(&self, other: &DocumentPermission) -> (r: bool)
        ensures
            r == (other.rank() <= self.rank()),
    {
        match (self, other) {
            (DocumentPermission::Admin, _) => true,
            (DocumentPermission::Write, DocumentPermission::Read) => true,
            (DocumentPermission::Write, DocumentPermission::Write) => true,
            (DocumentPermission::Read, DocumentPermission::Read) => true,
            _ => false,
        }
    }
}

/// Inclusion of document permissions is a total order: reflexive, antisymmetric, transitive
/// and total.
pub proof fn law_includes_total_order(a: DocumentPermission, b: DocumentPermission, c: DocumentPermission)
    ensures
        a.rank() <= a.rank(),
        (b.rank() <= a.rank() && a.rank() <= b.rank()) ==> a == b,
        (b.rank() <= a.rank() && c.rank() <= b.rank()) ==> c.rank() <= a.rank(),
        b.rank() <= a.rank() || a.rank() <= b.rank(),
{
}

/// Naming a permission and reading the name back gives the same permission.
pub proof fn law_permission_name_roundtrip(a: DocumentPermission, b: DocumentPermission)
    ensures
        a.name() == b.name() <==> a == b,
{
    reveal_strlit("read");
    reveal_strlit("write");
    reveal_strlit("admin");
    if a != b {
        match (a, b) {
            (DocumentPermission::Read, _) => {
                assert(a.name().len() != b.name().len() || a.name()[0] != b.name()[0]);
            },
            (DocumentPermission::Write, _) => {
                assert(a.name().len() != b.name().len() || a.name()[0] != b.name()[0]);
            },
            (DocumentPermission::Admin, _) => {
                assert(a.name().len() != b.name().len() || a.name()[0] != b.name()[0]);
            },
        }
    }
}

/// Document capabilities are nested: who may administer may write, and who may write may
/// read.
pub proof fn law_document_capabilities_nested(u: User)
    ensures
        spec_can_admin(u) ==> spec_can_write(u),
        spec_can_write(u) ==> spec_can_read(u),
{
}

} // verus!
