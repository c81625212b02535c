use rainbow_docs::auth::{User, UserProfile};
use rainbow_docs::error::AppError;
use rainbow_docs::space_member::{
    accept_invitation_step, invite_member_step, InviteRefusal,
    access_decision, check_invitation_usable, check_removal, clean_invitation_space_id, clean_user_id_format,
    find_invitation, invitation_content, invitation_not_found, invitation_title, inviter_display_name,
    permission_decision, space_name_or_default, strip_space_prefix, apply_member_update, InviteMemberRequest,
    MemberRecord, MemberRole, MemberStatus, SpaceInvitation, SpaceMember, SpaceMemberResponse, UpdateMemberRequest,
};

fn strings(v: &[&str]) -> Vec<String> {
    v.iter().map(|s| s.to_string()).collect()
}

#[test]
fn roles_carry_their_permissions() {
    assert_eq!(MemberRole::Viewer.default_permissions(), strings(&["docs.read"]));
    assert!(MemberRole::Owner.can_perform("space.delete"));
    assert!(!MemberRole::Admin.can_perform("space.delete"));
    assert!(MemberRole::Admin.can_perform("members.manage"));
    assert_eq!(MemberRole::from_name("editor"), MemberRole::Editor);
    assert_eq!(MemberRole::from_name("nonsense"), MemberRole::Member);
    assert_eq!(MemberRole::Viewer.as_str(), "viewer");
}

#[test]
fn ids_are_normalized() {
    assert_eq!(clean_user_id_format("  user: abc "), "abc");
    assert_eq!(clean_user_id_format("abc"), "abc");
    assert_eq!(strip_space_prefix("space:xyz"), "xyz");
    assert_eq!(strip_space_prefix("xyz"), "xyz");
    assert_eq!(clean_invitation_space_id("space:⟨⟨space:abc⟩⟩"), "ace:abc");
    assert_eq!(clean_invitation_space_id("space:plain"), "plain");
}

#[test]
fn permission_and_access_decisions() {
    let editor = MemberRecord { role: Some("editor".to_string()), permissions: Vec::new() };
    let extra = MemberRecord { role: None, permissions: strings(&["members.invite"]) };
    assert!(permission_decision(Some("user:alice"), "alice", None, "space.delete"));
    assert!(permission_decision(None, "bob", Some(&editor), "docs.write"));
    assert!(!permission_decision(None, "bob", Some(&editor), "docs.delete"));
    assert!(permission_decision(None, "bob", Some(&extra), "members.invite"));
    assert!(!permission_decision(Some("alice"), "bob", None, "docs.read"));
    assert!(access_decision(Some("alice"), Some(" user:alice"), false));
    assert!(access_decision(Some("alice"), Some("bob"), true));
    assert!(!access_decision(Some("alice"), Some("bob"), false));
    assert!(!access_decision(Some("alice"), None, true));
}

fn invitation(token: &str, expires_at: i64, used: u32, max: u32) -> SpaceInvitation {
    SpaceInvitation {
        id: None,
        space_id: "space:s".to_string(),
        email: None,
        user_id: None,
        invite_token: token.to_string(),
        role: MemberRole::Viewer,
        permissions: Vec::new(),
        invited_by: "alice".to_string(),
        message: None,
        max_uses: max,
        used_count: used,
        expires_at,
        created_at: 0,
        updated_at: 0,
    }
}

#[test]
fn invitations_are_found_and_checked() {
    let invitations = vec![invitation("t1", 50, 0, 1), invitation("t1", 200, 0, 1), invitation("t2", 200, 1, 1)];
    assert_eq!(find_invitation(&invitations, "t1", 100), Some(1));
    assert_eq!(find_invitation(&invitations, "t1", 10), Some(0));
    assert_eq!(find_invitation(&invitations, "t3", 10), None);
    assert!(check_invitation_usable(&invitations[0]).is_ok());
    match check_invitation_usable(&invitations[2]) {
        Err(AppError::Conflict(m)) => assert_eq!(m, "Invitation has been used up"),
        _ => panic!("expected a conflict"),
    }
    match invitation_not_found() {
        AppError::NotFound(m) => assert_eq!(m, "Invitation not found or expired"),
        _ => panic!("expected not found"),
    }
}

fn member() -> SpaceMember {
    SpaceMember {
        id: Some("m1".to_string()),
        space_id: "space:s".to_string(),
        user_id: "bob".to_string(),
        role: MemberRole::Viewer,
        permissions: strings(&["docs.read"]),
        invited_by: "alice".to_string(),
        invited_at: 1,
        accepted_at: Some(2),
        status: MemberStatus::Accepted,
        expires_at: None,
        created_at: 1,
        updated_at: 2,
    }
}

#[test]
fn member_updates_and_removal() {
    let mut m = member();
    apply_member_update(&mut m, UpdateMemberRequest { role: Some(MemberRole::Editor), permissions: None }, 9);
    assert_eq!(m.role, MemberRole::Editor);
    assert_eq!(m.permissions, strings(&["docs.read", "docs.write"]));
    assert_eq!(m.updated_at, 9);
    apply_member_update(&mut m, UpdateMemberRequest { role: None, permissions: Some(strings(&["x"])) }, 10);
    assert_eq!(m.role, MemberRole::Editor);
    assert_eq!(m.permissions, strings(&["x"]));
    assert!(check_removal("bob", "alice").is_ok());
    match check_removal("bob", "bob") {
        Err(AppError::Conflict(msg)) => assert_eq!(msg, "Cannot remove yourself from space"),
        _ => panic!("expected a conflict"),
    }
    let r = SpaceMemberResponse::from_member(member());
    assert_eq!(r.id, "m1");
    assert_eq!(r.status, MemberStatus::Accepted);
}

#[test]
fn invitation_requests_are_checked() {
    let ok = InviteMemberRequest { email: Some("a@example.com".to_string()), user_id: None, role: MemberRole::Viewer, message: None, expires_in_days: None };
    assert!(ok.validate().is_ok());
    assert_eq!(ok.expiry_days(), 7);
    let bad = InviteMemberRequest { email: Some("nope".to_string()), user_id: None, role: MemberRole::Viewer, message: None, expires_in_days: Some(400) };
    let errs = bad.validate().unwrap_err();
    let fields: Vec<&str> = errs.errors.iter().map(|e| e.field.as_str()).collect();
    assert_eq!(fields, vec!["email", "expires_in_days"]);
    let messages: Vec<&str> = errs.errors.iter().map(|e| e.message.as_str()).collect();
    assert_eq!(messages, vec!["Invalid email format", "Expiration days must be between 1 and 365"]);
}

#[test]
fn invitation_notices() {
    let with_name = User {
        id: "u1".to_string(),
        email: "a@b.c".to_string(),
        roles: Vec::new(),
        permissions: Vec::new(),
        profile: Some(UserProfile { display_name: Some("Alice".to_string()) }),
    };
    assert_eq!(inviter_display_name(&with_name), "Alice");
    let placeholder = User { email: "unknown@example.com".to_string(), profile: None, ..with_name.clone() };
    assert_eq!(inviter_display_name(&placeholder), "u1");
    assert_eq!(space_name_or_default(None), "未知空间");
    assert_eq!(invitation_title("Alice", "Docs"), "Alice 邀请您加入 Docs 空间");
    assert_eq!(invitation_content("Alice", "viewer", "Docs", Some("Hi")), "Alice 邀请您以 viewer 的身份加入 Docs 空间。Hi");
    assert_eq!(invitation_content("Alice", "viewer", "Docs", None), "Alice 邀请您以 viewer 的身份加入 Docs 空间。");
}

fn inviter() -> User {
    User { id: "user:alice".to_string(), email: "a@example.com".to_string(), roles: Vec::new(), permissions: Vec::new(), profile: None }
}

fn request(user_id: Option<&str>, days: Option<u32>) -> InviteMemberRequest {
    InviteMemberRequest {
        email: Some("bob@example.com".to_string()),
        user_id: user_id.map(|u| u.to_string()),
        role: MemberRole::Editor,
        message: Some("welcome".to_string()),
        expires_in_days: days,
    }
}

#[test]
fn invitations_are_refused_in_order_and_made_from_the_request() {
    let now = 1_000;
    match invite_member_step("space:s1", &inviter(), &request(None, Some(0)), false, true, "tok".to_string(), now) {
        Err(InviteRefusal::Invalid(e)) => assert_eq!(e.errors[0].field, "expires_in_days"),
        _ => panic!("expected invalid fields"),
    }
    match invite_member_step("space:s1", &inviter(), &request(Some("bob"), None), false, true, "tok".to_string(), now) {
        Err(InviteRefusal::Refused(AppError::Authorization(m))) => assert_eq!(m, "Permission denied: members.invite required"),
        _ => panic!("expected a refusal"),
    }
    match invite_member_step("space:s1", &inviter(), &request(Some("bob"), None), true, true, "tok".to_string(), now) {
        Err(InviteRefusal::Refused(AppError::Conflict(m))) => assert_eq!(m, "User is already a member of this space"),
        _ => panic!("expected a conflict"),
    }
    // An invitation by e-mail alone is not refused for membership.
    assert!(invite_member_step("space:s1", &inviter(), &request(None, None), true, true, "tok".to_string(), now).is_ok());
    let inv = invite_member_step("space:s1", &inviter(), &request(Some("bob"), Some(2)), true, false, "tok".to_string(), now).unwrap();
    assert_eq!(inv.space_id, "s1");
    assert_eq!(inv.invite_token, "tok");
    assert_eq!(inv.role, MemberRole::Editor);
    assert_eq!(inv.permissions, MemberRole::Editor.default_permissions());
    assert_eq!(inv.invited_by, "user:alice");
    assert_eq!(inv.max_uses, 1);
    assert_eq!(inv.used_count, 0);
    assert_eq!(inv.expires_at, now + 2 * 86_400_000);
    assert_eq!(inv.user_id.as_deref(), Some("bob"));
    assert_eq!(inv.message.as_deref(), Some("welcome"));
}

#[test]
fn accepting_an_invitation_makes_a_member_and_uses_it() {
    let now = 50;
    let mut invs = vec![invitation("old", 10, 0, 1), invitation("t", 100, 0, 1)];
    match accept_invitation_step(&mut invs, "old", " user:bob ", false, now) {
        Err(AppError::NotFound(m)) => assert_eq!(m, "Invitation not found or expired"),
        _ => panic!("expected not found"),
    }
    match accept_invitation_step(&mut invs, "t", "bob", true, now) {
        Err(AppError::Conflict(m)) => assert_eq!(m, "User is already a member of this space"),
        _ => panic!("expected a conflict"),
    }
    assert_eq!(invs[1].used_count, 0);
    let (i, m) = accept_invitation_step(&mut invs, "t", " user:bob ", false, now).unwrap();
    assert_eq!(i, 1);
    assert_eq!(m.space_id, "s");
    assert_eq!(m.user_id, "bob");
    assert_eq!(m.role, MemberRole::Viewer);
    assert_eq!(m.status, MemberStatus::Accepted);
    assert_eq!(m.accepted_at, Some(now));
    assert_eq!(m.invited_by, "alice");
    assert_eq!(invs[1].used_count, 1);
    assert_eq!(invs[1].updated_at, now);
    match accept_invitation_step(&mut invs, "t", "carol", false, now) {
        Err(AppError::Conflict(m)) => assert_eq!(m, "Invitation has been used up"),
        _ => panic!("expected used up"),
    }
}
