use nuttyverse_core::access::AccessServiceError;
use nuttyverse_core::access::AccessCatalog;
use nuttyverse_core::access::PermissionCheck;
use nuttyverse_core::access::PermissionCheckError;
use nuttyverse_core::access::PermissionResult;
use nuttyverse_core::access::RolePermission;
use nuttyverse_core::nutty_id::NuttyId;

fn rp(role: &str, permission: &str) -> RolePermission {
    RolePermission { role_name: role.to_string(), permission_name: permission.to_string() }
}

fn catalog() -> AccessCatalog {
    AccessCatalog::new(vec![
        rp("admin", "content_blocks:read:all"),
        rp("admin", "content_blocks:write:all"),
        rp("editor", "content_blocks:read:all"),
        rp("editor", "content_blocks:write:own"),
        rp("viewer", "content_blocks:read:all"),
        rp("block_owner", "content_blocks:read:own"),
        rp("block_owner", "content_blocks:write:own"),
    ])
}

fn check(nav: Option<NuttyId>, perm: &str, resource: Option<NuttyId>) -> PermissionCheck {
    let mut b = PermissionCheck::builder().permission(perm.to_string());
    if let Some(n) = nav {
        b = b.navigator(n);
    }
    if let Some(r) = resource {
        b = b.resource("content_block".to_string(), r);
    }
    b.try_build().unwrap()
}

#[test]
fn global_role_grants_globally() {
    let mut c = catalog();
    let alice = NuttyId::new(1);
    c.grant_global_role(alice, "admin").unwrap();
    let r = c.check_permission(&check(Some(alice), "content_blocks:read:all", None), None);
    assert_eq!(r, PermissionResult::GrantedGlobal);
    assert!(r.is_granted());
}

#[test]
fn resource_role_grants_on_that_resource_only() {
    let mut c = catalog();
    let bob = NuttyId::new(2);
    let res = NuttyId::new(100);
    c.grant_resource_role(bob, "viewer", "content_block", res).unwrap();
    let r = c.check_permission(&check(Some(bob), "content_blocks:read:all", Some(res)), None);
    assert_eq!(r, PermissionResult::GrantedResource);
    let other = NuttyId::new(101);
    let r = c.check_permission(&check(Some(bob), "content_blocks:read:all", Some(other)), None);
    assert_eq!(r, PermissionResult::Denied);
}

#[test]
fn no_navigator_is_denied() {
    let mut c = catalog();
    c.grant_global_role(NuttyId::new(1), "admin").unwrap();
    let r = c.check_permission(&check(None, "content_blocks:read:all", None), None);
    assert_eq!(r, PermissionResult::Denied);
}

#[test]
fn own_permission_grants_only_the_owner() {
    let mut c = catalog();
    let alice = NuttyId::new(1);
    let res = NuttyId::new(100);
    c.grant_global_role(alice, "block_owner").unwrap();
    let r = c.check_permission(&check(Some(alice), "content_blocks:write:own", Some(res)), Some(alice));
    assert_eq!(r, PermissionResult::GrantedOwnership);
    let someone = NuttyId::new(3);
    let r = c.check_permission(&check(Some(alice), "content_blocks:write:own", Some(res)), Some(someone));
    assert_eq!(r, PermissionResult::Denied);
    let r = c.check_permission(&check(Some(alice), "content_blocks:write:own", Some(res)), None);
    assert_eq!(r, PermissionResult::Denied);
    let r = c.check_permission(&check(Some(alice), "content_blocks:write:own", None), None);
    assert_eq!(r, PermissionResult::Denied);
    let bob = NuttyId::new(2);
    let r = c.check_permission(&check(Some(bob), "content_blocks:write:own", Some(res)), Some(bob));
    assert_eq!(r, PermissionResult::Denied);
}

#[test]
fn builder_requires_a_permission() {
    let r = PermissionCheck::builder().navigator(NuttyId::new(1)).try_build();
    assert_eq!(r.unwrap_err(), PermissionCheckError::MissingPermission);
    let c = check(Some(NuttyId::new(1)), "x:y", Some(NuttyId::new(9)));
    assert_eq!(c.permission(), "x:y");
    assert_eq!(c.navigator_id(), Some(&NuttyId::new(1)));
    assert_eq!(c.resource_type(), Some("content_block"));
    assert_eq!(c.resource_id(), Some(&NuttyId::new(9)));
}

#[test]
fn grants_and_revokes_are_idempotent() {
    let mut c = catalog();
    let alice = NuttyId::new(1);
    let res = NuttyId::new(100);
    c.grant_global_role(alice, "editor").unwrap();
    c.grant_global_role(alice, "editor").unwrap();
    c.grant_resource_role(alice, "viewer", "content_block", res).unwrap();
    c.grant_resource_role(alice, "viewer", "content_block", res).unwrap();
    assert_eq!(c.get_navigator_resource_roles(alice).len(), 1);
    assert!(c.can(&check(Some(alice), "content_blocks:write:own", Some(res)), Some(alice)));

    c.revoke_global_role(alice, "editor");
    c.revoke_global_role(alice, "editor");
    assert!(!c.can(&check(Some(alice), "content_blocks:write:own", Some(res)), Some(alice)));

    c.revoke_resource_role(alice, "viewer", "content_block", res);
    c.revoke_resource_role(alice, "viewer", "content_block", res);
    assert!(c.get_navigator_resource_roles(alice).is_empty());
}

#[test]
fn navigator_permissions_are_listed_once() {
    let mut c = catalog();
    let alice = NuttyId::new(1);
    c.grant_global_role(alice, "admin").unwrap();
    c.grant_global_role(alice, "editor").unwrap();
    let mut perms = c.get_navigator_permissions(alice);
    perms.sort();
    assert_eq!(
        perms,
        vec![
            "content_blocks:read:all".to_string(),
            "content_blocks:write:all".to_string(),
            "content_blocks:write:own".to_string(),
        ]
    );
    assert!(c.get_navigator_permissions(NuttyId::new(2)).is_empty());
}

#[test]
fn resource_roles_report_role_and_resource() {
    let mut c = catalog();
    let bob = NuttyId::new(2);
    c.grant_resource_role(bob, "viewer", "content_block", NuttyId::new(100)).unwrap();
    c.grant_resource_role(bob, "editor", "content_block", NuttyId::new(101)).unwrap();
    let roles = c.get_navigator_resource_roles(bob);
    assert_eq!(roles.len(), 2);
    assert_eq!(roles[0].role_name(), "viewer");
    assert_eq!(roles[1].resource_id(), &NuttyId::new(101));
}

#[test]
fn end_to_end_three_navigators() {
    let mut c = AccessCatalog::new(vec![rp("admin", "content:read:all"), rp("viewer", "content:read")]);
    let alice = NuttyId::new(1);
    let bob = NuttyId::new(2);
    let charlie = NuttyId::new(3);
    let b123 = NuttyId::new(123);
    c.grant_global_role(alice, "admin").unwrap();
    c.grant_resource_role(bob, "viewer", "content", b123).unwrap();

    let a = PermissionCheck::builder()
        .navigator(alice)
        .permission("content:read:all".to_string())
        .try_build()
        .unwrap();
    assert_eq!(c.check_permission(&a, None), PermissionResult::GrantedGlobal);

    let b = PermissionCheck::builder()
        .navigator(bob)
        .permission("content:read".to_string())
        .resource("content".to_string(), b123)
        .try_build()
        .unwrap();
    assert_eq!(c.check_permission(&b, None), PermissionResult::GrantedResource);

    let ch = PermissionCheck::builder()
        .navigator(charlie)
        .permission("content:read:all".to_string())
        .try_build()
        .unwrap();
    assert_eq!(c.check_permission(&ch, None), PermissionResult::Denied);
}

#[test]
fn global_grant_wins_over_resource_grant() {
    let mut c = AccessCatalog::new(vec![rp("admin", "content:read"), rp("viewer", "content:read")]);
    let alice = NuttyId::new(1);
    let x = NuttyId::new(50);
    c.grant_global_role(alice, "admin").unwrap();
    c.grant_resource_role(alice, "viewer", "content", x).unwrap();
    let k = PermissionCheck::builder()
        .navigator(alice)
        .permission("content:read".to_string())
        .resource("content".to_string(), x)
        .try_build()
        .unwrap();
    assert_eq!(c.check_permission(&k, None), PermissionResult::GrantedGlobal);
}

#[test]
fn ancestor_walk_stops_at_first_grant() {
    let mut c = AccessCatalog::new(vec![rp("viewer", "content_blocks:read:resource")]);
    let nav = NuttyId::new(1);
    let mid = NuttyId::new(20);
    let root = NuttyId::new(10);
    c.grant_resource_role(nav, "viewer", "content_block", mid).unwrap();
    let perm = "content_blocks:read:resource".to_string();
    let kind = "content_block".to_string();
    assert_eq!(
        c.check_ancestors(nav, &perm, &kind, &vec![mid, root]),
        PermissionResult::GrantedResource
    );
    assert_eq!(c.check_ancestors(nav, &perm, &kind, &vec![root]), PermissionResult::Denied);
    assert_eq!(c.check_ancestors(nav, &perm, &kind, &vec![]), PermissionResult::Denied);
}

#[test]
fn require_reports_denials() {
    let mut c = catalog();
    let alice = NuttyId::new(1);
    c.grant_global_role(alice, "admin").unwrap();
    assert_eq!(c.require(&check(Some(alice), "content_blocks:read:all", None), None), Ok(()));
    let bob = NuttyId::new(2);
    let res = NuttyId::new(100);
    match c.require(&check(Some(bob), "content_blocks:read:all", Some(res)), None) {
        Err(AccessServiceError::PermissionDenied { navigator_id, permission, resource }) => {
            assert_eq!(navigator_id, Some(bob.to_text()));
            assert_eq!(permission, "content_blocks:read:all");
            assert_eq!(resource, Some(format!("content_block:{}", res.to_text())));
        }
        other => panic!("unexpected {other:?}"),
    }
    assert_eq!(c.can_permission(alice, "content_blocks:write:all"), Ok(true));
    assert_eq!(c.can_permission(bob, "content_blocks:write:all"), Ok(false));
    c.grant_resource_role(bob, "viewer", "content_block", res).unwrap();
    assert_eq!(c.can_on_resource(bob, "content_blocks:read:all", "content_block", res, None), Ok(true));
    assert!(c.require_on(bob, "content_blocks:read:all", "content_block", res, None).is_ok());
    assert!(c.require_on(bob, "content_blocks:write:all", "content_block", res, None).is_err());
}

#[test]
fn unknown_roles_are_refused() {
    let mut c = catalog();
    let alice = NuttyId::new(1);
    assert_eq!(
        c.grant_global_role(alice, "nobody"),
        Err(AccessServiceError::UnknownRole("nobody".to_string()))
    );
    assert_eq!(
        c.grant_resource_role(alice, "nobody", "content_block", NuttyId::new(3)),
        Err(AccessServiceError::UnknownRole("nobody".to_string()))
    );
    assert!(c.get_navigator_permissions(alice).is_empty());
    assert!(c.get_navigator_resource_roles(alice).is_empty());
    assert_eq!(c.grant_global_role(alice, "viewer"), Ok(()));
    assert!(c.role_is_known("admin"));
    assert!(!c.role_is_known("nobody"));
}
