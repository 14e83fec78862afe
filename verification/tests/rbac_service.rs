//! The authorization service: role and permission creation, idempotent
//! grant and revoke, and permission resolution across the joins.

use rbac_core::error::ApplicationError;
use rbac_core::permissions::PermissionRepository;
use rbac_core::rbac::{
    associate_permissions_to_role, associate_roles_to_user, create_permission, create_role,
    get_role_permissions, get_user_permissions, get_user_roles, remove_permissions_from_role,
    remove_roles_from_user, user_has_permission, user_has_resource_permission,
};
use rbac_core::role_permissions::RolePermissionRepository;
use rbac_core::roles::RoleRepository;
use rbac_core::user_roles::UserRoleRepository;

const NOW: u64 = 1_700_000_000;

#[test]
fn create_role_rejects_duplicate_name() {
    let mut roles = RoleRepository::new();
    let editor = create_role("editor".to_string(), None, NOW, &mut roles).unwrap();
    assert_eq!(editor.id, 1);
    assert_eq!(editor.name, "editor");
    let result = create_role(
        "editor".to_string(),
        Some("again".to_string()),
        NOW,
        &mut roles,
    );
    match result {
        Err(ApplicationError::InvalidInput(m)) => {
            assert_eq!(m, "Role with name 'editor' already exists");
        }
        other => panic!("expected InvalidInput, got {:?}", other),
    }
    assert_eq!(roles.row_count(), 1);
}

#[test]
fn create_permission_rejects_collisions() {
    let mut permissions = PermissionRepository::new();
    let publish = create_permission(
        "publish-article".to_string(),
        Some("article".to_string()),
        "publish".to_string(),
        NOW,
        &mut permissions,
    )
    .unwrap();
    assert_eq!(publish.id, 1);

    let name_clash = create_permission(
        "publish-article".to_string(),
        None,
        "other".to_string(),
        NOW,
        &mut permissions,
    );
    match name_clash {
        Err(ApplicationError::InvalidInput(m)) => {
            assert_eq!(m, "Permission with name 'publish-article' already exists");
        }
        other => panic!("expected InvalidInput, got {:?}", other),
    }

    let scope_clash = create_permission(
        "publish-article-again".to_string(),
        Some("article".to_string()),
        "publish".to_string(),
        NOW,
        &mut permissions,
    );
    match scope_clash {
        Err(ApplicationError::InvalidInput(m)) => {
            assert_eq!(
                m,
                "Permission with resource 'article' and action 'publish' already exists"
            );
        }
        other => panic!("expected InvalidInput, got {:?}", other),
    }
    assert_eq!(permissions.row_count(), 1);
}

#[test]
fn granting_same_pair_twice_is_a_noop() {
    let mut roles = RoleRepository::new();
    let mut permissions = PermissionRepository::new();
    let mut role_permissions = RolePermissionRepository::new();
    let editor = create_role("editor".to_string(), None, NOW, &mut roles).unwrap();
    let publish = create_permission(
        "publish".to_string(),
        None,
        "publish".to_string(),
        NOW,
        &mut permissions,
    )
    .unwrap();

    let first = associate_permissions_to_role(
        editor.id,
        vec![publish.id],
        NOW,
        &roles,
        &mut role_permissions,
    )
    .unwrap();
    assert_eq!(first.len(), 1);
    assert_eq!(first[0].role_id, editor.id);
    assert_eq!(first[0].permission_id, publish.id);
    assert_eq!(role_permissions.row_count(), 1);

    let second = associate_permissions_to_role(
        editor.id,
        vec![publish.id],
        NOW,
        &roles,
        &mut role_permissions,
    )
    .unwrap();
    assert_eq!(second.len(), 0);
    // Storage still holds exactly one join row.
    assert_eq!(role_permissions.row_count(), 1);
}

#[test]
fn granting_to_missing_role_is_rejected() {
    let roles = RoleRepository::new();
    let mut role_permissions = RolePermissionRepository::new();
    let result =
        associate_permissions_to_role(7, vec![1], NOW, &roles, &mut role_permissions);
    assert!(matches!(result, Err(ApplicationError::InvalidInput(_))));
    assert_eq!(role_permissions.row_count(), 0);
}

#[test]
fn shared_permission_is_listed_exactly_once() {
    let mut roles = RoleRepository::new();
    let mut permissions = PermissionRepository::new();
    let mut role_permissions = RolePermissionRepository::new();
    let mut user_roles = UserRoleRepository::new();

    let writer = create_role("writer".to_string(), None, NOW, &mut roles).unwrap();
    let moderator = create_role("moderator".to_string(), None, NOW, &mut roles).unwrap();
    let shared = create_permission(
        "read-drafts".to_string(),
        None,
        "read".to_string(),
        NOW,
        &mut permissions,
    )
    .unwrap();

    associate_permissions_to_role(writer.id, vec![shared.id], NOW, &roles, &mut role_permissions)
        .unwrap();
    associate_permissions_to_role(
        moderator.id,
        vec![shared.id],
        NOW,
        &roles,
        &mut role_permissions,
    )
    .unwrap();
    associate_roles_to_user(1, vec![writer.id, moderator.id], NOW, &mut user_roles).unwrap();

    let listed = get_user_permissions(1, &user_roles, &role_permissions, &permissions).unwrap();
    assert_eq!(listed.len(), 1);
    assert_eq!(listed[0].id, shared.id);
    assert_eq!(listed[0].name, "read-drafts");
}

#[test]
fn revoking_never_granted_pair_changes_nothing() {
    let mut roles = RoleRepository::new();
    let mut role_permissions = RolePermissionRepository::new();
    let editor = create_role("editor".to_string(), None, NOW, &mut roles).unwrap();
    let result =
        remove_permissions_from_role(editor.id, vec![42], &roles, &mut role_permissions);
    assert!(result.is_ok());
    assert_eq!(role_permissions.row_count(), 0);
}

#[test]
fn end_to_end_resource_permission_grant_and_revoke() {
    let mut roles = RoleRepository::new();
    let mut permissions = PermissionRepository::new();
    let mut role_permissions = RolePermissionRepository::new();
    let mut user_roles = UserRoleRepository::new();

    let editor = create_role("editor".to_string(), None, NOW, &mut roles).unwrap();
    let publish = create_permission(
        "publish-article".to_string(),
        Some("article".to_string()),
        "publish".to_string(),
        NOW,
        &mut permissions,
    )
    .unwrap();
    associate_permissions_to_role(
        editor.id,
        vec![publish.id],
        NOW,
        &roles,
        &mut role_permissions,
    )
    .unwrap();
    associate_roles_to_user(1, vec![editor.id], NOW, &mut user_roles).unwrap();

    let held = user_has_resource_permission(
        1,
        &"article".to_string(),
        &"publish".to_string(),
        &user_roles,
        &role_permissions,
        &permissions,
    )
    .unwrap();
    assert!(held);

    remove_permissions_from_role(editor.id, vec![publish.id], &roles, &mut role_permissions)
        .unwrap();

    let still_held = user_has_resource_permission(
        1,
        &"article".to_string(),
        &"publish".to_string(),
        &user_roles,
        &role_permissions,
        &permissions,
    )
    .unwrap();
    assert!(!still_held);
}

#[test]
fn user_roles_are_listed_by_name() {
    let mut roles = RoleRepository::new();
    let mut user_roles = UserRoleRepository::new();
    let writer = create_role("writer".to_string(), None, NOW, &mut roles).unwrap();
    let admin = create_role("admin".to_string(), None, NOW, &mut roles).unwrap();
    associate_roles_to_user(5, vec![writer.id, admin.id], NOW, &mut user_roles).unwrap();
    let listed = get_user_roles(5, &user_roles, &roles).unwrap();
    assert_eq!(listed.len(), 2);
    assert_eq!(listed[0].name, "admin");
    assert_eq!(listed[1].name, "writer");
}

#[test]
fn role_permissions_are_listed_by_name() {
    let mut roles = RoleRepository::new();
    let mut permissions = PermissionRepository::new();
    let mut role_permissions = RolePermissionRepository::new();
    let editor = create_role("editor".to_string(), None, NOW, &mut roles).unwrap();
    let write = create_permission("write".to_string(), None, "write".to_string(), NOW, &mut permissions)
        .unwrap();
    let delete = create_permission(
        "delete".to_string(),
        None,
        "delete".to_string(),
        NOW,
        &mut permissions,
    )
    .unwrap();
    associate_permissions_to_role(
        editor.id,
        vec![write.id, delete.id],
        NOW,
        &roles,
        &mut role_permissions,
    )
    .unwrap();
    let listed = get_role_permissions(editor.id, &role_permissions, &permissions).unwrap();
    assert_eq!(listed.len(), 2);
    assert_eq!(listed[0].name, "delete");
    assert_eq!(listed[1].name, "write");
}

#[test]
fn user_has_permission_by_name() {
    let mut roles = RoleRepository::new();
    let mut permissions = PermissionRepository::new();
    let mut role_permissions = RolePermissionRepository::new();
    let mut user_roles = UserRoleRepository::new();
    let auditor = create_role("auditor".to_string(), None, NOW, &mut roles).unwrap();
    let inspect = create_permission(
        "inspect-logs".to_string(),
        None,
        "read".to_string(),
        NOW,
        &mut permissions,
    )
    .unwrap();
    associate_permissions_to_role(
        auditor.id,
        vec![inspect.id],
        NOW,
        &roles,
        &mut role_permissions,
    )
    .unwrap();
    associate_roles_to_user(9, vec![auditor.id], NOW, &mut user_roles).unwrap();

    let held = user_has_permission(
        9,
        &"inspect-logs".to_string(),
        &user_roles,
        &role_permissions,
        &permissions,
    )
    .unwrap();
    assert!(held);
    let missing = user_has_permission(
        9,
        &"erase-logs".to_string(),
        &user_roles,
        &role_permissions,
        &permissions,
    )
    .unwrap();
    assert!(!missing);
}

#[test]
fn revoking_roles_removes_memberships() {
    let mut roles = RoleRepository::new();
    let mut user_roles = UserRoleRepository::new();
    let editor = create_role("editor".to_string(), None, NOW, &mut roles).unwrap();
    associate_roles_to_user(3, vec![editor.id], NOW, &mut user_roles).unwrap();
    assert_eq!(user_roles.row_count(), 1);
    remove_roles_from_user(3, vec![editor.id], &mut user_roles).unwrap();
    assert_eq!(user_roles.row_count(), 0);
    let listed = get_user_roles(3, &user_roles, &roles).unwrap();
    assert_eq!(listed.len(), 0);
}
