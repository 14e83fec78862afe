//! The stores themselves: lookups, inserts with unique constraints,
//! updates, deletes and ordered pagination.

use rbac_core::error::DatabaseError;
use rbac_core::permissions::PermissionRepository;
use rbac_core::records::{
    PermissionRecordMutation, RolePermissionRecordMutation, RoleRecordMutation,
    UserRecordMutation, UserRoleRecordMutation,
};
use rbac_core::role_permissions::RolePermissionRepository;
use rbac_core::roles::RoleRepository;
use rbac_core::user_roles::UserRoleRepository;
use rbac_core::users::UserRepository;

const NOW: u64 = 1_700_000_000;

fn user_mutation(first: &str, email: &str) -> UserRecordMutation {
    UserRecordMutation {
        first_name: first.to_string(),
        last_name: "Tester".to_string(),
        email: email.to_string(),
        password: "hash-placeholder".to_string(),
    }
}

#[test]
fn users_paginate_in_id_order() {
    let mut users = UserRepository::new();
    users.create(user_mutation("A", "a@x.io"), NOW).unwrap();
    users.create(user_mutation("B", "b@x.io"), NOW).unwrap();
    users.create(user_mutation("C", "c@x.io"), NOW).unwrap();

    let page1 = users.paginate(1, 2).unwrap();
    assert_eq!(page1.total, 3);
    assert_eq!(page1.page, 1);
    assert_eq!(page1.limit, 2);
    assert_eq!(page1.records.len(), 2);
    assert_eq!(page1.records[0].id, 1);
    assert_eq!(page1.records[1].id, 2);

    let page2 = users.paginate(2, 2).unwrap();
    assert_eq!(page2.records.len(), 1);
    assert_eq!(page2.records[0].id, 3);

    let beyond = users.paginate(3, 2).unwrap();
    assert_eq!(beyond.records.len(), 0);
}

#[test]
fn roles_paginate_in_name_order() {
    let mut roles = RoleRepository::new();
    for name in ["banana", "apple", "cherry"] {
        roles
            .create(
                RoleRecordMutation { name: name.to_string(), description: None },
                NOW,
            )
            .unwrap();
    }
    let page = roles.paginate(1, 10).unwrap();
    assert_eq!(page.total, 3);
    let names: Vec<&str> = page.records.iter().map(|r| r.name.as_str()).collect();
    assert_eq!(names, vec!["apple", "banana", "cherry"]);
}

#[test]
fn duplicate_email_insert_is_a_storage_error() {
    let mut users = UserRepository::new();
    users.create(user_mutation("A", "same@x.io"), NOW).unwrap();
    let result = users.create(user_mutation("B", "same@x.io"), NOW);
    assert!(matches!(result, Err(DatabaseError::ConnectionError(_))));
    assert_eq!(users.row_count(), 1);
}

#[test]
fn update_user_keeps_creation_time() {
    let mut users = UserRepository::new();
    users.create(user_mutation("A", "a@x.io"), 100).unwrap();
    let updated = users
        .update(1, user_mutation("Anna", "anna@x.io"), 500)
        .unwrap();
    assert_eq!(updated.first_name, "Anna");
    assert_eq!(updated.email, "anna@x.io");
    assert_eq!(updated.created_at, Some(100));
    assert_eq!(updated.updated_at, Some(500));
    assert!(users.find_by_email(&"a@x.io".to_string()).is_none());
}

#[test]
fn update_missing_user_is_a_storage_error() {
    let mut users = UserRepository::new();
    let result = users.update(9, user_mutation("A", "a@x.io"), NOW);
    assert!(matches!(result, Err(DatabaseError::ConnectionError(_))));
}

#[test]
fn delete_user_removes_only_that_row() {
    let mut users = UserRepository::new();
    users.create(user_mutation("A", "a@x.io"), NOW).unwrap();
    users.create(user_mutation("B", "b@x.io"), NOW).unwrap();
    users.delete(1).unwrap();
    assert_eq!(users.row_count(), 1);
    assert!(users.find_by_id(1).is_none());
    assert!(users.find_by_id(2).is_some());
    // Deleting an absent identifier succeeds and changes nothing.
    users.delete(42).unwrap();
    assert_eq!(users.row_count(), 1);
}

#[test]
fn role_rename_to_taken_name_is_a_storage_error() {
    let mut roles = RoleRepository::new();
    roles
        .create(RoleRecordMutation { name: "first".to_string(), description: None }, NOW)
        .unwrap();
    roles
        .create(RoleRecordMutation { name: "second".to_string(), description: None }, NOW)
        .unwrap();
    let result = roles.update(
        2,
        RoleRecordMutation { name: "first".to_string(), description: None },
        NOW,
    );
    assert!(matches!(result, Err(DatabaseError::ConnectionError(_))));
    assert_eq!(roles.find_by_id(2).unwrap().name, "second");
}

#[test]
fn permissions_find_by_resource_sorts_by_name() {
    let mut permissions = PermissionRepository::new();
    for (name, resource, action) in [
        ("zeta", Some("article"), "write"),
        ("alpha", Some("article"), "read"),
        ("other", Some("comment"), "read"),
        ("naked", None, "read"),
    ] {
        permissions
            .create(
                PermissionRecordMutation {
                    name: name.to_string(),
                    resource: resource.map(|r| r.to_string()),
                    action: action.to_string(),
                },
                NOW,
            )
            .unwrap();
    }
    let listed = permissions.find_by_resource(&"article".to_string());
    let names: Vec<&str> = listed.iter().map(|p| p.name.as_str()).collect();
    assert_eq!(names, vec!["alpha", "zeta"]);
}

#[test]
fn permissions_find_by_resource_and_action() {
    let mut permissions = PermissionRepository::new();
    permissions
        .create(
            PermissionRecordMutation {
                name: "publish-article".to_string(),
                resource: Some("article".to_string()),
                action: "publish".to_string(),
            },
            NOW,
        )
        .unwrap();
    let found = permissions
        .find_by_resource_and_action(&"article".to_string(), &"publish".to_string());
    assert_eq!(found.unwrap().name, "publish-article");
    let missing = permissions
        .find_by_resource_and_action(&"article".to_string(), &"retract".to_string());
    assert!(missing.is_none());
}

#[test]
fn duplicate_membership_insert_is_a_storage_error() {
    let mut user_roles = UserRoleRepository::new();
    user_roles
        .create(UserRoleRecordMutation { user_id: 1, role_id: 2 }, NOW)
        .unwrap();
    let result = user_roles.create(UserRoleRecordMutation { user_id: 1, role_id: 2 }, NOW);
    assert!(matches!(result, Err(DatabaseError::ConnectionError(_))));
    assert_eq!(user_roles.row_count(), 1);
}

#[test]
fn user_roles_paginate_in_pair_order() {
    let mut user_roles = UserRoleRepository::new();
    for (user, role) in [(2, 9), (1, 5), (2, 1), (1, 3)] {
        user_roles
            .create(UserRoleRecordMutation { user_id: user, role_id: role }, NOW)
            .unwrap();
    }
    let page = user_roles.paginate(1, 10).unwrap();
    let pairs: Vec<(i32, i32)> = page.records.iter().map(|r| (r.user_id, r.role_id)).collect();
    assert_eq!(pairs, vec![(1, 3), (1, 5), (2, 1), (2, 9)]);
}

#[test]
fn membership_removal_by_pair() {
    let mut user_roles = UserRoleRepository::new();
    user_roles
        .create(UserRoleRecordMutation { user_id: 1, role_id: 2 }, NOW)
        .unwrap();
    user_roles.remove_role_from_user(1, 2).unwrap();
    assert_eq!(user_roles.row_count(), 0);
    // Removing an absent pair succeeds and changes nothing.
    user_roles.remove_role_from_user(1, 2).unwrap();
    assert_eq!(user_roles.row_count(), 0);
}

#[test]
fn users_holding_role_are_listed_by_name() {
    let mut users = UserRepository::new();
    users.create(user_mutation("Zoe", "z@x.io"), NOW).unwrap();
    users.create(user_mutation("Ada", "a@x.io"), NOW).unwrap();
    users.create(user_mutation("Mia", "m@x.io"), NOW).unwrap();
    let mut user_roles = UserRoleRepository::new();
    for user in [1, 2, 3] {
        user_roles
            .create(UserRoleRecordMutation { user_id: user, role_id: 7 }, NOW)
            .unwrap();
    }
    let listed = user_roles.find_users_by_role_id(7, &users);
    let names: Vec<&str> = listed.iter().map(|u| u.first_name.as_str()).collect();
    assert_eq!(names, vec!["Ada", "Mia", "Zoe"]);
}

#[test]
fn roles_holding_permission_are_listed_by_name() {
    let mut roles = RoleRepository::new();
    for name in ["writer", "admin", "viewer"] {
        roles
            .create(
                RoleRecordMutation { name: name.to_string(), description: None },
                NOW,
            )
            .unwrap();
    }
    let mut role_permissions = RolePermissionRepository::new();
    for role in [1, 3] {
        role_permissions
            .create(RolePermissionRecordMutation { role_id: role, permission_id: 5 }, NOW)
            .unwrap();
    }
    let listed = role_permissions.find_roles_by_permission_id(5, &roles);
    let names: Vec<&str> = listed.iter().map(|r| r.name.as_str()).collect();
    assert_eq!(names, vec!["viewer", "writer"]);
}

#[test]
fn mutation_forms_derive_from_records() {
    let mut users = UserRepository::new();
    let record = users.create(user_mutation("A", "a@x.io"), NOW).unwrap();
    let mutation = UserRecordMutation::from(record);
    assert_eq!(mutation.first_name, "A");
    assert_eq!(mutation.email, "a@x.io");

    let mut roles = RoleRepository::new();
    let role = roles
        .create(
            RoleRecordMutation {
                name: "editor".to_string(),
                description: Some("edits".to_string()),
            },
            NOW,
        )
        .unwrap();
    let role_mutation = RoleRecordMutation::from(role);
    assert_eq!(role_mutation.name, "editor");
    assert_eq!(role_mutation.description, Some("edits".to_string()));
}
