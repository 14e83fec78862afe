//! The schema-evolution runner: ordered application, idempotence, single
//! reverse steps and the status report.

use rbac_core::error::DatabaseError;
use rbac_core::migrations::{AppliedMigration, MigrationManager};

const NOW: u64 = 1_700_000_000;

const ALL_STEPS: [&str; 4] = [
    "m001_create_users_table",
    "m002_create_permissions_table",
    "m003_create_roles_table",
    "m004_create_user_roles_table",
];

#[test]
fn run_migrations_applies_all_steps_in_order() {
    let mut manager = MigrationManager::new();
    manager.initialize();
    let plan = manager.run_migrations(NOW).unwrap();
    let names: Vec<&str> = plan.iter().map(|n| n.as_str()).collect();
    assert_eq!(names, ALL_STEPS.to_vec());
    let status = manager.get_migration_status().unwrap();
    assert_eq!(status.len(), 4);
    for (line, expected) in status.iter().zip(ALL_STEPS.iter()) {
        assert_eq!(line.name, *expected);
        assert!(line.applied);
    }
}

#[test]
fn run_migrations_skips_applied_steps() {
    let mut manager = MigrationManager::new();
    manager.initialize();
    manager.run_migrations(NOW).unwrap();
    let second = manager.run_migrations(NOW + 10).unwrap();
    assert_eq!(second.len(), 0);
}

#[test]
fn rollback_unwinds_in_reverse_order() {
    let mut manager = MigrationManager::new();
    manager.initialize();
    manager.run_migrations(NOW).unwrap();

    let last = manager.rollback_last().unwrap();
    assert_eq!(last.as_deref(), Some("m004_create_user_roles_table"));
    let status = manager.get_migration_status().unwrap();
    assert!(status[0].applied && status[1].applied && status[2].applied);
    assert!(!status[3].applied);

    assert_eq!(
        manager.rollback_last().unwrap().as_deref(),
        Some("m003_create_roles_table")
    );
    assert_eq!(
        manager.rollback_last().unwrap().as_deref(),
        Some("m002_create_permissions_table")
    );
    assert_eq!(
        manager.rollback_last().unwrap().as_deref(),
        Some("m001_create_users_table")
    );
    // Nothing left to roll back: a no-op success.
    assert_eq!(manager.rollback_last().unwrap(), None);
}

#[test]
fn operations_fail_without_the_tracking_table() {
    let mut manager = MigrationManager::new();
    assert!(matches!(
        manager.run_migrations(NOW),
        Err(DatabaseError::MigrationError(_))
    ));
    assert!(matches!(
        manager.rollback_last(),
        Err(DatabaseError::MigrationError(_))
    ));
    assert!(matches!(
        manager.get_migration_status(),
        Err(DatabaseError::MigrationError(_))
    ));
}

#[test]
fn resuming_over_recorded_steps_runs_only_the_rest() {
    let recorded = vec![
        AppliedMigration { name: "m001_create_users_table".to_string(), applied_at: 50 },
        AppliedMigration {
            name: "m002_create_permissions_table".to_string(),
            applied_at: 60,
        },
    ];
    let mut manager = MigrationManager::from_applied(recorded);
    let plan = manager.run_migrations(NOW).unwrap();
    let names: Vec<&str> = plan.iter().map(|n| n.as_str()).collect();
    assert_eq!(
        names,
        vec!["m003_create_roles_table", "m004_create_user_roles_table"]
    );
}

#[test]
fn initialize_is_idempotent() {
    let mut manager = MigrationManager::new();
    manager.initialize();
    manager.initialize();
    let plan = manager.run_migrations(NOW).unwrap();
    assert_eq!(plan.len(), 4);
}
