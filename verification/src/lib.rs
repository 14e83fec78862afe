//! A small authentication and authorization library: user registration,
//! password login with token issuance, a role-based access control model
//! (roles, permissions and their many-to-many associations), and a
//! forward-only schema-evolution runner, all with verified contracts.
//!
//! The stores hold their rows in memory; the invariants they maintain
//! (unique emails, unique names, unique join pairs) are those the
//! relational schema would enforce.

pub mod error;
pub mod laws;
pub mod listing;
pub mod login;
pub mod migrations;
pub mod password;
pub mod permissions;
pub mod rbac;
pub mod records;
pub mod register;
pub mod role_permissions;
pub mod roles;
pub mod strutil;
pub mod token;
pub mod user_roles;
pub mod users;
