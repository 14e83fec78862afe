//! The persisted record shapes: accounts, roles, permissions, the two join
//! relations, their mutation (insert/update) forms, and a page of results.
//!
//! Each record has a mathematical view (`...V`) over which every store and
//! service contract is stated: identifiers as `int`, strings as `Seq<char>`,
//! timestamps as seconds.

use vstd::prelude::*;

verus! {

/// One account row.
#[derive(Debug)]
pub struct UserRecord {
    pub id: i32,
    pub first_name: String,
    pub last_name: String,
    pub email: String,
    pub password: String,
    pub created_at: Option<u64>,
    pub updated_at: Option<u64>,
}

/// The mathematical value of a [`UserRecord`].
pub ghost struct UserRecordV {
    pub id: int,
    pub first_name: Seq<char>,
    pub last_name: Seq<char>,
    pub email: Seq<char>,
    pub password: Seq<char>,
    pub created_at: Option<u64>,
    pub updated_at: Option<u64>,
}

impl View for UserRecord {
    type V = UserRecordV;

    open spec fn view(&self) -> UserRecordV {
        UserRecordV {
            id: self.id as int,
            first_name: self.first_name@,
            last_name: self.last_name@,
            email: self.email@,
            password: self.password@,
            created_at: self.created_at,
            updated_at: self.updated_at,
        }
    }
}

impl UserRecord {
    /// A field-for-field copy with the same view.
    pub fn duplicate(&self) -> (r: UserRecord)
        ensures
            r@ == self@,
    {
        UserRecord {
            id: self.id,
            first_name: self.first_name.clone(),
            last_name: self.last_name.clone(),
            email: self.email.clone(),
            password: self.password.clone(),
            created_at: self.created_at,
            updated_at: self.updated_at,
        }
    }
}

/// The insert/update form of an account row.
#[derive(Debug)]
pub struct UserRecordMutation {
    pub first_name: String,
    pub last_name: String,
    pub email: String,
    pub password: String,
}

impl From<UserRecord> for UserRecordMutation {
    fn from(record: UserRecord) -> Self {
        UserRecordMutation {
            first_name: record.first_name,
            last_name: record.last_name,
            email: record.email,
            password: record.password,
        }
    }
}

impl vstd::std_specs::convert::FromSpecImpl<UserRecord> for UserRecordMutation {
    open spec fn obeys_from_spec() -> bool {
        true
    }

    open spec fn from_spec(record: UserRecord) -> Self {
        UserRecordMutation {
            first_name: record.first_name,
            last_name: record.last_name,
            email: record.email,
            password: record.password,
        }
    }
}

/// One role row.
#[derive(Debug)]
pub struct RoleRecord {
    pub id: i32,
    pub name: String,
    pub description: Option<String>,
    pub created_at: Option<u64>,
    pub updated_at: Option<u64>,
}

/// The mathematical value of a [`RoleRecord`].
pub ghost struct RoleRecordV {
    pub id: int,
    pub name: Seq<char>,
    pub description: Option<Seq<char>>,
    pub created_at: Option<u64>,
    pub updated_at: Option<u64>,
}

/// The view of an optional string.
pub open spec fn opt_str_view(o: Option<String>) -> Option<Seq<char>> {
    match o {
        Option::Some(s) => Option::Some(s@),
        Option::None => Option::None,
    }
}

impl View for RoleRecord {
    type V = RoleRecordV;

    open spec fn view(&self) -> RoleRecordV {
        RoleRecordV {
            id: self.id as int,
            name: self.name@,
            description: opt_str_view(self.description),
            created_at: self.created_at,
            updated_at: self.updated_at,
        }
    }
}

/// A field-for-field copy of an optional string.
pub fn duplicate_opt_string(o: &Option<String>) -> (r: Option<String>)
    ensures
        opt_str_view(r) == opt_str_view(*o),
{
    match o {
        Option::Some(s) => Option::Some(s.clone()),
        Option::None => Option::None,
    }
}

impl RoleRecord {
    /// A field-for-field copy with the same view.
    pub fn duplicate(&self) -> (r: RoleRecord)
        ensures
            r@ == self@,
    {
        RoleRecord {
            id: self.id,
            name: self.name.clone(),
            description: duplicate_opt_string(&self.description),
            created_at: self.created_at,
            updated_at: self.updated_at,
        }
    }
}

/// The insert/update form of a role row.
#[derive(Debug)]
pub struct RoleRecordMutation {
    pub name: String,
    pub description: Option<String>,
}

impl From<RoleRecord> for RoleRecordMutation {
    fn from(record: RoleRecord) -> Self {
        RoleRecordMutation { name: record.name, description: record.description }
    }
}

impl vstd::std_specs::convert::FromSpecImpl<RoleRecord> for RoleRecordMutation {
    open spec fn obeys_from_spec() -> bool {
        true
    }

    open spec fn from_spec(record: RoleRecord) -> Self {
        RoleRecordMutation { name: record.name, description: record.description }
    }
}

/// One permission row. `resource` is an optional scope; `action` is the
/// operation the permission allows on it.
#[derive(Debug)]
pub struct PermissionRecord {
    pub id: i32,
    pub name: String,
    pub resource: Option<String>,
    pub action: String,
    pub created_at: Option<u64>,
    pub updated_at: Option<u64>,
}

/// The mathematical value of a [`PermissionRecord`].
pub ghost struct PermissionRecordV {
    pub id: int,
    pub name: Seq<char>,
    pub resource: Option<Seq<char>>,
    pub action: Seq<char>,
    pub created_at: Option<u64>,
    pub updated_at: Option<u64>,
}

impl View for PermissionRecord {
    type V = PermissionRecordV;

    open spec fn view(&self) -> PermissionRecordV {
        PermissionRecordV {
            id: self.id as int,
            name: self.name@,
            resource: opt_str_view(self.resource),
            action: self.action@,
            created_at: self.created_at,
            updated_at: self.updated_at,
        }
    }
}

impl PermissionRecord {
    /// A field-for-field copy with the same view.
    pub fn duplicate(&self) -> (r: PermissionRecord)
        ensures
            r@ == self@,
    {
        PermissionRecord {
            id: self.id,
            name: self.name.clone(),
            resource: duplicate_opt_string(&self.resource),
            action: self.action.clone(),
            created_at: self.created_at,
            updated_at: self.updated_at,
        }
    }
}

/// The insert/update form of a permission row.
#[derive(Debug)]
pub struct PermissionRecordMutation {
    pub name: String,
    pub resource: Option<String>,
    pub action: String,
}

impl From<PermissionRecord> for PermissionRecordMutation {
    fn from(record: PermissionRecord) -> Self {
        PermissionRecordMutation {
            name: record.name,
            resource: record.resource,
            action: record.action,
        }
    }
}

impl vstd::std_specs::convert::FromSpecImpl<PermissionRecord> for PermissionRecordMutation {
    open spec fn obeys_from_spec() -> bool {
        true
    }

    open spec fn from_spec(record: PermissionRecord) -> Self {
        PermissionRecordMutation {
            name: record.name,
            resource: record.resource,
            action: record.action,
        }
    }
}

/// One user-to-role membership row.
#[derive(Debug)]
pub struct UserRoleRecord {
    pub id: i32,
    pub user_id: i32,
    pub role_id: i32,
    pub created_at: Option<u64>,
}

/// The mathematical value of a [`UserRoleRecord`].
pub ghost struct UserRoleRecordV {
    pub id: int,
    pub user_id: int,
    pub role_id: int,
    pub created_at: Option<u64>,
}

impl View for UserRoleRecord {
    type V = UserRoleRecordV;

    open spec fn view(&self) -> UserRoleRecordV {
        UserRoleRecordV {
            id: self.id as int,
            user_id: self.user_id as int,
            role_id: self.role_id as int,
            created_at: self.created_at,
        }
    }
}

impl UserRoleRecord {
    /// A field-for-field copy with the same view.
    pub fn duplicate(&self) -> (r: UserRoleRecord)
        ensures
            r@ == self@,
    {
        UserRoleRecord {
            id: self.id,
            user_id: self.user_id,
            role_id: self.role_id,
            created_at: self.created_at,
        }
    }
}

/// The insert/update form of a user-to-role membership row.
#[derive(Debug)]
pub struct UserRoleRecordMutation {
    pub user_id: i32,
    pub role_id: i32,
}

impl From<UserRoleRecord> for UserRoleRecordMutation {
    fn from(record: UserRoleRecord) -> Self {
        UserRoleRecordMutation { user_id: record.user_id, role_id: record.role_id }
    }
}

impl vstd::std_specs::convert::FromSpecImpl<UserRoleRecord> for UserRoleRecordMutation {
    open spec fn obeys_from_spec() -> bool {
        true
    }

    open spec fn from_spec(record: UserRoleRecord) -> Self {
        UserRoleRecordMutation { user_id: record.user_id, role_id: record.role_id }
    }
}

/// One role-to-permission association row.
#[derive(Debug)]
pub struct RolePermissionRecord {
    pub id: i32,
    pub role_id: i32,
    pub permission_id: i32,
    pub created_at: Option<u64>,
}

/// The mathematical value of a [`RolePermissionRecord`].
pub ghost struct RolePermissionRecordV {
    pub id: int,
    pub role_id: int,
    pub permission_id: int,
    pub created_at: Option<u64>,
}

impl View for RolePermissionRecord {
    type V = RolePermissionRecordV;

    open spec fn view(&self) -> RolePermissionRecordV {
        RolePermissionRecordV {
            id: self.id as int,
            role_id: self.role_id as int,
            permission_id: self.permission_id as int,
            created_at: self.created_at,
        }
    }
}

impl RolePermissionRecord {
    /// A field-for-field copy with the same view.
    pub fn duplicate(&self) -> (r: RolePermissionRecord)
        ensures
            r@ == self@,
    {
        RolePermissionRecord {
            id: self.id,
            role_id: self.role_id,
            permission_id: self.permission_id,
            created_at: self.created_at,
        }
    }
}

/// The insert/update form of a role-to-permission association row.
#[derive(Debug)]
pub struct RolePermissionRecordMutation {
    pub role_id: i32,
    pub permission_id: i32,
}

impl From<RolePermissionRecord> for RolePermissionRecordMutation {
    fn from(record: RolePermissionRecord) -> Self {
        RolePermissionRecordMutation {
            role_id: record.role_id,
            permission_id: record.permission_id,
        }
    }
}

impl vstd::std_specs::convert::FromSpecImpl<RolePermissionRecord> for RolePermissionRecordMutation {
    open spec fn obeys_from_spec() -> bool {
        true
    }

    open spec fn from_spec(record: RolePermissionRecord) -> Self {
        RolePermissionRecordMutation {
            role_id: record.role_id,
            permission_id: record.permission_id,
        }
    }
}

/// One page of an ordered listing, with the total row count and the page
/// coordinates that produced it.
#[derive(Debug)]
pub struct PaginatedRecords<T> {
    pub records: Vec<T>,
    pub total: u64,
    pub page: u64,
    pub limit: u64,
}

} // verus!
