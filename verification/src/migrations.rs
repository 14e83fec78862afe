//! The schema-evolution runner: a fixed, ordered list of named steps, a
//! record of which are applied, and the forward / rollback transitions.
//!
//! The store behind the tracking table records a name and a timestamp per
//! applied step. Executing a step's schema change is the caller's side of
//! the bargain: `run_migrations` decides and records which steps to apply
//! and hands their names back in order; `rollback_last` un-records the most
//! recent step and hands its name back.

use vstd::prelude::*;

use crate::error::DatabaseError;
use crate::strutil::str_eq;

verus! {

/// The first registered step: the accounts table.
pub struct CreateUsersTableMigration {}

impl CreateUsersTableMigration {
    /// The step's registered name.
    pub fn name(&self) -> (n: &str)
        ensures
            n@ == "m001_create_users_table"@,
    {
        "m001_create_users_table"
    }
}

/// The second registered step: the permissions table.
pub struct CreatePermissionsTableMigration {}

impl CreatePermissionsTableMigration {
    /// The step's registered name.
    pub fn name(&self) -> (n: &str)
        ensures
            n@ == "m002_create_permissions_table"@,
    {
        "m002_create_permissions_table"
    }
}

/// The third registered step: the roles and role-permission tables.
pub struct CreateRolesTableMigration {}

impl CreateRolesTableMigration {
    /// The step's registered name.
    pub fn name(&self) -> (n: &str)
        ensures
            n@ == "m003_create_roles_table"@,
    {
        "m003_create_roles_table"
    }
}

/// The fourth registered step: the user-role table.
pub struct CreateUserRolesTableMigration {}

impl CreateUserRolesTableMigration {
    /// The step's registered name.
    pub fn name(&self) -> (n: &str)
        ensures
            n@ == "m004_create_user_roles_table"@,
    {
        "m004_create_user_roles_table"
    }
}

/// The registered step names, in the fixed order they run.
pub open spec fn registered_names() -> Seq<Seq<char>> {
    seq![
        "m001_create_users_table"@,
        "m002_create_permissions_table"@,
        "m003_create_roles_table"@,
        "m004_create_user_roles_table"@,
    ]
}

/// One row of the tracking record: a step name and when it was applied.
#[derive(Debug)]
pub struct AppliedMigration {
    pub name: String,
    pub applied_at: u64,
}

/// The mathematical value of an [`AppliedMigration`].
pub ghost struct AppliedMigrationV {
    pub name: Seq<char>,
    pub applied_at: u64,
}

impl View for AppliedMigration {
    type V = AppliedMigrationV;

    open spec fn view(&self) -> AppliedMigrationV {
        AppliedMigrationV { name: self.name@, applied_at: self.applied_at }
    }
}

/// Whether a step of this name is recorded as applied.
pub open spec fn name_applied(applied: Seq<AppliedMigrationV>, name: Seq<char>) -> bool {
    exists|i: int| 0 <= i < applied.len() && applied[i].name == name
}

/// The registered names not yet recorded as applied, in registered order.
pub open spec fn pending_names(
    registered: Seq<Seq<char>>,
    applied: Seq<AppliedMigrationV>,
) -> Seq<Seq<char>>
    decreases registered.len(),
{
    if registered.len() == 0 {
        Seq::empty()
    } else {
        let rest = pending_names(registered.drop_last(), applied);
        if name_applied(applied, registered.last()) {
            rest
        } else {
            rest.push(registered.last())
        }
    }
}

/// The tracking rows with every row of this name removed.
pub open spec fn without_name(
    applied: Seq<AppliedMigrationV>,
    name: Seq<char>,
) -> Seq<AppliedMigrationV>
    decreases applied.len(),
{
    if applied.len() == 0 {
        Seq::empty()
    } else {
        let rest = without_name(applied.drop_last(), name);
        if applied.last().name == name {
            rest
        } else {
            rest.push(applied.last())
        }
    }
}

/// One line of the status report: a registered step and whether it is
/// applied.
#[derive(Debug)]
pub struct MigrationStatus {
    pub name: String,
    pub applied: bool,
}

/// The model of the migrations tracking store: whether the tracking table
/// exists yet, and the applied rows in recency order.
pub struct MigrationManager {
    initialized: bool,
    applied: Vec<AppliedMigration>,
}

impl MigrationManager {
    /// Whether `initialize` has ensured the tracking table.
    pub closed spec fn initialized_spec(&self) -> bool {
        self.initialized
    }

    /// The tracking rows, oldest first.
    pub closed spec fn applied_rows(&self) -> Seq<AppliedMigrationV> {
        self.applied@.map(|i: int, a: AppliedMigration| a@)
    }

    /// A manager over a store with no tracking table yet.
    pub fn new() -> (r: Self)
        ensures
            !r.initialized_spec(),
            r.applied_rows() == Seq::<AppliedMigrationV>::empty(),
    {
        let r = MigrationManager { initialized: false, applied: Vec::new() };
        proof {
            assert(r.applied_rows() =~= Seq::<AppliedMigrationV>::empty());
        }
        r
    }

    /// A manager over a store whose tracking table already holds these
    /// rows, oldest first.
    pub fn from_applied(applied: Vec<AppliedMigration>) -> (r: Self)
        ensures
            r.initialized_spec(),
            r.applied_rows() == applied@.map(|i: int, a: AppliedMigration| a@),
    {
        MigrationManager { initialized: true, applied }
    }

    /// Ensure the tracking table exists; idempotent, and changes no
    /// recorded row.
    pub fn initialize(&mut self)
        ensures
            final(self).initialized_spec(),
            final(self).applied_rows() == old(self).applied_rows(),
    {
        self.initialized = true;
    }

    /// The registered step names, in the fixed order they run.
    pub fn get_available_migrations(&self) -> (r: Vec<String>)
        ensures
            r@.map(|i: int, s: String| s@) == registered_names(),
    {
        let mut names: Vec<String> = Vec::new();
        names.push(String::from_str((CreateUsersTableMigration {  }).name()));
        names.push(String::from_str((CreatePermissionsTableMigration {  }).name()));
        names.push(String::from_str((CreateRolesTableMigration {  }).name()));
        names.push(String::from_str((CreateUserRolesTableMigration {  }).name()));
        proof {
            assert(names@.map(|i: int, s: String| s@) =~= registered_names());
        }
        names
    }

    /// Whether a step of this name is recorded as applied.
    fn is_applied(&self, name: &str) -> (r: bool)
        ensures
            r == name_applied(self.applied_rows(), name@),
    {
        let n = self.applied.len();
        let mut i: usize = 0;
        while i < n
            invariant
                i <= n,
                n == self.applied_rows().len(),
                forall|k: int| 0 <= k < i ==> (#[trigger] self.applied_rows()[k]).name != name@,
            decreases n - i,
        {
            if str_eq(self.applied[i].name.as_str(), name) {
                assert(self.applied_rows()[i as int].name == name@);
                return true;
            }
            i += 1;
        }
        false
    }

    /// Record every registered step not yet applied, in registered order,
    /// each stamped `now`, and return their names in that order: the steps
    /// whose schema changes the caller must execute. Fails, recording
    /// nothing, when the tracking table was never ensured.
    pub fn run_migrations(&mut self, now: u64) -> (r: Result<Vec<String>, DatabaseError>)
        ensures
            old(self).initialized_spec() <==> r is Ok,
            r is Err ==> *final(self) == *old(self),
            r matches Err(e) ==> e matches DatabaseError::MigrationError(_),
            r matches Ok(plan) ==> {
                &&& plan@.map(|i: int, s: String| s@) == pending_names(
                    registered_names(),
                    old(self).applied_rows(),
                )
                &&& final(self).applied_rows().len() == old(self).applied_rows().len()
                    + plan@.len()
                &&& forall|k: int|
                    0 <= k < old(self).applied_rows().len() ==> final(self).applied_rows()[k]
                        == old(self).applied_rows()[k]
                &&& forall|k: int|
                    0 <= k < plan@.len() ==> final(self).applied_rows()[old(
                        self,
                    ).applied_rows().len() + k] == (AppliedMigrationV {
                        name: plan@[k]@,
                        applied_at: now,
                    })
                &&& final(self).initialized_spec()
            },
    {
        if !self.initialized {
            return Err(
                DatabaseError::MigrationError(String::from_str("the tracking table is missing")),
            );
        }
        let names = self.get_available_migrations();
        let ghost registered = registered_names();
        let ghost old_applied = self.applied_rows();
        let mut plan: Vec<String> = Vec::new();
        let n = names.len();
        let mut i: usize = 0;
        proof {
            assert(plan@.map(|i: int, s: String| s@) =~= Seq::<Seq<char>>::empty());
            assert(registered.take(0) =~= Seq::<Seq<char>>::empty());
        }
        while i < n
            invariant
                i <= n,
                n == registered.len(),
                names@.map(|i: int, s: String| s@) == registered,
                *self == *old(self),
                old_applied == self.applied_rows(),
                plan@.map(|i: int, s: String| s@) == pending_names(
                    registered.take(i as int),
                    old_applied,
                ),
            decreases n - i,
        {
            let ghost prefix = registered.take(i as int);
            proof {
                assert(registered.take(i + 1) =~= prefix.push(registered[i as int]));
                assert(registered.take(i + 1).drop_last() =~= prefix);
                assert(names@.map(|i: int, s: String| s@)[i as int] == registered[i as int]);
            }
            let ghost pre_plan = plan@.map(|i: int, s: String| s@);
            if !self.is_applied(names[i].as_str()) {
                plan.push(names[i].clone());
                proof {
                    assert(plan@.map(|i: int, s: String| s@) =~= pre_plan.push(
                        registered[i as int],
                    ));
                }
            }
            i += 1;
        }
        proof {
            assert(registered.take(n as int) =~= registered);
        }
        let mut out: Vec<String> = Vec::new();
        let m = plan.len();
        let mut j: usize = 0;
        while j < m
            invariant
                j <= m,
                m == plan@.len(),
                out@.len() == j,
                forall|k: int| 0 <= k < j ==> (#[trigger] out@[k])@ == plan@[k]@,
                self.applied_rows().len() == old_applied.len() + j,
                forall|k: int|
                    0 <= k < old_applied.len() ==> #[trigger] self.applied_rows()[k]
                        == old_applied[k],
                forall|k: int|
                    0 <= k < j ==> #[trigger] self.applied_rows()[old_applied.len() + k] == (
                    AppliedMigrationV { name: plan@[k]@, applied_at: now }),
                self.initialized,
            decreases m - j,
        {
            let ghost pre_rows = self.applied_rows();
            let name = plan[j].clone();
            out.push(name.clone());
            self.applied.push(AppliedMigration { name, applied_at: now });
            proof {
                assert(self.applied_rows() =~= pre_rows.push(
                    AppliedMigrationV { name: plan@[j as int]@, applied_at: now },
                ));
            }
            j += 1;
        }
        proof {
            assert(out@.map(|i: int, s: String| s@) =~= plan@.map(|i: int, s: String| s@));
        }
        Ok(out)
    }

    /// Un-record the most recently applied step and return its name: the
    /// step whose reverse schema change the caller must execute. A store
    /// with nothing applied is left unchanged and yields no name. Fails,
    /// changing nothing, when the tracking table was never ensured.
    pub fn rollback_last(&mut self) -> (r: Result<Option<String>, DatabaseError>)
        ensures
            old(self).initialized_spec() <==> r is Ok,
            r is Err ==> *final(self) == *old(self),
            r matches Err(e) ==> e matches DatabaseError::MigrationError(_),
            r matches Ok(opt) ==> final(self).initialized_spec(),
            r matches Ok(opt) ==> ((opt is None) <==> old(self).applied_rows().len() == 0),
            (r matches Ok(opt) && opt is None) ==> final(self).applied_rows() == old(
                self,
            ).applied_rows(),
            r matches Ok(opt) ==> (old(self).applied_rows().len() > 0 ==> (opt matches Some(name)
                && name@ == old(self).applied_rows().last().name && final(self).applied_rows()
                == without_name(old(self).applied_rows(), name@))),
    {
        if !self.initialized {
            return Err(
                DatabaseError::MigrationError(String::from_str("the tracking table is missing")),
            );
        }
        let n = self.applied.len();
        if n == 0 {
            return Ok(None);
        }
        let name = self.applied[n - 1].name.clone();
        let ghost old_applied = self.applied_rows();
        let mut retained: Vec<AppliedMigration> = Vec::new();
        let mut i: usize = 0;
        proof {
            assert(retained@.map(|i: int, a: AppliedMigration| a@) =~= Seq::<
                AppliedMigrationV,
            >::empty());
            assert(old_applied.take(0) =~= Seq::<AppliedMigrationV>::empty());
        }
        while i < n
            invariant
                i <= n,
                n == self.applied_rows().len(),
                *self == *old(self),
                old_applied == self.applied_rows(),
                name@ == old_applied.last().name,
                retained@.map(|i: int, a: AppliedMigration| a@) == without_name(
                    old_applied.take(i as int),
                    name@,
                ),
            decreases n - i,
        {
            let ghost prefix = old_applied.take(i as int);
            proof {
                assert(old_applied.take(i + 1) =~= prefix.push(old_applied[i as int]));
                assert(old_applied.take(i + 1).drop_last() =~= prefix);
            }
            let ghost pre = retained@.map(|i: int, a: AppliedMigration| a@);
            if !str_eq(self.applied[i].name.as_str(), name.as_str()) {
                let row = AppliedMigration {
                    name: self.applied[i].name.clone(),
                    applied_at: self.applied[i].applied_at,
                };
                assert(row@ == old_applied[i as int]);
                retained.push(row);
                proof {
                    assert(retained@.map(|i: int, a: AppliedMigration| a@) =~= pre.push(
                        old_applied[i as int],
                    ));
                }
            } else {
                proof {
                    assert(old_applied[i as int].name == name@);
                }
            }
            i += 1;
        }
        proof {
            assert(old_applied.take(n as int) =~= old_applied);
        }
        self.applied = retained;
        Ok(Some(name))
    }

    /// One status line per registered step, in registered order, each
    /// flagged with whether it is recorded as applied. Fails when the
    /// tracking table was never ensured.
    pub fn get_migration_status(&self) -> (r: Result<Vec<MigrationStatus>, DatabaseError>)
        ensures
            self.initialized_spec() <==> r is Ok,
            r matches Err(e) ==> e matches DatabaseError::MigrationError(_),
            r matches Ok(status) ==> {
                &&& status@.len() == registered_names().len()
                &&& forall|k: int|
                    0 <= k < status@.len() ==> (#[trigger] status@[k]).name@
                        == registered_names()[k] && status@[k].applied == name_applied(
                        self.applied_rows(),
                        registered_names()[k],
                    )
            },
    {
        if !self.initialized {
            return Err(
                DatabaseError::MigrationError(String::from_str("the tracking table is missing")),
            );
        }
        let names = self.get_available_migrations();
        let mut status: Vec<MigrationStatus> = Vec::new();
        let n = names.len();
        let mut i: usize = 0;
        while i < n
            invariant
                i <= n,
                n == registered_names().len(),
                names@.map(|i: int, s: String| s@) == registered_names(),
                status@.len() == i,
                forall|k: int|
                    0 <= k < i ==> (#[trigger] status@[k]).name@ == registered_names()[k]
                        && status@[k].applied == name_applied(
                        self.applied_rows(),
                        registered_names()[k],
                    ),
            decreases n - i,
        {
            proof {
                assert(names@.map(|i: int, s: String| s@)[i as int] == registered_names()[i as int]);
            }
            let applied = self.is_applied(names[i].as_str());
            status.push(MigrationStatus { name: names[i].clone(), applied });
            i += 1;
        }
        Ok(status)
    }
}

} // verus!
