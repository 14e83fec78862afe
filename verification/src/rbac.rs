//! The authorization service: creating roles and permissions, granting and
//! revoking role-permission and user-role associations (idempotently: a
//! pair already present is skipped silently, a pair absent is removed
//! silently), and answering which permissions a user holds.

use vstd::prelude::*;

use crate::error::ApplicationError;
use crate::permissions::{
    perm_ids_distinct, perm_name_taken, perm_views, perms_sorted_by_name, resource_action_taken,
    PermissionRepository,
};
use crate::records::{
    opt_str_view, PermissionRecord, PermissionRecordMutation, PermissionRecordV, RoleRecord,
    RoleRecordMutation, RolePermissionRecord, RolePermissionRecordMutation, RolePermissionRecordV,
    RoleRecordV, UserRoleRecord, UserRoleRecordMutation, UserRoleRecordV,
};
use crate::role_permissions::{
    role_perm_pair_present, rp_idx_by_pair, rp_views, user_reachable_perms, user_reaches_perm,
    RolePermissionRepository,
};
use crate::roles::{
    role_id_present, role_ids_distinct, role_name_taken, role_views, roles_sorted_by_name,
    RoleRepository,
};
use crate::user_roles::{
    ur_idx_by_pair, ur_views, user_role_pair_present, UserRoleRepository,
};

verus! {

broadcast use vstd::seq_lib::group_to_multiset_ensures;

/// The association rows after granting each permission of the list to the
/// role in order (`.0`), and the rows newly created by that pass (`.1`):
/// a pair already present when its turn comes is skipped silently.
pub open spec fn grant_perms_outcome(
    rows: Seq<RolePermissionRecordV>,
    next_id: int,
    role_id: int,
    permission_ids: Seq<i32>,
    now: u64,
) -> (Seq<RolePermissionRecordV>, Seq<RolePermissionRecordV>)
    decreases permission_ids.len(),
{
    if permission_ids.len() == 0 {
        (rows, Seq::empty())
    } else {
        let prev = grant_perms_outcome(rows, next_id, role_id, permission_ids.drop_last(), now);
        let pid = permission_ids.last() as int;
        if role_perm_pair_present(prev.0, role_id, pid) {
            prev
        } else {
            let row = RolePermissionRecordV {
                id: next_id + prev.1.len(),
                role_id: role_id,
                permission_id: pid,
                created_at: Some(now),
            };
            (prev.0.push(row), prev.1.push(row))
        }
    }
}

/// Granting a list of pairs that are all already present changes nothing
/// and creates nothing.
pub proof fn lemma_grant_perms_all_present(
    rows: Seq<RolePermissionRecordV>,
    next_id: int,
    role_id: int,
    permission_ids: Seq<i32>,
    now: u64,
)
    requires
        forall|k: int|
            0 <= k < permission_ids.len() ==> role_perm_pair_present(
                rows,
                role_id,
                #[trigger] permission_ids[k] as int,
            ),
    ensures
        grant_perms_outcome(rows, next_id, role_id, permission_ids, now) == (
            rows,
            Seq::<RolePermissionRecordV>::empty(),
        ),
    decreases permission_ids.len(),
{
    if permission_ids.len() > 0 {
        assert(forall|k: int|
            0 <= k < permission_ids.drop_last().len() ==> permission_ids.drop_last()[k]
                == permission_ids[k]);
        lemma_grant_perms_all_present(rows, next_id, role_id, permission_ids.drop_last(), now);
    }
}

/// The membership rows after granting each role of the list to the user in
/// order (`.0`), and the rows newly created by that pass (`.1`).
pub open spec fn grant_roles_outcome(
    rows: Seq<UserRoleRecordV>,
    next_id: int,
    user_id: int,
    role_ids: Seq<i32>,
    now: u64,
) -> (Seq<UserRoleRecordV>, Seq<UserRoleRecordV>)
    decreases role_ids.len(),
{
    if role_ids.len() == 0 {
        (rows, Seq::empty())
    } else {
        let prev = grant_roles_outcome(rows, next_id, user_id, role_ids.drop_last(), now);
        let rid = role_ids.last() as int;
        if user_role_pair_present(prev.0, user_id, rid) {
            prev
        } else {
            let row = UserRoleRecordV {
                id: next_id + prev.1.len(),
                user_id: user_id,
                role_id: rid,
                created_at: Some(now),
            };
            (prev.0.push(row), prev.1.push(row))
        }
    }
}

/// Granting a list of memberships that are all already present changes
/// nothing and creates nothing.
pub proof fn lemma_grant_roles_all_present(
    rows: Seq<UserRoleRecordV>,
    next_id: int,
    user_id: int,
    role_ids: Seq<i32>,
    now: u64,
)
    requires
        forall|k: int|
            0 <= k < role_ids.len() ==> user_role_pair_present(
                rows,
                user_id,
                #[trigger] role_ids[k] as int,
            ),
    ensures
        grant_roles_outcome(rows, next_id, user_id, role_ids, now) == (
            rows,
            Seq::<UserRoleRecordV>::empty(),
        ),
    decreases role_ids.len(),
{
    if role_ids.len() > 0 {
        assert(forall|k: int|
            0 <= k < role_ids.drop_last().len() ==> role_ids.drop_last()[k] == role_ids[k]);
        lemma_grant_roles_all_present(rows, next_id, user_id, role_ids.drop_last(), now);
    }
}

/// The association rows after revoking each permission of the list from
/// the role in order; a pair absent when its turn comes is skipped
/// silently.
pub open spec fn revoke_perms_rows(
    rows: Seq<RolePermissionRecordV>,
    role_id: int,
    permission_ids: Seq<i32>,
) -> Seq<RolePermissionRecordV>
    decreases permission_ids.len(),
{
    if permission_ids.len() == 0 {
        rows
    } else {
        let prev = revoke_perms_rows(rows, role_id, permission_ids.drop_last());
        let pid = permission_ids.last() as int;
        if role_perm_pair_present(prev, role_id, pid) {
            prev.remove(rp_idx_by_pair(prev, role_id, pid))
        } else {
            prev
        }
    }
}

/// Revoking a list of pairs of which none is present changes nothing.
pub proof fn lemma_revoke_perms_all_absent(
    rows: Seq<RolePermissionRecordV>,
    role_id: int,
    permission_ids: Seq<i32>,
)
    requires
        forall|k: int|
            0 <= k < permission_ids.len() ==> !role_perm_pair_present(
                rows,
                role_id,
                #[trigger] permission_ids[k] as int,
            ),
    ensures
        revoke_perms_rows(rows, role_id, permission_ids) == rows,
    decreases permission_ids.len(),
{
    if permission_ids.len() > 0 {
        assert(forall|k: int|
            0 <= k < permission_ids.drop_last().len() ==> permission_ids.drop_last()[k]
                == permission_ids[k]);
        lemma_revoke_perms_all_absent(rows, role_id, permission_ids.drop_last());
    }
}

/// The membership rows after revoking each role of the list from the user
/// in order; a pair absent when its turn comes is skipped silently.
pub open spec fn revoke_roles_rows(
    rows: Seq<UserRoleRecordV>,
    user_id: int,
    role_ids: Seq<i32>,
) -> Seq<UserRoleRecordV>
    decreases role_ids.len(),
{
    if role_ids.len() == 0 {
        rows
    } else {
        let prev = revoke_roles_rows(rows, user_id, role_ids.drop_last());
        let rid = role_ids.last() as int;
        if user_role_pair_present(prev, user_id, rid) {
            prev.remove(ur_idx_by_pair(prev, user_id, rid))
        } else {
            prev
        }
    }
}

/// Revoking a list of memberships of which none is present changes
/// nothing.
pub proof fn lemma_revoke_roles_all_absent(
    rows: Seq<UserRoleRecordV>,
    user_id: int,
    role_ids: Seq<i32>,
)
    requires
        forall|k: int|
            0 <= k < role_ids.len() ==> !user_role_pair_present(
                rows,
                user_id,
                #[trigger] role_ids[k] as int,
            ),
    ensures
        revoke_roles_rows(rows, user_id, role_ids) == rows,
    decreases role_ids.len(),
{
    if role_ids.len() > 0 {
        assert(forall|k: int|
            0 <= k < role_ids.drop_last().len() ==> role_ids.drop_last()[k] == role_ids[k]);
        lemma_revoke_roles_all_absent(rows, user_id, role_ids.drop_last());
    }
}

/// Create a role. Fails with `InvalidInput` exactly when the name is
/// already taken, changing nothing; otherwise, unless storage fails, the
/// store gains the returned row.
pub fn create_role(
    name: String,
    description: Option<String>,
    now: u64,
    roles: &mut RoleRepository,
) -> (r: Result<RoleRecord, ApplicationError>)
    requires
        old(roles).wf(),
    ensures
        final(roles).wf(),
        (r matches Err(ApplicationError::InvalidInput(_))) <==> role_name_taken(
            old(roles).rows(),
            name@,
        ),
        r is Err ==> *final(roles) == *old(roles),
        r matches Ok(rec) ==> {
            &&& !role_name_taken(old(roles).rows(), name@)
            &&& rec@ == (RoleRecordV {
                id: old(roles).next_id_spec(),
                name: name@,
                description: opt_str_view(description),
                created_at: Some(now),
                updated_at: Some(now),
            })
            &&& final(roles).rows() == old(roles).rows().push(rec@)
            &&& final(roles).next_id_spec() == old(roles).next_id_spec() + 1
        },
        !role_name_taken(old(roles).rows(), name@) && old(roles).next_id_spec() < i32::MAX ==> r
            is Ok,
        r matches Err(e) ==> (e matches ApplicationError::InvalidInput(_) || e matches
            ApplicationError::DatabaseError(_)),
{
    if roles.find_by_name(&name).is_some() {
        let message = String::from_str("Role with name '").concat(name.as_str()).concat(
            "' already exists",
        );
        return Err(ApplicationError::InvalidInput(message));
    }
    let mutation = RoleRecordMutation { name, description };
    match roles.create(mutation, now) {
        Ok(rec) => Ok(rec),
        Err(e) => Err(ApplicationError::DatabaseError(e)),
    }
}

/// Create a permission. Fails with `InvalidInput` exactly when the name is
/// already taken, or the resource is set and the (resource, action) pair
/// is already scoped; otherwise, unless storage fails, the store gains the
/// returned row.
pub fn create_permission(
    name: String,
    resource: Option<String>,
    action: String,
    now: u64,
    permissions: &mut PermissionRepository,
) -> (r: Result<PermissionRecord, ApplicationError>)
    requires
        old(permissions).wf(),
    ensures
        final(permissions).wf(),
        (r matches Err(ApplicationError::InvalidInput(_))) <==> (perm_name_taken(
            old(permissions).rows(),
            name@,
        ) || (resource matches Some(res) && resource_action_taken(
            old(permissions).rows(),
            res@,
            action@,
        ))),
        r is Err ==> *final(permissions) == *old(permissions),
        r matches Ok(rec) ==> {
            &&& !perm_name_taken(old(permissions).rows(), name@)
            &&& rec@ == (PermissionRecordV {
                id: old(permissions).next_id_spec(),
                name: name@,
                resource: opt_str_view(resource),
                action: action@,
                created_at: Some(now),
                updated_at: Some(now),
            })
            &&& final(permissions).rows() == old(permissions).rows().push(rec@)
            &&& final(permissions).next_id_spec() == old(permissions).next_id_spec() + 1
        },
        !perm_name_taken(old(permissions).rows(), name@) && !(resource matches Some(res)
            && resource_action_taken(old(permissions).rows(), res@, action@)) && old(
            permissions,
        ).next_id_spec() < i32::MAX ==> r is Ok,
        r matches Err(e) ==> (e matches ApplicationError::InvalidInput(_) || e matches
            ApplicationError::DatabaseError(_)),
{
    if permissions.find_by_name(&name).is_some() {
        let message = String::from_str("Permission with name '").concat(name.as_str()).concat(
            "' already exists",
        );
        return Err(ApplicationError::InvalidInput(message));
    }
    if let Some(res) = &resource {
        if permissions.find_by_resource_and_action(res, &action).is_some() {
            let message = String::from_str("Permission with resource '").concat(
                res.as_str(),
            ).concat("' and action '").concat(action.as_str()).concat("' already exists");
            return Err(ApplicationError::InvalidInput(message));
        }
    }
    let mutation = PermissionRecordMutation { name, resource, action };
    match permissions.create(mutation, now) {
        Ok(rec) => Ok(rec),
        Err(e) => Err(ApplicationError::DatabaseError(e)),
    }
}

/// Grant each listed permission to the role, in order, skipping pairs
/// already present; the returned rows are exactly the newly created
/// associations. Fails with `InvalidInput` exactly when the role does not
/// exist, changing nothing. Granting only pairs already present is a no-op
/// that returns the empty list.
pub fn associate_permissions_to_role(
    role_id: i32,
    permission_ids: Vec<i32>,
    now: u64,
    roles: &RoleRepository,
    role_permissions: &mut RolePermissionRepository,
) -> (r: Result<Vec<RolePermissionRecord>, ApplicationError>)
    requires
        roles.wf(),
        old(role_permissions).wf(),
    ensures
        final(role_permissions).wf(),
        (r matches Err(ApplicationError::InvalidInput(_))) <==> !role_id_present(
            roles.rows(),
            role_id as int,
        ),
        r matches Err(ApplicationError::InvalidInput(_)) ==> *final(role_permissions) == *old(
            role_permissions,
        ),
        r matches Ok(created) ==> {
            &&& role_id_present(roles.rows(), role_id as int)
            &&& final(role_permissions).rows() == grant_perms_outcome(
                old(role_permissions).rows(),
                old(role_permissions).next_id_spec(),
                role_id as int,
                permission_ids@,
                now,
            ).0
            &&& rp_views(created@) == grant_perms_outcome(
                old(role_permissions).rows(),
                old(role_permissions).next_id_spec(),
                role_id as int,
                permission_ids@,
                now,
            ).1
            &&& final(role_permissions).next_id_spec() == old(role_permissions).next_id_spec()
                + created@.len()
        },
        r matches Err(ApplicationError::DatabaseError(_)) ==> exists|k: int|
            0 <= k <= permission_ids@.len() && final(role_permissions).rows()
                == grant_perms_outcome(
                old(role_permissions).rows(),
                old(role_permissions).next_id_spec(),
                role_id as int,
                #[trigger] permission_ids@.take(k),
                now,
            ).0,
        r matches Err(e) ==> (e matches ApplicationError::InvalidInput(_) || e matches
            ApplicationError::DatabaseError(_)),
        role_id_present(roles.rows(), role_id as int) && (forall|k: int|
            0 <= k < permission_ids@.len() ==> role_perm_pair_present(
                old(role_permissions).rows(),
                role_id as int,
                #[trigger] permission_ids@[k] as int,
            )) ==> (r matches Ok(created) && created@.len() == 0
            && final(role_permissions).rows() == old(role_permissions).rows()
            && final(role_permissions).next_id_spec() == old(role_permissions).next_id_spec()),
        role_id_present(roles.rows(), role_id as int) && old(role_permissions).next_id_spec()
            + permission_ids@.len() <= i32::MAX ==> r is Ok,
{
    if roles.find_by_id(role_id).is_none() {
        return Err(
            ApplicationError::InvalidInput(
                String::from_str("Role with this id does not exist"),
            ),
        );
    }
    let ghost old_rows = role_permissions.rows();
    let ghost old_next = role_permissions.next_id_spec();
    let mut created: Vec<RolePermissionRecord> = Vec::new();
    let n = permission_ids.len();
    let mut i: usize = 0;
    proof {
        assert(permission_ids@.take(0) =~= Seq::<i32>::empty());
        assert(rp_views(created@) =~= Seq::<RolePermissionRecordV>::empty());
    }
    while i < n
        invariant
            roles.wf(),
            role_permissions.wf(),
            i <= n,
            n == permission_ids@.len(),
            role_id_present(roles.rows(), role_id as int),
            old_rows.len() <= role_permissions.rows().len(),
            forall|k: int|
                0 <= k < old_rows.len() ==> #[trigger] role_permissions.rows()[k] == old_rows[k],
            role_permissions.rows() == grant_perms_outcome(
                old_rows,
                old_next,
                role_id as int,
                permission_ids@.take(i as int),
                now,
            ).0,
            rp_views(created@) == grant_perms_outcome(
                old_rows,
                old_next,
                role_id as int,
                permission_ids@.take(i as int),
                now,
            ).1,
            role_permissions.next_id_spec() == old_next + created@.len(),
            created@.len() <= i,
            old(role_permissions).rows() == old_rows,
            old(role_permissions).next_id_spec() == old_next,
        decreases n - i,
    {
        let ghost prefix = permission_ids@.take(i as int);
        proof {
            assert(permission_ids@.take(i + 1) =~= prefix.push(permission_ids@[i as int]));
            assert(permission_ids@.take(i + 1).drop_last() =~= prefix);
        }
        let pid = permission_ids[i];
        if role_permissions.find_by_role_and_permission(role_id, pid).is_none() {
            let mutation = RolePermissionRecordMutation { role_id, permission_id: pid };
            let ghost pre_created = rp_views(created@);
            match role_permissions.create(mutation, now) {
                Ok(assoc) => {
                    created.push(assoc);
                    proof {
                        assert(rp_views(created@) =~= pre_created.push(
                            rp_views(created@).last(),
                        ));
                    }
                },
                Err(e) => {
                    proof {
                        assert(role_permissions.rows() == grant_perms_outcome(
                            old_rows,
                            old_next,
                            role_id as int,
                            permission_ids@.take(i as int),
                            now,
                        ).0);
                        if forall|k: int|
                            0 <= k < permission_ids@.len() ==> role_perm_pair_present(
                                old_rows,
                                role_id as int,
                                #[trigger] permission_ids@[k] as int,
                            ) {
                            assert(role_perm_pair_present(old_rows, role_id as int, pid as int));
                            let w = rp_idx_by_pair(old_rows, role_id as int, pid as int);
                            assert(role_permissions.rows()[w] == old_rows[w]);
                            assert(role_perm_pair_present(
                                role_permissions.rows(),
                                role_id as int,
                                pid as int,
                            ));
                            assert(false);
                        }
                        if old_next + permission_ids@.len() <= i32::MAX {
                            assert(!role_perm_pair_present(
                                role_permissions.rows(),
                                role_id as int,
                                pid as int,
                            ));
                            assert(role_permissions.next_id_spec() == i32::MAX);
                            assert(created@.len() <= i as int);
                            assert(false);
                        }
                    }
                    return Err(ApplicationError::DatabaseError(e));
                },
            }
        }
        i += 1;
    }
    proof {
        assert(permission_ids@.take(n as int) =~= permission_ids@);
        if role_id_present(roles.rows(), role_id as int) && (forall|k: int|
            0 <= k < permission_ids@.len() ==> role_perm_pair_present(
                old_rows,
                role_id as int,
                #[trigger] permission_ids@[k] as int,
            )) {
            lemma_grant_perms_all_present(
                old_rows,
                old_next,
                role_id as int,
                permission_ids@,
                now,
            );
            assert(rp_views(created@) =~= Seq::<RolePermissionRecordV>::empty());
            assert(created@.len() == 0);
        }
    }
    Ok(created)
}

/// Revoke each listed permission from the role, in order; a pair that was
/// never granted is skipped with no error and no state change. Fails with
/// `InvalidInput` exactly when the role does not exist, changing nothing.
pub fn remove_permissions_from_role(
    role_id: i32,
    permission_ids: Vec<i32>,
    roles: &RoleRepository,
    role_permissions: &mut RolePermissionRepository,
) -> (r: Result<(), ApplicationError>)
    requires
        roles.wf(),
        old(role_permissions).wf(),
    ensures
        final(role_permissions).wf(),
        final(role_permissions).next_id_spec() == old(role_permissions).next_id_spec(),
        (r matches Err(ApplicationError::InvalidInput(_))) <==> !role_id_present(
            roles.rows(),
            role_id as int,
        ),
        r is Err ==> *final(role_permissions) == *old(role_permissions),
        r is Ok <==> role_id_present(roles.rows(), role_id as int),
        r is Ok ==> final(role_permissions).rows() == revoke_perms_rows(
            old(role_permissions).rows(),
            role_id as int,
            permission_ids@,
        ),
        role_id_present(roles.rows(), role_id as int) && (forall|k: int|
            0 <= k < permission_ids@.len() ==> !role_perm_pair_present(
                old(role_permissions).rows(),
                role_id as int,
                #[trigger] permission_ids@[k] as int,
            )) ==> (r is Ok && final(role_permissions).rows() == old(role_permissions).rows()),
{
    if roles.find_by_id(role_id).is_none() {
        return Err(
            ApplicationError::InvalidInput(
                String::from_str("Role with this id does not exist"),
            ),
        );
    }
    let ghost old_rows = role_permissions.rows();
    let n = permission_ids.len();
    let mut i: usize = 0;
    proof {
        assert(permission_ids@.take(0) =~= Seq::<i32>::empty());
    }
    while i < n
        invariant
            roles.wf(),
            role_permissions.wf(),
            i <= n,
            n == permission_ids@.len(),
            role_id_present(roles.rows(), role_id as int),
            role_permissions.rows() == revoke_perms_rows(
                old_rows,
                role_id as int,
                permission_ids@.take(i as int),
            ),
            role_permissions.next_id_spec() == old(role_permissions).next_id_spec(),
            old(role_permissions).rows() == old_rows,
        decreases n - i,
    {
        let ghost prefix = permission_ids@.take(i as int);
        proof {
            assert(permission_ids@.take(i + 1) =~= prefix.push(permission_ids@[i as int]));
            assert(permission_ids@.take(i + 1).drop_last() =~= prefix);
        }
        let pid = permission_ids[i];
        let removed = role_permissions.remove_permission_from_role(role_id, pid);
        proof {
            assert(removed is Ok);
        }
        i += 1;
    }
    proof {
        assert(permission_ids@.take(n as int) =~= permission_ids@);
        if role_id_present(roles.rows(), role_id as int) && (forall|k: int|
            0 <= k < permission_ids@.len() ==> !role_perm_pair_present(
                old_rows,
                role_id as int,
                #[trigger] permission_ids@[k] as int,
            )) {
            lemma_revoke_perms_all_absent(old_rows, role_id as int, permission_ids@);
        }
    }
    Ok(())
}

/// Grant each listed role to the user, in order, skipping pairs already
/// present; the returned rows are exactly the newly created memberships.
/// The user's own existence is not checked before acting.
pub fn associate_roles_to_user(
    user_id: i32,
    role_ids: Vec<i32>,
    now: u64,
    user_roles: &mut UserRoleRepository,
) -> (r: Result<Vec<UserRoleRecord>, ApplicationError>)
    requires
        old(user_roles).wf(),
    ensures
        final(user_roles).wf(),
        r matches Ok(created) ==> {
            &&& final(user_roles).rows() == grant_roles_outcome(
                old(user_roles).rows(),
                old(user_roles).next_id_spec(),
                user_id as int,
                role_ids@,
                now,
            ).0
            &&& ur_views(created@) == grant_roles_outcome(
                old(user_roles).rows(),
                old(user_roles).next_id_spec(),
                user_id as int,
                role_ids@,
                now,
            ).1
            &&& final(user_roles).next_id_spec() == old(user_roles).next_id_spec()
                + created@.len()
        },
        r matches Err(e) ==> e matches ApplicationError::DatabaseError(_),
        r matches Err(ApplicationError::DatabaseError(_)) ==> exists|k: int|
            0 <= k <= role_ids@.len() && final(user_roles).rows() == grant_roles_outcome(
                old(user_roles).rows(),
                old(user_roles).next_id_spec(),
                user_id as int,
                #[trigger] role_ids@.take(k),
                now,
            ).0,
        (forall|k: int|
            0 <= k < role_ids@.len() ==> user_role_pair_present(
                old(user_roles).rows(),
                user_id as int,
                #[trigger] role_ids@[k] as int,
            )) ==> (r matches Ok(created) && created@.len() == 0 && final(user_roles).rows()
            == old(user_roles).rows() && final(user_roles).next_id_spec() == old(
            user_roles,
        ).next_id_spec()),
        old(user_roles).next_id_spec() + role_ids@.len() <= i32::MAX ==> r is Ok,
{
    let ghost old_rows = user_roles.rows();
    let ghost old_next = user_roles.next_id_spec();
    let mut created: Vec<UserRoleRecord> = Vec::new();
    let n = role_ids.len();
    let mut i: usize = 0;
    proof {
        assert(role_ids@.take(0) =~= Seq::<i32>::empty());
        assert(ur_views(created@) =~= Seq::<UserRoleRecordV>::empty());
    }
    while i < n
        invariant
            user_roles.wf(),
            i <= n,
            n == role_ids@.len(),
            old_rows.len() <= user_roles.rows().len(),
            forall|k: int|
                0 <= k < old_rows.len() ==> #[trigger] user_roles.rows()[k] == old_rows[k],
            user_roles.rows() == grant_roles_outcome(
                old_rows,
                old_next,
                user_id as int,
                role_ids@.take(i as int),
                now,
            ).0,
            ur_views(created@) == grant_roles_outcome(
                old_rows,
                old_next,
                user_id as int,
                role_ids@.take(i as int),
                now,
            ).1,
            user_roles.next_id_spec() == old_next + created@.len(),
            created@.len() <= i,
            old(user_roles).rows() == old_rows,
            old(user_roles).next_id_spec() == old_next,
        decreases n - i,
    {
        let ghost prefix = role_ids@.take(i as int);
        proof {
            assert(role_ids@.take(i + 1) =~= prefix.push(role_ids@[i as int]));
            assert(role_ids@.take(i + 1).drop_last() =~= prefix);
        }
        let rid = role_ids[i];
        if user_roles.find_by_user_and_role(user_id, rid).is_none() {
            let mutation = UserRoleRecordMutation { user_id, role_id: rid };
            let ghost pre_created = ur_views(created@);
            match user_roles.create(mutation, now) {
                Ok(membership) => {
                    created.push(membership);
                    proof {
                        assert(ur_views(created@) =~= pre_created.push(
                            ur_views(created@).last(),
                        ));
                    }
                },
                Err(e) => {
                    proof {
                        if forall|k: int|
                            0 <= k < role_ids@.len() ==> user_role_pair_present(
                                old_rows,
                                user_id as int,
                                #[trigger] role_ids@[k] as int,
                            ) {
                            assert(user_role_pair_present(old_rows, user_id as int, rid as int));
                            let w = ur_idx_by_pair(old_rows, user_id as int, rid as int);
                            assert(user_roles.rows()[w] == old_rows[w]);
                            assert(user_role_pair_present(
                                user_roles.rows(),
                                user_id as int,
                                rid as int,
                            ));
                            assert(false);
                        }
                        if old_next + role_ids@.len() <= i32::MAX {
                            assert(!user_role_pair_present(
                                user_roles.rows(),
                                user_id as int,
                                rid as int,
                            ));
                            assert(user_roles.next_id_spec() == i32::MAX);
                            assert(created@.len() <= i as int);
                            assert(false);
                        }
                    }
                    return Err(ApplicationError::DatabaseError(e));
                },
            }
        }
        i += 1;
    }
    proof {
        assert(role_ids@.take(n as int) =~= role_ids@);
        if (forall|k: int|
            0 <= k < role_ids@.len() ==> user_role_pair_present(
                old_rows,
                user_id as int,
                #[trigger] role_ids@[k] as int,
            )) {
            lemma_grant_roles_all_present(old_rows, old_next, user_id as int, role_ids@, now);
            assert(ur_views(created@) =~= Seq::<UserRoleRecordV>::empty());
            assert(created@.len() == 0);
        }
    }
    Ok(created)
}

/// Revoke each listed role from the user, in order; a pair that was never
/// granted is skipped with no error and no state change. Always succeeds.
pub fn remove_roles_from_user(
    user_id: i32,
    role_ids: Vec<i32>,
    user_roles: &mut UserRoleRepository,
) -> (r: Result<(), ApplicationError>)
    requires
        old(user_roles).wf(),
    ensures
        final(user_roles).wf(),
        final(user_roles).next_id_spec() == old(user_roles).next_id_spec(),
        r is Ok,
        final(user_roles).rows() == revoke_roles_rows(
            old(user_roles).rows(),
            user_id as int,
            role_ids@,
        ),
        (forall|k: int|
            0 <= k < role_ids@.len() ==> !user_role_pair_present(
                old(user_roles).rows(),
                user_id as int,
                #[trigger] role_ids@[k] as int,
            )) ==> final(user_roles).rows() == old(user_roles).rows(),
{
    let ghost old_rows = user_roles.rows();
    let n = role_ids.len();
    let mut i: usize = 0;
    proof {
        assert(role_ids@.take(0) =~= Seq::<i32>::empty());
    }
    while i < n
        invariant
            user_roles.wf(),
            i <= n,
            n == role_ids@.len(),
            user_roles.rows() == revoke_roles_rows(
                old_rows,
                user_id as int,
                role_ids@.take(i as int),
            ),
            user_roles.next_id_spec() == old(user_roles).next_id_spec(),
            old(user_roles).rows() == old_rows,
        decreases n - i,
    {
        let ghost prefix = role_ids@.take(i as int);
        proof {
            assert(role_ids@.take(i + 1) =~= prefix.push(role_ids@[i as int]));
            assert(role_ids@.take(i + 1).drop_last() =~= prefix);
        }
        let rid = role_ids[i];
        let removed = user_roles.remove_role_from_user(user_id, rid);
        proof {
            assert(removed is Ok);
        }
        i += 1;
    }
    proof {
        assert(role_ids@.take(n as int) =~= role_ids@);
        if (forall|k: int|
            0 <= k < role_ids@.len() ==> !user_role_pair_present(
                old_rows,
                user_id as int,
                #[trigger] role_ids@[k] as int,
            )) {
            lemma_revoke_roles_all_absent(old_rows, user_id as int, role_ids@);
        }
    }
    Ok(())
}

/// The roles this user holds, ordered by role name.
pub fn get_user_roles(
    user_id: i32,
    user_roles: &UserRoleRepository,
    roles: &RoleRepository,
) -> (r: Result<Vec<RoleRecord>, ApplicationError>)
    requires
        user_roles.wf(),
        roles.wf(),
    ensures
        r is Ok,
        r matches Ok(list) ==> {
            &&& roles_sorted_by_name(role_views(list@))
            &&& role_views(list@).to_multiset() == crate::user_roles::roles_held_by_user(
                roles.rows(),
                user_roles.rows(),
                user_id as int,
            ).to_multiset()
            &&& role_ids_distinct(role_views(list@))
        },
{
    Ok(user_roles.find_roles_by_user_id(user_id, roles))
}

/// The de-duplicated permissions this user reaches through their roles,
/// ordered by name: each permission appears exactly once however many
/// roles grant it.
pub fn get_user_permissions(
    user_id: i32,
    user_roles: &UserRoleRepository,
    role_permissions: &RolePermissionRepository,
    permissions: &PermissionRepository,
) -> (r: Result<Vec<PermissionRecord>, ApplicationError>)
    requires
        user_roles.wf(),
        role_permissions.wf(),
        permissions.wf(),
    ensures
        r is Ok,
        r matches Ok(list) ==> {
            &&& perms_sorted_by_name(perm_views(list@))
            &&& perm_views(list@).to_multiset() == user_reachable_perms(
                permissions.rows(),
                user_roles.rows(),
                role_permissions.rows(),
                user_id as int,
            ).to_multiset()
            &&& perm_ids_distinct(perm_views(list@))
        },
{
    Ok(role_permissions.find_user_permissions(user_id, user_roles, permissions))
}

/// Some permission row carries this name and is reachable by this user.
pub open spec fn user_has_perm_named(
    perms: Seq<PermissionRecordV>,
    memberships: Seq<UserRoleRecordV>,
    assocs: Seq<RolePermissionRecordV>,
    user_id: int,
    name: Seq<char>,
) -> bool {
    exists|i: int|
        0 <= i < perms.len() && (#[trigger] perms[i]).name == name && user_reaches_perm(
            memberships,
            assocs,
            user_id,
            perms[i].id,
        )
}

/// Some permission row scopes this action to this resource and is
/// reachable by this user.
pub open spec fn user_has_resource_perm(
    perms: Seq<PermissionRecordV>,
    memberships: Seq<UserRoleRecordV>,
    assocs: Seq<RolePermissionRecordV>,
    user_id: int,
    resource: Seq<char>,
    action: Seq<char>,
) -> bool {
    exists|i: int|
        0 <= i < perms.len() && (#[trigger] perms[i]).resource == Some(resource)
            && perms[i].action == action && user_reaches_perm(
            memberships,
            assocs,
            user_id,
            perms[i].id,
        )
}

/// Whether the user holds a permission of this name through any of their
/// roles; recomputed from the joins on every call.
#[verifier::rlimit(60)]
pub fn user_has_permission(
    user_id: i32,
    permission_name: &String,
    user_roles: &UserRoleRepository,
    role_permissions: &RolePermissionRepository,
    permissions: &PermissionRepository,
) -> (r: Result<bool, ApplicationError>)
    requires
        user_roles.wf(),
        role_permissions.wf(),
        permissions.wf(),
    ensures
        r is Ok,
        r matches Ok(b) ==> b == user_has_perm_named(
            permissions.rows(),
            user_roles.rows(),
            role_permissions.rows(),
            user_id as int,
            permission_name@,
        ),
{
    let list = role_permissions.find_user_permissions(user_id, user_roles, permissions);
    let ghost reach = user_reachable_perms(
        permissions.rows(),
        user_roles.rows(),
        role_permissions.rows(),
        user_id as int,
    );
    proof {
        crate::role_permissions::lemma_user_reachable_perms_membership(
            permissions.rows(),
            user_roles.rows(),
            role_permissions.rows(),
            user_id as int,
        );
    }
    let n = list.len();
    let mut i: usize = 0;
    while i < n
        invariant
            user_roles.wf(),
            role_permissions.wf(),
            permissions.wf(),
            i <= n,
            n == list@.len(),
            perm_views(list@).to_multiset() == reach.to_multiset(),
            reach == user_reachable_perms(
                permissions.rows(),
                user_roles.rows(),
                role_permissions.rows(),
                user_id as int,
            ),
            forall|v: PermissionRecordV|
                #[trigger] reach.contains(v) <==> exists|t: int|
                    0 <= t < permissions.rows().len() && permissions.rows()[t] == v
                        && user_reaches_perm(
                        user_roles.rows(),
                        role_permissions.rows(),
                        user_id as int,
                        v.id,
                    ),
            forall|k: int| 0 <= k < i ==> (#[trigger] perm_views(list@)[k]).name
                != permission_name@,
        decreases n - i,
    {
        if list[i].name == *permission_name {
            proof {
                let v = perm_views(list@)[i as int];
                assert(perm_views(list@).contains(v));
                assert(perm_views(list@).to_multiset().count(v) > 0);
                assert(reach.to_multiset().count(v) > 0);
                assert(reach.contains(v));
                let t = choose|t: int|
                    0 <= t < permissions.rows().len() && permissions.rows()[t] == v
                        && user_reaches_perm(
                        user_roles.rows(),
                        role_permissions.rows(),
                        user_id as int,
                        v.id,
                    );
                assert(permissions.rows()[t].name == permission_name@);
            }
            return Ok(true);
        }
        i += 1;
    }
    proof {
        if user_has_perm_named(
            permissions.rows(),
            user_roles.rows(),
            role_permissions.rows(),
            user_id as int,
            permission_name@,
        ) {
            let t = choose|t: int|
                0 <= t < permissions.rows().len() && (#[trigger] permissions.rows()[t]).name
                    == permission_name@ && user_reaches_perm(
                    user_roles.rows(),
                    role_permissions.rows(),
                    user_id as int,
                    permissions.rows()[t].id,
                );
            let v = permissions.rows()[t];
            assert(reach.contains(v));
            assert(reach.to_multiset().count(v) > 0);
            assert(perm_views(list@).to_multiset().count(v) > 0);
            assert(perm_views(list@).contains(v));
            let k = choose|k: int| 0 <= k < perm_views(list@).len() && perm_views(list@)[k] == v;
            assert(perm_views(list@)[k].name != permission_name@);
            assert(false);
        }
    }
    Ok(false)
}

/// Whether the user holds a permission scoping this action to this
/// resource through any of their roles; recomputed from the joins on
/// every call.
#[verifier::rlimit(60)]
pub fn user_has_resource_permission(
    user_id: i32,
    resource: &String,
    action: &String,
    user_roles: &UserRoleRepository,
    role_permissions: &RolePermissionRepository,
    permissions: &PermissionRepository,
) -> (r: Result<bool, ApplicationError>)
    requires
        user_roles.wf(),
        role_permissions.wf(),
        permissions.wf(),
    ensures
        r is Ok,
        r matches Ok(b) ==> b == user_has_resource_perm(
            permissions.rows(),
            user_roles.rows(),
            role_permissions.rows(),
            user_id as int,
            resource@,
            action@,
        ),
{
    let list = role_permissions.find_user_permissions(user_id, user_roles, permissions);
    let ghost reach = user_reachable_perms(
        permissions.rows(),
        user_roles.rows(),
        role_permissions.rows(),
        user_id as int,
    );
    proof {
        crate::role_permissions::lemma_user_reachable_perms_membership(
            permissions.rows(),
            user_roles.rows(),
            role_permissions.rows(),
            user_id as int,
        );
    }
    let n = list.len();
    let mut i: usize = 0;
    while i < n
        invariant
            user_roles.wf(),
            role_permissions.wf(),
            permissions.wf(),
            i <= n,
            n == list@.len(),
            perm_views(list@).to_multiset() == reach.to_multiset(),
            reach == user_reachable_perms(
                permissions.rows(),
                user_roles.rows(),
                role_permissions.rows(),
                user_id as int,
            ),
            forall|v: PermissionRecordV|
                #[trigger] reach.contains(v) <==> exists|t: int|
                    0 <= t < permissions.rows().len() && permissions.rows()[t] == v
                        && user_reaches_perm(
                        user_roles.rows(),
                        role_permissions.rows(),
                        user_id as int,
                        v.id,
                    ),
            forall|k: int|
                0 <= k < i ==> !((#[trigger] perm_views(list@)[k]).resource == Some(resource@)
                    && perm_views(list@)[k].action == action@),
        decreases n - i,
    {
        let matches_resource = match &list[i].resource {
            Some(res) => *res == *resource,
            None => false,
        };
        if matches_resource && list[i].action == *action {
            proof {
                let v = perm_views(list@)[i as int];
                assert(v.resource == Some(resource@) && v.action == action@);
                assert(perm_views(list@).contains(v));
                assert(perm_views(list@).to_multiset().count(v) > 0);
                assert(reach.to_multiset().count(v) > 0);
                assert(reach.contains(v));
                let t = choose|t: int|
                    0 <= t < permissions.rows().len() && permissions.rows()[t] == v
                        && user_reaches_perm(
                        user_roles.rows(),
                        role_permissions.rows(),
                        user_id as int,
                        v.id,
                    );
                assert(permissions.rows()[t].resource == Some(resource@));
            }
            return Ok(true);
        }
        proof {
            assert(!(perm_views(list@)[i as int].resource == Some(resource@) && perm_views(
                list@,
            )[i as int].action == action@));
        }
        i += 1;
    }
    proof {
        if user_has_resource_perm(
            permissions.rows(),
            user_roles.rows(),
            role_permissions.rows(),
            user_id as int,
            resource@,
            action@,
        ) {
            let t = choose|t: int|
                0 <= t < permissions.rows().len() && (#[trigger] permissions.rows()[t]).resource
                    == Some(resource@) && permissions.rows()[t].action == action@
                    && user_reaches_perm(
                    user_roles.rows(),
                    role_permissions.rows(),
                    user_id as int,
                    permissions.rows()[t].id,
                );
            let v = permissions.rows()[t];
            assert(reach.contains(v));
            assert(reach.to_multiset().count(v) > 0);
            assert(perm_views(list@).to_multiset().count(v) > 0);
            assert(perm_views(list@).contains(v));
            let k = choose|k: int| 0 <= k < perm_views(list@).len() && perm_views(list@)[k] == v;
            assert(!(perm_views(list@)[k].resource == Some(resource@) && perm_views(list@)[k].action
                == action@));
            assert(false);
        }
    }
    Ok(false)
}

/// The permissions this role holds, ordered by name.
pub fn get_role_permissions(
    role_id: i32,
    role_permissions: &RolePermissionRepository,
    permissions: &PermissionRepository,
) -> (r: Result<Vec<PermissionRecord>, ApplicationError>)
    requires
        role_permissions.wf(),
        permissions.wf(),
    ensures
        r is Ok,
        r matches Ok(list) ==> {
            &&& perms_sorted_by_name(perm_views(list@))
            &&& perm_views(list@).to_multiset() == crate::role_permissions::perms_of_role(
                permissions.rows(),
                role_permissions.rows(),
                role_id as int,
            ).to_multiset()
        },
{
    Ok(role_permissions.find_permissions_by_role_id(role_id, permissions))
}

} // verus!
