//! The role-to-permission association store: join rows keyed by a serial
//! identifier, with the (role, permission) pair unique, and the joins it
//! answers — the permissions of a role, the roles holding a permission, and
//! the de-duplicated permissions a user reaches through their roles.
//!
//! The store keeps no cross-table referential invariant: a pair naming an
//! identifier no role or permission row carries is inserted all the same,
//! and the joins simply never produce it. The data model enforces
//! referential existence only through the one-time checks the services
//! make at association time.

use vstd::prelude::*;

use crate::error::DatabaseError;
use crate::listing::page_slice;
use crate::permissions::{
    perm_ids_distinct, perm_views, perms_sorted_by_name, sorted_insert_perm, PermissionRepository,
};
use crate::records::{
    PaginatedRecords, PermissionRecord, PermissionRecordV, RolePermissionRecord,
    RolePermissionRecordMutation, RolePermissionRecordV, RoleRecord, RoleRecordV, UserRoleRecordV,
};
use crate::roles::{
    role_ids_distinct, role_views, roles_sorted_by_name, sorted_insert_role, RoleRepository,
};
use crate::user_roles::UserRoleRepository;

verus! {

broadcast use vstd::seq_lib::group_to_multiset_ensures;

/// The views of a sequence of association rows.
pub open spec fn rp_views(s: Seq<RolePermissionRecord>) -> Seq<RolePermissionRecordV> {
    s.map(|i: int, u: RolePermissionRecord| u@)
}

/// Some row joins this role to this permission.
pub open spec fn role_perm_pair_present(
    rows: Seq<RolePermissionRecordV>,
    role_id: int,
    permission_id: int,
) -> bool {
    exists|i: int|
        0 <= i < rows.len() && rows[i].role_id == role_id && rows[i].permission_id
            == permission_id
}

/// The index of the row joining this role to this permission.
pub open spec fn rp_idx_by_pair(
    rows: Seq<RolePermissionRecordV>,
    role_id: int,
    permission_id: int,
) -> int {
    choose|i: int|
        0 <= i < rows.len() && rows[i].role_id == role_id && rows[i].permission_id
            == permission_id
}

/// Some row carries this identifier.
pub open spec fn rp_id_present(rows: Seq<RolePermissionRecordV>, id: int) -> bool {
    exists|i: int| 0 <= i < rows.len() && rows[i].id == id
}

/// The index of the row carrying this identifier (meaningful when present).
pub open spec fn rp_idx_by_id(rows: Seq<RolePermissionRecordV>, id: int) -> int {
    choose|i: int| 0 <= i < rows.len() && rows[i].id == id
}

/// The (role, permission) pair order: by role identifier, then permission
/// identifier.
pub open spec fn rp_pair_le(a: RolePermissionRecordV, b: RolePermissionRecordV) -> bool {
    a.role_id < b.role_id || (a.role_id == b.role_id && a.permission_id <= b.permission_id)
}

/// Each row's pair is at most its successor's: the listing order.
pub open spec fn rp_sorted_by_pair(s: Seq<RolePermissionRecordV>) -> bool {
    forall|i: int| 0 <= i && i + 1 < s.len() ==> rp_pair_le(#[trigger] s[i], s[i + 1])
}

/// The subsequence of permission rows the role holds through the
/// associations, in permission-table order.
pub open spec fn perms_of_role(
    perms: Seq<PermissionRecordV>,
    assocs: Seq<RolePermissionRecordV>,
    role_id: int,
) -> Seq<PermissionRecordV>
    decreases perms.len(),
{
    if perms.len() == 0 {
        Seq::empty()
    } else {
        let rest = perms_of_role(perms.drop_last(), assocs, role_id);
        if role_perm_pair_present(assocs, role_id, perms.last().id) {
            rest.push(perms.last())
        } else {
            rest
        }
    }
}

/// The subsequence of role rows holding the permission through the
/// associations, in role-table order.
pub open spec fn roles_with_perm(
    roles: Seq<RoleRecordV>,
    assocs: Seq<RolePermissionRecordV>,
    permission_id: int,
) -> Seq<RoleRecordV>
    decreases roles.len(),
{
    if roles.len() == 0 {
        Seq::empty()
    } else {
        let rest = roles_with_perm(roles.drop_last(), assocs, permission_id);
        if role_perm_pair_present(assocs, roles.last().id, permission_id) {
            rest.push(roles.last())
        } else {
            rest
        }
    }
}

/// The user reaches the permission: some membership row joins the user to
/// a role, and some association row joins that role to the permission.
pub open spec fn user_reaches_perm(
    memberships: Seq<UserRoleRecordV>,
    assocs: Seq<RolePermissionRecordV>,
    user_id: int,
    permission_id: int,
) -> bool {
    exists|i: int|
        0 <= i < memberships.len() && (#[trigger] memberships[i]).user_id == user_id
            && role_perm_pair_present(assocs, memberships[i].role_id, permission_id)
}

/// The subsequence of permission rows the user reaches, in
/// permission-table order; each permission appears at most once however
/// many roles grant it.
pub open spec fn user_reachable_perms(
    perms: Seq<PermissionRecordV>,
    memberships: Seq<UserRoleRecordV>,
    assocs: Seq<RolePermissionRecordV>,
    user_id: int,
) -> Seq<PermissionRecordV>
    decreases perms.len(),
{
    if perms.len() == 0 {
        Seq::empty()
    } else {
        let rest = user_reachable_perms(perms.drop_last(), memberships, assocs, user_id);
        if user_reaches_perm(memberships, assocs, user_id, perms.last().id) {
            rest.push(perms.last())
        } else {
            rest
        }
    }
}

/// A row is among the permissions a user reaches exactly when it is a row
/// of the permission table and the user reaches its identifier.
pub proof fn lemma_user_reachable_perms_membership(
    perms: Seq<PermissionRecordV>,
    memberships: Seq<UserRoleRecordV>,
    assocs: Seq<RolePermissionRecordV>,
    user_id: int,
)
    ensures
        forall|v: PermissionRecordV|
            #[trigger] user_reachable_perms(perms, memberships, assocs, user_id).contains(v)
                <==> exists|i: int|
                0 <= i < perms.len() && perms[i] == v && user_reaches_perm(
                    memberships,
                    assocs,
                    user_id,
                    v.id,
                ),
    decreases perms.len(),
{
    let out = user_reachable_perms(perms, memberships, assocs, user_id);
    if perms.len() == 0 {
        assert forall|v: PermissionRecordV| !(#[trigger] out.contains(v)) by {
            assert(out.len() == 0);
        }
    } else {
        let front = perms.drop_last();
        let rest = user_reachable_perms(front, memberships, assocs, user_id);
        lemma_user_reachable_perms_membership(front, memberships, assocs, user_id);
        assert forall|v: PermissionRecordV| #[trigger] out.contains(v) implies exists|i: int|
            0 <= i < perms.len() && perms[i] == v && user_reaches_perm(
                memberships,
                assocs,
                user_id,
                v.id,
            ) by {
            if user_reaches_perm(memberships, assocs, user_id, perms.last().id) {
                assert(out == rest.push(perms.last()));
                let k = choose|k: int| 0 <= k < out.len() && out[k] == v;
                if k == out.len() - 1 {
                    assert(perms[perms.len() - 1] == v);
                } else {
                    assert(rest.contains(v));
                    let i = choose|i: int|
                        0 <= i < front.len() && front[i] == v && user_reaches_perm(
                            memberships,
                            assocs,
                            user_id,
                            v.id,
                        );
                    assert(perms[i] == v);
                }
            } else {
                assert(out == rest);
                let i = choose|i: int|
                    0 <= i < front.len() && front[i] == v && user_reaches_perm(
                        memberships,
                        assocs,
                        user_id,
                        v.id,
                    );
                assert(perms[i] == v);
            }
        }
        assert forall|v: PermissionRecordV|
            (exists|i: int|
                0 <= i < perms.len() && perms[i] == v && user_reaches_perm(
                    memberships,
                    assocs,
                    user_id,
                    v.id,
                )) implies #[trigger] out.contains(v) by {
            let i = choose|i: int|
                0 <= i < perms.len() && perms[i] == v && user_reaches_perm(
                    memberships,
                    assocs,
                    user_id,
                    v.id,
                );
            if i == perms.len() - 1 {
                assert(out == rest.push(perms.last()));
                assert(out[out.len() - 1] == v);
            } else {
                assert(front[i] == v);
                assert(rest.contains(v));
                let k = choose|k: int| 0 <= k < rest.len() && rest[k] == v;
                if user_reaches_perm(memberships, assocs, user_id, perms.last().id) {
                    assert(out == rest.push(perms.last()));
                    assert(out[k] == v);
                } else {
                    assert(out == rest);
                }
            }
        }
    }
}

/// The position before the first association whose pair exceeds the given
/// one.
fn rp_insert_pos(out: &Vec<RolePermissionRecord>, row: &RolePermissionRecord) -> (p: usize)
    ensures
        p <= out@.len(),
        forall|k: int| 0 <= k < p ==> rp_pair_le(rp_views(out@)[k], row@),
        p < out@.len() ==> rp_pair_le(row@, rp_views(out@)[p as int]),
{
    let n = out.len();
    let mut p: usize = 0;
    while p < n
        invariant
            p <= n,
            n == out@.len(),
            forall|k: int| 0 <= k < p ==> rp_pair_le(rp_views(out@)[k], row@),
        decreases n - p,
    {
        let a = &out[p];
        let le = a.role_id < row.role_id || (a.role_id == row.role_id && a.permission_id
            <= row.permission_id);
        if !le {
            return p;
        }
        p += 1;
    }
    p
}

/// Insert an association row into a pair-sorted vector, keeping it sorted;
/// the contents gain exactly that row.
fn sorted_insert_rp(out: &mut Vec<RolePermissionRecord>, row: RolePermissionRecord)
    requires
        rp_sorted_by_pair(rp_views(old(out)@)),
    ensures
        rp_sorted_by_pair(rp_views(final(out)@)),
        rp_views(final(out)@).to_multiset() == rp_views(old(out)@).to_multiset().insert(row@),
        final(out)@.len() == old(out)@.len() + 1,
{
    let p = rp_insert_pos(out, &row);
    let ghost old_vec = out@;
    let ghost old_map = rp_views(out@);
    out.insert(p, row);
    proof {
        old_vec.insert_ensures(p as int, row);
        old_map.insert_ensures(p as int, row@);
        assert(rp_views(out@) =~= old_map.insert(p as int, row@));
        let s = rp_views(out@);
        assert forall|i: int| 0 <= i && i + 1 < s.len() implies rp_pair_le(
            #[trigger] s[i],
            s[i + 1],
        ) by {
            if i + 1 < p {
                assert(s[i] == old_map[i] && s[i + 1] == old_map[i + 1]);
            } else if i + 1 == p {
                assert(s[i] == old_map[i] && s[i + 1] == row@);
            } else if i == p {
                assert(s[i] == row@ && s[i + 1] == old_map[i]);
            } else {
                assert(s[i] == old_map[i - 1] && s[i + 1] == old_map[i]);
            }
        }
    }
}

/// The role-to-permission association store.
pub struct RolePermissionRepository {
    role_permissions: Vec<RolePermissionRecord>,
    next_id: i32,
}

impl RolePermissionRepository {
    /// The rows, in table (identifier) order.
    pub closed spec fn rows(&self) -> Seq<RolePermissionRecordV> {
        rp_views(self.role_permissions@)
    }

    /// The identifier the next insert will receive.
    pub closed spec fn next_id_spec(&self) -> int {
        self.next_id as int
    }

    /// The store's invariant: positive identifiers, strictly increasing,
    /// all below the next free identifier; (role, permission) pairs unique.
    pub open spec fn wf(&self) -> bool {
        &&& 1 <= self.next_id_spec()
        &&& forall|i: int|
            0 <= i < self.rows().len() ==> 1 <= (#[trigger] self.rows()[i]).id
                < self.next_id_spec()
        &&& forall|i: int, j: int|
            0 <= i < j < self.rows().len() ==> (#[trigger] self.rows()[i]).id < (
            #[trigger] self.rows()[j]).id
        &&& forall|i: int, j: int|
            0 <= i < j < self.rows().len() ==> !((#[trigger] self.rows()[i]).role_id == (
            #[trigger] self.rows()[j]).role_id && self.rows()[i].permission_id
                == self.rows()[j].permission_id)
    }

    /// An empty store.
    pub fn new() -> (r: Self)
        ensures
            r.wf(),
            r.rows() == Seq::<RolePermissionRecordV>::empty(),
            r.next_id_spec() == 1,
    {
        let r = RolePermissionRepository { role_permissions: Vec::new(), next_id: 1 };
        proof {
            assert(r.rows() =~= Seq::<RolePermissionRecordV>::empty());
        }
        r
    }

    /// How many rows the store holds.
    pub fn row_count(&self) -> (n: usize)
        ensures
            n == self.rows().len(),
    {
        self.role_permissions.len()
    }

    /// The row at this position of the table order.
    pub fn row_at(&self, i: usize) -> (r: &RolePermissionRecord)
        requires
            i < self.rows().len(),
        ensures
            r@ == self.rows()[i as int],
    {
        &self.role_permissions[i]
    }

    /// Look an association up by its (role, permission) pair.
    pub fn find_by_role_and_permission(&self, role_id: i32, permission_id: i32) -> (r: Option<
        RolePermissionRecord,
    >)
        requires
            self.wf(),
        ensures
            r is Some <==> role_perm_pair_present(
                self.rows(),
                role_id as int,
                permission_id as int,
            ),
            r matches Some(u) ==> u@ == self.rows()[rp_idx_by_pair(
                self.rows(),
                role_id as int,
                permission_id as int,
            )] && u@.role_id == role_id as int && u@.permission_id == permission_id as int,
    {
        let n = self.role_permissions.len();
        let mut i: usize = 0;
        while i < n
            invariant
                self.wf(),
                i <= n,
                n == self.rows().len(),
                forall|k: int|
                    0 <= k < i ==> !((#[trigger] self.rows()[k]).role_id == role_id as int
                        && self.rows()[k].permission_id == permission_id as int),
            decreases n - i,
        {
            if self.role_permissions[i].role_id == role_id && self.role_permissions[i].permission_id
                == permission_id {
                proof {
                    assert(self.rows()[i as int].role_id == role_id as int);
                    assert(self.rows()[i as int].permission_id == permission_id as int);
                    let k = rp_idx_by_pair(self.rows(), role_id as int, permission_id as int);
                    assert(0 <= k < self.rows().len() && self.rows()[k].role_id == role_id as int
                        && self.rows()[k].permission_id == permission_id as int);
                    if k != i as int {
                        assert(false);
                    }
                }
                return Some(self.role_permissions[i].duplicate());
            }
            i += 1;
        }
        None
    }

    /// The permissions this role holds, ordered by name.
    #[verifier::rlimit(60)]
    pub fn find_permissions_by_role_id(&self, role_id: i32, permissions: &PermissionRepository) -> (r:
        Vec<PermissionRecord>)
        requires
            self.wf(),
            permissions.wf(),
        ensures
            perms_sorted_by_name(perm_views(r@)),
            perm_views(r@).to_multiset() == perms_of_role(
                permissions.rows(),
                self.rows(),
                role_id as int,
            ).to_multiset(),
            perm_ids_distinct(perm_views(r@)),
    {
        let n = permissions.row_count();
        let mut out: Vec<PermissionRecord> = Vec::new();
        proof {
            assert(perm_views(out@) =~= Seq::<PermissionRecordV>::empty());
            assert(permissions.rows().take(0) =~= Seq::<PermissionRecordV>::empty());
        }
        let mut i: usize = 0;
        while i < n
            invariant
                self.wf(),
                permissions.wf(),
                i <= n,
                n == permissions.rows().len(),
                perms_sorted_by_name(perm_views(out@)),
                perm_views(out@).to_multiset() == perms_of_role(
                    permissions.rows().take(i as int),
                    self.rows(),
                    role_id as int,
                ).to_multiset(),
                perm_ids_distinct(perm_views(out@)),
                i < n ==> forall|k: int|
                    0 <= k < perm_views(out@).len() ==> (#[trigger] perm_views(out@)[k]).id
                        < permissions.rows()[i as int].id,
            decreases n - i,
        {
            let ghost prefix = permissions.rows().take(i as int);
            proof {
                assert(permissions.rows().take(i + 1) =~= prefix.push(
                    permissions.rows()[i as int],
                ));
                assert(permissions.rows().take(i + 1).drop_last() =~= prefix);
            }
            let row = permissions.row_at(i);
            let ghost pre_insert = perm_views(out@);
            if self.find_by_role_and_permission(role_id, row.id).is_some() {
                sorted_insert_perm(&mut out, row.duplicate());
                proof {
                    if i + 1 < n {
                        assert forall|k: int| 0 <= k < perm_views(out@).len() implies (
                        #[trigger] perm_views(out@)[k]).id < permissions.rows()[i as int + 1].id by {
                            let v = perm_views(out@)[k];
                            assert(permissions.rows()[i as int].id < permissions.rows()[i as int
                                + 1].id);
                            if v != permissions.rows()[i as int] {
                                assert(pre_insert.contains(v));
                                let t = choose|t: int|
                                    0 <= t < pre_insert.len() && pre_insert[t] == v;
                                assert(pre_insert[t].id < permissions.rows()[i as int].id);
                            }
                        }
                    }
                }
            } else {
                proof {
                    if i + 1 < n {
                        assert(permissions.rows()[i as int].id < permissions.rows()[i as int
                            + 1].id);
                    }
                }
            }
            i += 1;
        }
        proof {
            assert(permissions.rows().take(n as int) =~= permissions.rows());
        }
        out
    }

    /// The roles holding this permission, ordered by name.
    #[verifier::rlimit(60)]
    pub fn find_roles_by_permission_id(&self, permission_id: i32, roles: &RoleRepository) -> (r:
        Vec<RoleRecord>)
        requires
            self.wf(),
            roles.wf(),
        ensures
            roles_sorted_by_name(role_views(r@)),
            role_views(r@).to_multiset() == roles_with_perm(
                roles.rows(),
                self.rows(),
                permission_id as int,
            ).to_multiset(),
            role_ids_distinct(role_views(r@)),
    {
        let n = roles.row_count();
        let mut out: Vec<RoleRecord> = Vec::new();
        proof {
            assert(role_views(out@) =~= Seq::<RoleRecordV>::empty());
            assert(roles.rows().take(0) =~= Seq::<RoleRecordV>::empty());
        }
        let mut i: usize = 0;
        while i < n
            invariant
                self.wf(),
                roles.wf(),
                i <= n,
                n == roles.rows().len(),
                roles_sorted_by_name(role_views(out@)),
                role_views(out@).to_multiset() == roles_with_perm(
                    roles.rows().take(i as int),
                    self.rows(),
                    permission_id as int,
                ).to_multiset(),
                role_ids_distinct(role_views(out@)),
                i < n ==> forall|k: int|
                    0 <= k < role_views(out@).len() ==> (#[trigger] role_views(out@)[k]).id
                        < roles.rows()[i as int].id,
            decreases n - i,
        {
            let ghost prefix = roles.rows().take(i as int);
            proof {
                assert(roles.rows().take(i + 1) =~= prefix.push(roles.rows()[i as int]));
                assert(roles.rows().take(i + 1).drop_last() =~= prefix);
            }
            let row = roles.row_at(i);
            let ghost pre_insert = role_views(out@);
            if self.find_by_role_and_permission(row.id, permission_id).is_some() {
                sorted_insert_role(&mut out, row.duplicate());
                proof {
                    if i + 1 < n {
                        assert forall|k: int| 0 <= k < role_views(out@).len() implies (
                        #[trigger] role_views(out@)[k]).id < roles.rows()[i as int + 1].id by {
                            let v = role_views(out@)[k];
                            assert(roles.rows()[i as int].id < roles.rows()[i as int + 1].id);
                            if v != roles.rows()[i as int] {
                                assert(pre_insert.contains(v));
                                let t = choose|t: int|
                                    0 <= t < pre_insert.len() && pre_insert[t] == v;
                                assert(pre_insert[t].id < roles.rows()[i as int].id);
                            }
                        }
                    }
                }
            } else {
                proof {
                    if i + 1 < n {
                        assert(roles.rows()[i as int].id < roles.rows()[i as int + 1].id);
                    }
                }
            }
            i += 1;
        }
        proof {
            assert(roles.rows().take(n as int) =~= roles.rows());
        }
        out
    }

    /// Remove the association joining this role to this permission;
    /// removing an absent pair succeeds and changes nothing.
    pub fn remove_permission_from_role(&mut self, role_id: i32, permission_id: i32) -> (r: Result<
        (),
        DatabaseError,
    >)
        requires
            old(self).wf(),
        ensures
            final(self).wf(),
            final(self).next_id_spec() == old(self).next_id_spec(),
            r is Ok,
            role_perm_pair_present(old(self).rows(), role_id as int, permission_id as int)
                ==> final(self).rows() == old(self).rows().remove(
                rp_idx_by_pair(old(self).rows(), role_id as int, permission_id as int),
            ),
            !role_perm_pair_present(old(self).rows(), role_id as int, permission_id as int)
                ==> *final(self) == *old(self),
    {
        let n = self.role_permissions.len();
        let mut i: usize = 0;
        while i < n
            invariant
                self.wf(),
                i <= n,
                n == self.rows().len(),
                *self == *old(self),
                forall|k: int|
                    0 <= k < i ==> !((#[trigger] self.rows()[k]).role_id == role_id as int
                        && self.rows()[k].permission_id == permission_id as int),
            decreases n - i,
        {
            if self.role_permissions[i].role_id == role_id && self.role_permissions[i].permission_id
                == permission_id {
                proof {
                    assert(self.rows()[i as int].role_id == role_id as int);
                    assert(self.rows()[i as int].permission_id == permission_id as int);
                    let k = rp_idx_by_pair(self.rows(), role_id as int, permission_id as int);
                    assert(0 <= k < self.rows().len() && self.rows()[k].role_id == role_id as int
                        && self.rows()[k].permission_id == permission_id as int);
                    if k != i as int {
                        assert(false);
                    }
                }
                let ghost old_rows = self.rows();
                self.role_permissions.remove(i);
                proof {
                    assert(self.rows() =~= old_rows.remove(i as int));
                }
                return Ok(());
            }
            i += 1;
        }
        Ok(())
    }

    /// Whether this user reaches this permission through some role.
    pub fn reaches(&self, user_roles: &UserRoleRepository, user_id: i32, permission_id: i32) -> (r:
        bool)
        requires
            self.wf(),
            user_roles.wf(),
        ensures
            r == user_reaches_perm(
                user_roles.rows(),
                self.rows(),
                user_id as int,
                permission_id as int,
            ),
    {
        let n = user_roles.row_count();
        let mut i: usize = 0;
        while i < n
            invariant
                self.wf(),
                user_roles.wf(),
                i <= n,
                n == user_roles.rows().len(),
                forall|k: int|
                    0 <= k < i ==> !((#[trigger] user_roles.rows()[k]).user_id == user_id as int
                        && role_perm_pair_present(
                        self.rows(),
                        user_roles.rows()[k].role_id,
                        permission_id as int,
                    )),
            decreases n - i,
        {
            let membership = user_roles.row_at(i);
            if membership.user_id == user_id {
                if self.find_by_role_and_permission(membership.role_id, permission_id).is_some() {
                    proof {
                        assert(user_roles.rows()[i as int].user_id == user_id as int);
                        assert(role_perm_pair_present(
                            self.rows(),
                            user_roles.rows()[i as int].role_id,
                            permission_id as int,
                        ));
                    }
                    return true;
                }
            }
            i += 1;
        }
        false
    }

    /// The de-duplicated permissions this user reaches through any of
    /// their roles, ordered by name: each permission appears exactly once
    /// however many roles grant it.
    #[verifier::rlimit(60)]
    pub fn find_user_permissions(
        &self,
        user_id: i32,
        user_roles: &UserRoleRepository,
        permissions: &PermissionRepository,
    ) -> (r: Vec<PermissionRecord>)
        requires
            self.wf(),
            user_roles.wf(),
            permissions.wf(),
        ensures
            perms_sorted_by_name(perm_views(r@)),
            perm_views(r@).to_multiset() == user_reachable_perms(
                permissions.rows(),
                user_roles.rows(),
                self.rows(),
                user_id as int,
            ).to_multiset(),
            perm_ids_distinct(perm_views(r@)),
    {
        let n = permissions.row_count();
        let mut out: Vec<PermissionRecord> = Vec::new();
        proof {
            assert(perm_views(out@) =~= Seq::<PermissionRecordV>::empty());
            assert(permissions.rows().take(0) =~= Seq::<PermissionRecordV>::empty());
        }
        let mut i: usize = 0;
        while i < n
            invariant
                self.wf(),
                user_roles.wf(),
                permissions.wf(),
                i <= n,
                n == permissions.rows().len(),
                perms_sorted_by_name(perm_views(out@)),
                perm_views(out@).to_multiset() == user_reachable_perms(
                    permissions.rows().take(i as int),
                    user_roles.rows(),
                    self.rows(),
                    user_id as int,
                ).to_multiset(),
                perm_ids_distinct(perm_views(out@)),
                i < n ==> forall|k: int|
                    0 <= k < perm_views(out@).len() ==> (#[trigger] perm_views(out@)[k]).id
                        < permissions.rows()[i as int].id,
            decreases n - i,
        {
            let ghost prefix = permissions.rows().take(i as int);
            proof {
                assert(permissions.rows().take(i + 1) =~= prefix.push(
                    permissions.rows()[i as int],
                ));
                assert(permissions.rows().take(i + 1).drop_last() =~= prefix);
            }
            let row = permissions.row_at(i);
            let ghost pre_insert = perm_views(out@);
            if self.reaches(user_roles, user_id, row.id) {
                sorted_insert_perm(&mut out, row.duplicate());
                proof {
                    if i + 1 < n {
                        assert forall|k: int| 0 <= k < perm_views(out@).len() implies (
                        #[trigger] perm_views(out@)[k]).id < permissions.rows()[i as int + 1].id by {
                            let v = perm_views(out@)[k];
                            assert(permissions.rows()[i as int].id < permissions.rows()[i as int
                                + 1].id);
                            if v != permissions.rows()[i as int] {
                                assert(pre_insert.contains(v));
                                let t = choose|t: int|
                                    0 <= t < pre_insert.len() && pre_insert[t] == v;
                                assert(pre_insert[t].id < permissions.rows()[i as int].id);
                            }
                        }
                    }
                }
            } else {
                proof {
                    if i + 1 < n {
                        assert(permissions.rows()[i as int].id < permissions.rows()[i as int
                            + 1].id);
                    }
                }
            }
            i += 1;
        }
        proof {
            assert(permissions.rows().take(n as int) =~= permissions.rows());
        }
        out
    }

    /// Look an association up by its identifier.
    pub fn find_by_id(&self, id: i32) -> (r: Option<RolePermissionRecord>)
        requires
            self.wf(),
        ensures
            r is Some <==> rp_id_present(self.rows(), id as int),
            r matches Some(u) ==> u@ == self.rows()[rp_idx_by_id(self.rows(), id as int)]
                && u@.id == id as int,
    {
        let n = self.role_permissions.len();
        let mut i: usize = 0;
        while i < n
            invariant
                self.wf(),
                i <= n,
                n == self.rows().len(),
                forall|k: int| 0 <= k < i ==> (#[trigger] self.rows()[k]).id != id as int,
            decreases n - i,
        {
            if self.role_permissions[i].id == id {
                proof {
                    assert(self.rows()[i as int].id == id as int);
                    let k = rp_idx_by_id(self.rows(), id as int);
                    assert(0 <= k < self.rows().len() && self.rows()[k].id == id as int);
                    if k != i as int {
                        assert(self.rows()[k].id != self.rows()[i as int].id);
                    }
                }
                return Some(self.role_permissions[i].duplicate());
            }
            i += 1;
        }
        None
    }

    /// Insert a new association row. Fails, leaving the store unchanged,
    /// when the (role, permission) pair already exists (the schema's
    /// unique constraint) or the identifier space is exhausted.
    pub fn create(&mut self, record: RolePermissionRecordMutation, now: u64) -> (r: Result<
        RolePermissionRecord,
        DatabaseError,
    >)
        requires
            old(self).wf(),
        ensures
            final(self).wf(),
            final(self).next_id_spec() >= old(self).next_id_spec(),
            match r {
                Ok(u) => {
                    &&& !role_perm_pair_present(
                        old(self).rows(),
                        record.role_id as int,
                        record.permission_id as int,
                    )
                    &&& old(self).next_id_spec() < i32::MAX
                    &&& u@ == (RolePermissionRecordV {
                        id: old(self).next_id_spec(),
                        role_id: record.role_id as int,
                        permission_id: record.permission_id as int,
                        created_at: Some(now),
                    })
                    &&& final(self).rows() == old(self).rows().push(u@)
                    &&& final(self).next_id_spec() == old(self).next_id_spec() + 1
                },
                Err(e) => {
                    &&& role_perm_pair_present(
                        old(self).rows(),
                        record.role_id as int,
                        record.permission_id as int,
                    ) || old(self).next_id_spec() == i32::MAX
                    &&& *final(self) == *old(self)
                    &&& e matches DatabaseError::ConnectionError(_)
                },
            },
    {
        if self.next_id == i32::MAX {
            return Err(
                DatabaseError::ConnectionError(String::from_str("identifier space exhausted")),
            );
        }
        let n = self.role_permissions.len();
        let mut i: usize = 0;
        while i < n
            invariant
                self.wf(),
                i <= n,
                n == self.rows().len(),
                forall|k: int|
                    0 <= k < i ==> !((#[trigger] self.rows()[k]).role_id == record.role_id as int
                        && self.rows()[k].permission_id == record.permission_id as int),
            decreases n - i,
        {
            if self.role_permissions[i].role_id == record.role_id
                && self.role_permissions[i].permission_id == record.permission_id {
                proof {
                    assert(self.rows()[i as int].role_id == record.role_id as int);
                    assert(self.rows()[i as int].permission_id == record.permission_id as int);
                }
                return Err(
                    DatabaseError::ConnectionError(
                        String::from_str("unique constraint violated: role_permissions pair"),
                    ),
                );
            }
            i += 1;
        }
        let row = RolePermissionRecord {
            id: self.next_id,
            role_id: record.role_id,
            permission_id: record.permission_id,
            created_at: Some(now),
        };
        let out = row.duplicate();
        let ghost old_rows = self.rows();
        self.role_permissions.push(row);
        self.next_id = self.next_id + 1;
        proof {
            assert(self.rows() =~= old_rows.push(out@));
        }
        Ok(out)
    }

    /// Re-point the association carrying this identifier at a new (role,
    /// permission) pair. Fails, leaving the store unchanged, when no row
    /// carries it or another row already joins that pair.
    pub fn update(&mut self, id: i32, record: RolePermissionRecordMutation) -> (r: Result<
        RolePermissionRecord,
        DatabaseError,
    >)
        requires
            old(self).wf(),
        ensures
            final(self).wf(),
            final(self).next_id_spec() == old(self).next_id_spec(),
            match r {
                Ok(u) => {
                    &&& rp_id_present(old(self).rows(), id as int)
                    &&& u@ == (RolePermissionRecordV {
                        id: id as int,
                        role_id: record.role_id as int,
                        permission_id: record.permission_id as int,
                        created_at: old(self).rows()[rp_idx_by_id(
                            old(self).rows(),
                            id as int,
                        )].created_at,
                    })
                    &&& final(self).rows() == old(self).rows().update(
                        rp_idx_by_id(old(self).rows(), id as int),
                        u@,
                    )
                },
                Err(e) => {
                    &&& (!rp_id_present(old(self).rows(), id as int) || (exists|j: int|
                        0 <= j < old(self).rows().len() && (#[trigger] old(self).rows()[j]).role_id
                            == record.role_id as int && old(self).rows()[j].permission_id
                            == record.permission_id as int && old(self).rows()[j].id
                            != id as int))
                    &&& *final(self) == *old(self)
                    &&& e matches DatabaseError::ConnectionError(_)
                },
            },
    {
        let n = self.role_permissions.len();
        let mut idx: usize = 0;
        let mut found = false;
        let mut i: usize = 0;
        while i < n
            invariant
                self.wf(),
                i <= n,
                n == self.rows().len(),
                !found ==> forall|k: int| 0 <= k < i ==> (#[trigger] self.rows()[k]).id != id as int,
                found ==> idx < i && self.rows()[idx as int].id == id as int,
            decreases n - i,
        {
            if self.role_permissions[i].id == id {
                idx = i;
                found = true;
                proof {
                    assert(self.rows()[i as int].id == id as int);
                }
            }
            i += 1;
        }
        if !found {
            return Err(
                DatabaseError::ConnectionError(String::from_str("no row with this identifier")),
            );
        }
        proof {
            let k = rp_idx_by_id(self.rows(), id as int);
            assert(0 <= k < self.rows().len() && self.rows()[k].id == id as int);
            if k != idx as int {
                assert(self.rows()[k].id != self.rows()[idx as int].id);
            }
        }
        let mut j: usize = 0;
        while j < n
            invariant
                self.wf(),
                j <= n,
                n == self.rows().len(),
                idx < n,
                forall|k: int|
                    0 <= k < j && (#[trigger] self.rows()[k]).id != id as int ==> !(
                    self.rows()[k].role_id == record.role_id as int && self.rows()[k].permission_id
                        == record.permission_id as int),
                self.rows()[idx as int].id == id as int,
            decreases n - j,
        {
            if j != idx && self.role_permissions[j].role_id == record.role_id
                && self.role_permissions[j].permission_id == record.permission_id {
                proof {
                    assert(self.rows()[j as int].role_id == record.role_id as int);
                    assert(self.rows()[j as int].permission_id == record.permission_id as int);
                    assert(self.rows()[j as int].id != id as int);
                }
                return Err(
                    DatabaseError::ConnectionError(
                        String::from_str("unique constraint violated: role_permissions pair"),
                    ),
                );
            }
            j += 1;
        }
        let created_at = self.role_permissions[idx].created_at;
        let row = RolePermissionRecord {
            id,
            role_id: record.role_id,
            permission_id: record.permission_id,
            created_at,
        };
        let out = row.duplicate();
        let ghost old_rows = self.rows();
        self.role_permissions[idx] = row;
        proof {
            assert(self.rows() =~= old_rows.update(idx as int, out@));
        }
        Ok(out)
    }

    /// Remove the row carrying this identifier; removing an absent
    /// identifier succeeds and changes nothing.
    pub fn delete(&mut self, id: i32) -> (r: Result<(), DatabaseError>)
        requires
            old(self).wf(),
        ensures
            final(self).wf(),
            final(self).next_id_spec() == old(self).next_id_spec(),
            r is Ok,
            rp_id_present(old(self).rows(), id as int) ==> final(self).rows() == old(
                self,
            ).rows().remove(rp_idx_by_id(old(self).rows(), id as int)),
            !rp_id_present(old(self).rows(), id as int) ==> *final(self) == *old(self),
    {
        let n = self.role_permissions.len();
        let mut i: usize = 0;
        while i < n
            invariant
                self.wf(),
                i <= n,
                n == self.rows().len(),
                *self == *old(self),
                forall|k: int| 0 <= k < i ==> (#[trigger] self.rows()[k]).id != id as int,
            decreases n - i,
        {
            if self.role_permissions[i].id == id {
                proof {
                    assert(self.rows()[i as int].id == id as int);
                    let k = rp_idx_by_id(self.rows(), id as int);
                    assert(0 <= k < self.rows().len() && self.rows()[k].id == id as int);
                    if k != i as int {
                        assert(self.rows()[k].id != self.rows()[i as int].id);
                    }
                }
                let ghost old_rows = self.rows();
                self.role_permissions.remove(i);
                proof {
                    assert(self.rows() =~= old_rows.remove(i as int));
                }
                return Ok(());
            }
            i += 1;
        }
        Ok(())
    }

    /// One page of the listing ordered by the (role, permission) pair: the
    /// page's slice of a pair-sorted arrangement of the table, with the
    /// total count.
    pub fn paginate(&self, page: u64, limit: u64) -> (r: Result<
        PaginatedRecords<RolePermissionRecord>,
        DatabaseError,
    >)
        requires
            self.wf(),
            1 <= page,
            (page - 1) * limit <= u64::MAX,
        ensures
            r matches Ok(p) ==> {
                &&& p.total == self.rows().len()
                &&& p.page == page
                &&& p.limit == limit
                &&& exists|q: Seq<RolePermissionRecordV>|
                    {
                        &&& #[trigger] rp_sorted_by_pair(q)
                        &&& q.to_multiset() == self.rows().to_multiset()
                        &&& rp_views(p.records@) == page_slice(q, page as int, limit as int)
                    }
            },
            r is Ok,
    {
        let n = self.role_permissions.len();
        let mut sorted: Vec<RolePermissionRecord> = Vec::new();
        proof {
            assert(rp_views(sorted@) =~= Seq::<RolePermissionRecordV>::empty());
            assert(self.rows().take(0) =~= Seq::<RolePermissionRecordV>::empty());
        }
        let mut i: usize = 0;
        while i < n
            invariant
                self.wf(),
                i <= n,
                n == self.rows().len(),
                rp_sorted_by_pair(rp_views(sorted@)),
                rp_views(sorted@).to_multiset() == self.rows().take(i as int).to_multiset(),
                sorted@.len() == i,
            decreases n - i,
        {
            let ghost prefix = self.rows().take(i as int);
            sorted_insert_rp(&mut sorted, self.role_permissions[i].duplicate());
            proof {
                assert(self.rows().take(i + 1) =~= prefix.push(self.rows()[i as int]));
            }
            i += 1;
        }
        proof {
            assert(self.rows().take(n as int) =~= self.rows());
        }
        let offset = (page - 1) * limit;
        let start: usize = if offset > n as u64 {
            n
        } else {
            offset as usize
        };
        let remaining = n - start;
        let take: usize = if limit > remaining as u64 {
            remaining
        } else {
            limit as usize
        };
        let mut records: Vec<RolePermissionRecord> = Vec::new();
        let mut j: usize = 0;
        while j < take
            invariant
                j <= take,
                sorted@.len() == n,
                start + take <= n,
                records@.len() == j,
                forall|k: int|
                    0 <= k < j ==> (#[trigger] records@[k])@ == rp_views(sorted@)[start + k],
            decreases take - j,
        {
            let row = sorted[start + j].duplicate();
            records.push(row);
            j += 1;
        }
        proof {
            assert(rp_views(records@) =~= page_slice(rp_views(sorted@), page as int, limit as int));
        }
        Ok(PaginatedRecords { records, total: n as u64, page, limit })
    }
}

} // verus!
