//! The user-to-role membership store: join rows keyed by a serial
//! identifier, with the (user, role) pair unique, and the joins it answers:
//! the roles a user holds and the users holding a role.
//!
//! The store keeps no cross-table referential invariant: a pair naming an
//! identifier no account or role row carries is inserted all the same, and
//! the joins simply never produce it.

use vstd::prelude::*;

use crate::error::DatabaseError;
use crate::listing::page_slice;
use crate::records::{
    PaginatedRecords, RoleRecord, RoleRecordV, UserRecord, UserRecordV, UserRoleRecord,
    UserRoleRecordMutation, UserRoleRecordV,
};
use crate::roles::{
    role_ids_distinct, role_views, roles_sorted_by_name, sorted_insert_role, RoleRepository,
};
use crate::strutil::{lemma_lex_le_total, lex_le, str_eq, str_le};
use crate::users::{user_id_present, user_views, UserRepository};

verus! {

broadcast use vstd::seq_lib::group_to_multiset_ensures;

/// The views of a sequence of membership rows.
pub open spec fn ur_views(s: Seq<UserRoleRecord>) -> Seq<UserRoleRecordV> {
    s.map(|i: int, u: UserRoleRecord| u@)
}

/// Some row joins this user to this role.
pub open spec fn user_role_pair_present(
    rows: Seq<UserRoleRecordV>,
    user_id: int,
    role_id: int,
) -> bool {
    exists|i: int|
        0 <= i < rows.len() && rows[i].user_id == user_id && rows[i].role_id == role_id
}

/// The index of the row joining this user to this role.
pub open spec fn ur_idx_by_pair(rows: Seq<UserRoleRecordV>, user_id: int, role_id: int) -> int {
    choose|i: int|
        0 <= i < rows.len() && rows[i].user_id == user_id && rows[i].role_id == role_id
}

/// Some row carries this identifier.
pub open spec fn ur_id_present(rows: Seq<UserRoleRecordV>, id: int) -> bool {
    exists|i: int| 0 <= i < rows.len() && rows[i].id == id
}

/// The index of the row carrying this identifier (meaningful when present).
pub open spec fn ur_idx_by_id(rows: Seq<UserRoleRecordV>, id: int) -> int {
    choose|i: int| 0 <= i < rows.len() && rows[i].id == id
}

/// The (user, role) pair order: by user identifier, then role identifier.
pub open spec fn ur_pair_le(a: UserRoleRecordV, b: UserRoleRecordV) -> bool {
    a.user_id < b.user_id || (a.user_id == b.user_id && a.role_id <= b.role_id)
}

/// Each row's pair is at most its successor's: the listing order.
pub open spec fn ur_sorted_by_pair(s: Seq<UserRoleRecordV>) -> bool {
    forall|i: int| 0 <= i && i + 1 < s.len() ==> ur_pair_le(#[trigger] s[i], s[i + 1])
}

/// The subsequence of role rows the user holds through the memberships, in
/// role-table order.
pub open spec fn roles_held_by_user(
    roles: Seq<RoleRecordV>,
    memberships: Seq<UserRoleRecordV>,
    user_id: int,
) -> Seq<RoleRecordV>
    decreases roles.len(),
{
    if roles.len() == 0 {
        Seq::empty()
    } else {
        let rest = roles_held_by_user(roles.drop_last(), memberships, user_id);
        if user_role_pair_present(memberships, user_id, roles.last().id) {
            rest.push(roles.last())
        } else {
            rest
        }
    }
}

/// The subsequence of account rows holding the role through the
/// memberships, in account-table order.
pub open spec fn users_holding_role(
    users: Seq<UserRecordV>,
    memberships: Seq<UserRoleRecordV>,
    role_id: int,
) -> Seq<UserRecordV>
    decreases users.len(),
{
    if users.len() == 0 {
        Seq::empty()
    } else {
        let rest = users_holding_role(users.drop_last(), memberships, role_id);
        if user_role_pair_present(memberships, users.last().id, role_id) {
            rest.push(users.last())
        } else {
            rest
        }
    }
}

/// The account-listing order: by first name, then last name.
pub open spec fn user_name_le(a: UserRecordV, b: UserRecordV) -> bool {
    if a.first_name == b.first_name {
        lex_le(a.last_name, b.last_name)
    } else {
        lex_le(a.first_name, b.first_name)
    }
}

/// Each account's name pair is at most its successor's.
pub open spec fn users_sorted_by_name(s: Seq<UserRecordV>) -> bool {
    forall|i: int| 0 <= i && i + 1 < s.len() ==> user_name_le(#[trigger] s[i], s[i + 1])
}

/// No two account rows share an identifier.
pub open spec fn user_ids_distinct(s: Seq<UserRecordV>) -> bool {
    forall|i: int, j: int| 0 <= i < j < s.len() ==> (#[trigger] s[i]).id != (#[trigger] s[j]).id
}

/// Decide the account-listing order of two account rows.
fn user_name_le_exec(a: &UserRecord, b: &UserRecord) -> (r: bool)
    ensures
        r == user_name_le(a@, b@),
{
    if str_eq(a.first_name.as_str(), b.first_name.as_str()) {
        str_le(a.last_name.as_str(), b.last_name.as_str())
    } else {
        str_le(a.first_name.as_str(), b.first_name.as_str())
    }
}

/// The position before the first account whose name pair exceeds the given
/// one.
fn user_insert_pos(out: &Vec<UserRecord>, row: &UserRecord) -> (p: usize)
    ensures
        p <= out@.len(),
        forall|k: int| 0 <= k < p ==> user_name_le(user_views(out@)[k], row@),
        p < out@.len() ==> user_name_le(row@, user_views(out@)[p as int]),
{
    let n = out.len();
    let mut p: usize = 0;
    while p < n
        invariant
            p <= n,
            n == out@.len(),
            forall|k: int| 0 <= k < p ==> user_name_le(user_views(out@)[k], row@),
        decreases n - p,
    {
        if !user_name_le_exec(&out[p], row) {
            proof {
                lemma_lex_le_total(out@[p as int].first_name@, row.first_name@);
                lemma_lex_le_total(out@[p as int].last_name@, row.last_name@);
            }
            return p;
        }
        p += 1;
    }
    p
}

/// Insert an account row into a name-sorted vector, keeping it sorted; the
/// contents gain exactly that row, and identifiers stay distinct when the
/// new one is fresh.
fn sorted_insert_user(out: &mut Vec<UserRecord>, row: UserRecord)
    requires
        users_sorted_by_name(user_views(old(out)@)),
    ensures
        users_sorted_by_name(user_views(final(out)@)),
        user_views(final(out)@).to_multiset() == user_views(old(out)@).to_multiset().insert(row@),
        final(out)@.len() == old(out)@.len() + 1,
        user_ids_distinct(user_views(old(out)@)) && !user_id_present(
            user_views(old(out)@),
            row@.id,
        ) ==> user_ids_distinct(user_views(final(out)@)),
        forall|k: int|
            0 <= k < user_views(final(out)@).len() ==> (#[trigger] user_views(final(out)@)[k])
                == row@ || user_views(old(out)@).contains(user_views(final(out)@)[k]),
{
    let p = user_insert_pos(out, &row);
    let ghost old_vec = out@;
    let ghost old_map = user_views(out@);
    out.insert(p, row);
    proof {
        old_vec.insert_ensures(p as int, row);
        old_map.insert_ensures(p as int, row@);
        assert(user_views(out@) =~= old_map.insert(p as int, row@));
        let s = user_views(out@);
        assert forall|i: int| 0 <= i && i + 1 < s.len() implies user_name_le(
            #[trigger] s[i],
            s[i + 1],
        ) by {
            if i + 1 < p {
                assert(s[i] == old_map[i] && s[i + 1] == old_map[i + 1]);
            } else if i + 1 == p {
                assert(s[i] == old_map[i] && s[i + 1] == row@);
            } else if i == p {
                assert(s[i] == row@ && s[i + 1] == old_map[i]);
            } else {
                assert(s[i] == old_map[i - 1] && s[i + 1] == old_map[i]);
            }
        }
        if user_ids_distinct(old_map) && !user_id_present(old_map, row@.id) {
            assert forall|i: int, j: int| 0 <= i < j < s.len() implies (#[trigger] s[i]).id != (
            #[trigger] s[j]).id by {
                let oi: int = if i < p {
                    i
                } else {
                    i - 1
                };
                let oj: int = if j < p {
                    j
                } else {
                    j - 1
                };
                if i == p {
                    assert(s[j] == old_map[oj]);
                } else if j == p {
                    assert(s[i] == old_map[oi]);
                } else {
                    assert(s[i] == old_map[oi] && s[j] == old_map[oj]);
                }
            }
        }
    }
}

/// The position before the first membership whose pair exceeds the given
/// one.
fn ur_insert_pos(out: &Vec<UserRoleRecord>, row: &UserRoleRecord) -> (p: usize)
    ensures
        p <= out@.len(),
        forall|k: int| 0 <= k < p ==> ur_pair_le(ur_views(out@)[k], row@),
        p < out@.len() ==> ur_pair_le(row@, ur_views(out@)[p as int]),
{
    let n = out.len();
    let mut p: usize = 0;
    while p < n
        invariant
            p <= n,
            n == out@.len(),
            forall|k: int| 0 <= k < p ==> ur_pair_le(ur_views(out@)[k], row@),
        decreases n - p,
    {
        let a = &out[p];
        let le = a.user_id < row.user_id || (a.user_id == row.user_id && a.role_id <= row.role_id);
        if !le {
            return p;
        }
        p += 1;
    }
    p
}

/// Insert a membership row into a pair-sorted vector, keeping it sorted;
/// the contents gain exactly that row.
fn sorted_insert_ur(out: &mut Vec<UserRoleRecord>, row: UserRoleRecord)
    requires
        ur_sorted_by_pair(ur_views(old(out)@)),
    ensures
        ur_sorted_by_pair(ur_views(final(out)@)),
        ur_views(final(out)@).to_multiset() == ur_views(old(out)@).to_multiset().insert(row@),
        final(out)@.len() == old(out)@.len() + 1,
{
    let p = ur_insert_pos(out, &row);
    let ghost old_vec = out@;
    let ghost old_map = ur_views(out@);
    out.insert(p, row);
    proof {
        old_vec.insert_ensures(p as int, row);
        old_map.insert_ensures(p as int, row@);
        assert(ur_views(out@) =~= old_map.insert(p as int, row@));
        let s = ur_views(out@);
        assert forall|i: int| 0 <= i && i + 1 < s.len() implies ur_pair_le(
            #[trigger] s[i],
            s[i + 1],
        ) by {
            if i + 1 < p {
                assert(s[i] == old_map[i] && s[i + 1] == old_map[i + 1]);
            } else if i + 1 == p {
                assert(s[i] == old_map[i] && s[i + 1] == row@);
            } else if i == p {
                assert(s[i] == row@ && s[i + 1] == old_map[i]);
            } else {
                assert(s[i] == old_map[i - 1] && s[i + 1] == old_map[i]);
            }
        }
    }
}

/// The user-to-role membership store.
pub struct UserRoleRepository {
    user_roles: Vec<UserRoleRecord>,
    next_id: i32,
}

impl UserRoleRepository {
    /// The rows, in table (identifier) order.
    pub closed spec fn rows(&self) -> Seq<UserRoleRecordV> {
        ur_views(self.user_roles@)
    }

    /// The identifier the next insert will receive.
    pub closed spec fn next_id_spec(&self) -> int {
        self.next_id as int
    }

    /// The store's invariant: positive identifiers, strictly increasing,
    /// all below the next free identifier; (user, role) pairs unique.
    pub open spec fn wf(&self) -> bool {
        &&& 1 <= self.next_id_spec()
        &&& forall|i: int|
            0 <= i < self.rows().len() ==> 1 <= (#[trigger] self.rows()[i]).id
                < self.next_id_spec()
        &&& forall|i: int, j: int|
            0 <= i < j < self.rows().len() ==> (#[trigger] self.rows()[i]).id < (
            #[trigger] self.rows()[j]).id
        &&& forall|i: int, j: int|
            0 <= i < j < self.rows().len() ==> !((#[trigger] self.rows()[i]).user_id == (
            #[trigger] self.rows()[j]).user_id && self.rows()[i].role_id == self.rows()[j].role_id)
    }

    /// An empty store.
    pub fn new() -> (r: Self)
        ensures
            r.wf(),
            r.rows() == Seq::<UserRoleRecordV>::empty(),
            r.next_id_spec() == 1,
    {
        let r = UserRoleRepository { user_roles: Vec::new(), next_id: 1 };
        proof {
            assert(r.rows() =~= Seq::<UserRoleRecordV>::empty());
        }
        r
    }

    /// How many rows the store holds.
    pub fn row_count(&self) -> (n: usize)
        ensures
            n == self.rows().len(),
    {
        self.user_roles.len()
    }

    /// The row at this position of the table order.
    pub fn row_at(&self, i: usize) -> (r: &UserRoleRecord)
        requires
            i < self.rows().len(),
        ensures
            r@ == self.rows()[i as int],
    {
        &self.user_roles[i]
    }

    /// Look a membership up by its (user, role) pair.
    pub fn find_by_user_and_role(&self, user_id: i32, role_id: i32) -> (r: Option<UserRoleRecord>)
        requires
            self.wf(),
        ensures
            r is Some <==> user_role_pair_present(self.rows(), user_id as int, role_id as int),
            r matches Some(u) ==> u@ == self.rows()[ur_idx_by_pair(
                self.rows(),
                user_id as int,
                role_id as int,
            )] && u@.user_id == user_id as int && u@.role_id == role_id as int,
    {
        let n = self.user_roles.len();
        let mut i: usize = 0;
        while i < n
            invariant
                self.wf(),
                i <= n,
                n == self.rows().len(),
                forall|k: int|
                    0 <= k < i ==> !((#[trigger] self.rows()[k]).user_id == user_id as int
                        && self.rows()[k].role_id == role_id as int),
            decreases n - i,
        {
            if self.user_roles[i].user_id == user_id && self.user_roles[i].role_id == role_id {
                proof {
                    assert(self.rows()[i as int].user_id == user_id as int);
                    assert(self.rows()[i as int].role_id == role_id as int);
                    let k = ur_idx_by_pair(self.rows(), user_id as int, role_id as int);
                    assert(0 <= k < self.rows().len() && self.rows()[k].user_id == user_id as int
                        && self.rows()[k].role_id == role_id as int);
                    if k != i as int {
                        assert(false);
                    }
                }
                return Some(self.user_roles[i].duplicate());
            }
            i += 1;
        }
        None
    }

    /// The roles this user holds, ordered by role name.
    #[verifier::rlimit(60)]
    pub fn find_roles_by_user_id(&self, user_id: i32, roles: &RoleRepository) -> (r: Vec<
        RoleRecord,
    >)
        requires
            self.wf(),
            roles.wf(),
        ensures
            roles_sorted_by_name(role_views(r@)),
            role_views(r@).to_multiset() == roles_held_by_user(
                roles.rows(),
                self.rows(),
                user_id as int,
            ).to_multiset(),
            role_ids_distinct(role_views(r@)),
    {
        let n = roles.row_count();
        let mut out: Vec<RoleRecord> = Vec::new();
        proof {
            assert(role_views(out@) =~= Seq::<RoleRecordV>::empty());
            assert(roles.rows().take(0) =~= Seq::<RoleRecordV>::empty());
        }
        let mut i: usize = 0;
        while i < n
            invariant
                self.wf(),
                roles.wf(),
                i <= n,
                n == roles.rows().len(),
                roles_sorted_by_name(role_views(out@)),
                role_views(out@).to_multiset() == roles_held_by_user(
                    roles.rows().take(i as int),
                    self.rows(),
                    user_id as int,
                ).to_multiset(),
                role_ids_distinct(role_views(out@)),
                i < n ==> forall|k: int|
                    0 <= k < role_views(out@).len() ==> (#[trigger] role_views(out@)[k]).id
                        < roles.rows()[i as int].id,
            decreases n - i,
        {
            let ghost prefix = roles.rows().take(i as int);
            proof {
                assert(roles.rows().take(i + 1) =~= prefix.push(roles.rows()[i as int]));
                assert(roles.rows().take(i + 1).drop_last() =~= prefix);
            }
            let row = roles.row_at(i);
            let ghost pre_insert = role_views(out@);
            if self.find_by_user_and_role(user_id, row.id).is_some() {
                sorted_insert_role(&mut out, row.duplicate());
                proof {
                    if i + 1 < n {
                        assert forall|k: int| 0 <= k < role_views(out@).len() implies (
                        #[trigger] role_views(out@)[k]).id < roles.rows()[i as int + 1].id by {
                            let v = role_views(out@)[k];
                            assert(roles.rows()[i as int].id < roles.rows()[i as int + 1].id);
                            if v != roles.rows()[i as int] {
                                assert(pre_insert.contains(v));
                                let t = choose|t: int|
                                    0 <= t < pre_insert.len() && pre_insert[t] == v;
                                assert(pre_insert[t].id < roles.rows()[i as int].id);
                            }
                        }
                    }
                }
            } else {
                proof {
                    if i + 1 < n {
                        assert(roles.rows()[i as int].id < roles.rows()[i as int + 1].id);
                    }
                }
            }
            i += 1;
        }
        proof {
            assert(roles.rows().take(n as int) =~= roles.rows());
        }
        out
    }

    /// The accounts holding this role, ordered by first then last name.
    #[verifier::rlimit(60)]
    pub fn find_users_by_role_id(&self, role_id: i32, users: &UserRepository) -> (r: Vec<
        UserRecord,
    >)
        requires
            self.wf(),
            users.wf(),
        ensures
            users_sorted_by_name(user_views(r@)),
            user_views(r@).to_multiset() == users_holding_role(
                users.rows(),
                self.rows(),
                role_id as int,
            ).to_multiset(),
            user_ids_distinct(user_views(r@)),
    {
        let n = users.row_count();
        let mut out: Vec<UserRecord> = Vec::new();
        proof {
            assert(user_views(out@) =~= Seq::<UserRecordV>::empty());
            assert(users.rows().take(0) =~= Seq::<UserRecordV>::empty());
        }
        let mut i: usize = 0;
        while i < n
            invariant
                self.wf(),
                users.wf(),
                i <= n,
                n == users.rows().len(),
                users_sorted_by_name(user_views(out@)),
                user_views(out@).to_multiset() == users_holding_role(
                    users.rows().take(i as int),
                    self.rows(),
                    role_id as int,
                ).to_multiset(),
                user_ids_distinct(user_views(out@)),
                i < n ==> forall|k: int|
                    0 <= k < user_views(out@).len() ==> (#[trigger] user_views(out@)[k]).id
                        < users.rows()[i as int].id,
            decreases n - i,
        {
            let ghost prefix = users.rows().take(i as int);
            proof {
                assert(users.rows().take(i + 1) =~= prefix.push(users.rows()[i as int]));
                assert(users.rows().take(i + 1).drop_last() =~= prefix);
            }
            let row = users.row_at(i);
            let ghost pre_insert = user_views(out@);
            if self.find_by_user_and_role(row.id, role_id).is_some() {
                sorted_insert_user(&mut out, row.duplicate());
                proof {
                    if i + 1 < n {
                        assert forall|k: int| 0 <= k < user_views(out@).len() implies (
                        #[trigger] user_views(out@)[k]).id < users.rows()[i as int + 1].id by {
                            let v = user_views(out@)[k];
                            assert(users.rows()[i as int].id < users.rows()[i as int + 1].id);
                            if v != users.rows()[i as int] {
                                assert(pre_insert.contains(v));
                                let t = choose|t: int|
                                    0 <= t < pre_insert.len() && pre_insert[t] == v;
                                assert(pre_insert[t].id < users.rows()[i as int].id);
                            }
                        }
                    }
                }
            } else {
                proof {
                    if i + 1 < n {
                        assert(users.rows()[i as int].id < users.rows()[i as int + 1].id);
                    }
                }
            }
            i += 1;
        }
        proof {
            assert(users.rows().take(n as int) =~= users.rows());
        }
        out
    }

    /// Remove the membership joining this user to this role; removing an
    /// absent pair succeeds and changes nothing.
    pub fn remove_role_from_user(&mut self, user_id: i32, role_id: i32) -> (r: Result<
        (),
        DatabaseError,
    >)
        requires
            old(self).wf(),
        ensures
            final(self).wf(),
            final(self).next_id_spec() == old(self).next_id_spec(),
            r is Ok,
            user_role_pair_present(old(self).rows(), user_id as int, role_id as int)
                ==> final(self).rows() == old(self).rows().remove(
                ur_idx_by_pair(old(self).rows(), user_id as int, role_id as int),
            ),
            !user_role_pair_present(old(self).rows(), user_id as int, role_id as int)
                ==> *final(self) == *old(self),
    {
        let n = self.user_roles.len();
        let mut i: usize = 0;
        while i < n
            invariant
                self.wf(),
                i <= n,
                n == self.rows().len(),
                *self == *old(self),
                forall|k: int|
                    0 <= k < i ==> !((#[trigger] self.rows()[k]).user_id == user_id as int
                        && self.rows()[k].role_id == role_id as int),
            decreases n - i,
        {
            if self.user_roles[i].user_id == user_id && self.user_roles[i].role_id == role_id {
                proof {
                    assert(self.rows()[i as int].user_id == user_id as int);
                    assert(self.rows()[i as int].role_id == role_id as int);
                    let k = ur_idx_by_pair(self.rows(), user_id as int, role_id as int);
                    assert(0 <= k < self.rows().len() && self.rows()[k].user_id == user_id as int
                        && self.rows()[k].role_id == role_id as int);
                    if k != i as int {
                        assert(false);
                    }
                }
                let ghost old_rows = self.rows();
                self.user_roles.remove(i);
                proof {
                    assert(self.rows() =~= old_rows.remove(i as int));
                }
                return Ok(());
            }
            i += 1;
        }
        Ok(())
    }

    /// Look a membership up by its identifier.
    pub fn find_by_id(&self, id: i32) -> (r: Option<UserRoleRecord>)
        requires
            self.wf(),
        ensures
            r is Some <==> ur_id_present(self.rows(), id as int),
            r matches Some(u) ==> u@ == self.rows()[ur_idx_by_id(self.rows(), id as int)]
                && u@.id == id as int,
    {
        let n = self.user_roles.len();
        let mut i: usize = 0;
        while i < n
            invariant
                self.wf(),
                i <= n,
                n == self.rows().len(),
                forall|k: int| 0 <= k < i ==> (#[trigger] self.rows()[k]).id != id as int,
            decreases n - i,
        {
            if self.user_roles[i].id == id {
                proof {
                    assert(self.rows()[i as int].id == id as int);
                    let k = ur_idx_by_id(self.rows(), id as int);
                    assert(0 <= k < self.rows().len() && self.rows()[k].id == id as int);
                    if k != i as int {
                        assert(self.rows()[k].id != self.rows()[i as int].id);
                    }
                }
                return Some(self.user_roles[i].duplicate());
            }
            i += 1;
        }
        None
    }

    /// Insert a new membership row. Fails, leaving the store unchanged,
    /// when the (user, role) pair already exists (the schema's unique
    /// constraint) or the identifier space is exhausted.
    pub fn create(&mut self, record: UserRoleRecordMutation, now: u64) -> (r: Result<
        UserRoleRecord,
        DatabaseError,
    >)
        requires
            old(self).wf(),
        ensures
            final(self).wf(),
            final(self).next_id_spec() >= old(self).next_id_spec(),
            match r {
                Ok(u) => {
                    &&& !user_role_pair_present(
                        old(self).rows(),
                        record.user_id as int,
                        record.role_id as int,
                    )
                    &&& old(self).next_id_spec() < i32::MAX
                    &&& u@ == (UserRoleRecordV {
                        id: old(self).next_id_spec(),
                        user_id: record.user_id as int,
                        role_id: record.role_id as int,
                        created_at: Some(now),
                    })
                    &&& final(self).rows() == old(self).rows().push(u@)
                    &&& final(self).next_id_spec() == old(self).next_id_spec() + 1
                },
                Err(e) => {
                    &&& user_role_pair_present(
                        old(self).rows(),
                        record.user_id as int,
                        record.role_id as int,
                    ) || old(self).next_id_spec() == i32::MAX
                    &&& *final(self) == *old(self)
                    &&& e matches DatabaseError::ConnectionError(_)
                },
            },
    {
        if self.next_id == i32::MAX {
            return Err(
                DatabaseError::ConnectionError(String::from_str("identifier space exhausted")),
            );
        }
        let n = self.user_roles.len();
        let mut i: usize = 0;
        while i < n
            invariant
                self.wf(),
                i <= n,
                n == self.rows().len(),
                forall|k: int|
                    0 <= k < i ==> !((#[trigger] self.rows()[k]).user_id == record.user_id as int
                        && self.rows()[k].role_id == record.role_id as int),
            decreases n - i,
        {
            if self.user_roles[i].user_id == record.user_id && self.user_roles[i].role_id
                == record.role_id {
                proof {
                    assert(self.rows()[i as int].user_id == record.user_id as int);
                    assert(self.rows()[i as int].role_id == record.role_id as int);
                }
                return Err(
                    DatabaseError::ConnectionError(
                        String::from_str("unique constraint violated: user_roles pair"),
                    ),
                );
            }
            i += 1;
        }
        let row = UserRoleRecord {
            id: self.next_id,
            user_id: record.user_id,
            role_id: record.role_id,
            created_at: Some(now),
        };
        let out = row.duplicate();
        let ghost old_rows = self.rows();
        self.user_roles.push(row);
        self.next_id = self.next_id + 1;
        proof {
            assert(self.rows() =~= old_rows.push(out@));
        }
        Ok(out)
    }

    /// Re-point the membership carrying this identifier at a new (user,
    /// role) pair. Fails, leaving the store unchanged, when no row carries
    /// it or another row already joins that pair.
    pub fn update(&mut self, id: i32, record: UserRoleRecordMutation) -> (r: Result<
        UserRoleRecord,
        DatabaseError,
    >)
        requires
            old(self).wf(),
        ensures
            final(self).wf(),
            final(self).next_id_spec() == old(self).next_id_spec(),
            match r {
                Ok(u) => {
                    &&& ur_id_present(old(self).rows(), id as int)
                    &&& u@ == (UserRoleRecordV {
                        id: id as int,
                        user_id: record.user_id as int,
                        role_id: record.role_id as int,
                        created_at: old(self).rows()[ur_idx_by_id(
                            old(self).rows(),
                            id as int,
                        )].created_at,
                    })
                    &&& final(self).rows() == old(self).rows().update(
                        ur_idx_by_id(old(self).rows(), id as int),
                        u@,
                    )
                },
                Err(e) => {
                    &&& (!ur_id_present(old(self).rows(), id as int) || (exists|j: int|
                        0 <= j < old(self).rows().len() && (#[trigger] old(self).rows()[j]).user_id
                            == record.user_id as int && old(self).rows()[j].role_id
                            == record.role_id as int && old(self).rows()[j].id != id as int))
                    &&& *final(self) == *old(self)
                    &&& e matches DatabaseError::ConnectionError(_)
                },
            },
    {
        let n = self.user_roles.len();
        let mut idx: usize = 0;
        let mut found = false;
        let mut i: usize = 0;
        while i < n
            invariant
                self.wf(),
                i <= n,
                n == self.rows().len(),
                !found ==> forall|k: int| 0 <= k < i ==> (#[trigger] self.rows()[k]).id != id as int,
                found ==> idx < i && self.rows()[idx as int].id == id as int,
            decreases n - i,
        {
            if self.user_roles[i].id == id {
                idx = i;
                found = true;
                proof {
                    assert(self.rows()[i as int].id == id as int);
                }
            }
            i += 1;
        }
        if !found {
            return Err(
                DatabaseError::ConnectionError(String::from_str("no row with this identifier")),
            );
        }
        proof {
            let k = ur_idx_by_id(self.rows(), id as int);
            assert(0 <= k < self.rows().len() && self.rows()[k].id == id as int);
            if k != idx as int {
                assert(self.rows()[k].id != self.rows()[idx as int].id);
            }
        }
        let mut j: usize = 0;
        while j < n
            invariant
                self.wf(),
                j <= n,
                n == self.rows().len(),
                idx < n,
                forall|k: int|
                    0 <= k < j && (#[trigger] self.rows()[k]).id != id as int ==> !(
                    self.rows()[k].user_id == record.user_id as int && self.rows()[k].role_id
                        == record.role_id as int),
                self.rows()[idx as int].id == id as int,
            decreases n - j,
        {
            if j != idx && self.user_roles[j].user_id == record.user_id
                && self.user_roles[j].role_id == record.role_id {
                proof {
                    assert(self.rows()[j as int].user_id == record.user_id as int);
                    assert(self.rows()[j as int].role_id == record.role_id as int);
                    assert(self.rows()[j as int].id != id as int);
                }
                return Err(
                    DatabaseError::ConnectionError(
                        String::from_str("unique constraint violated: user_roles pair"),
                    ),
                );
            }
            j += 1;
        }
        let created_at = self.user_roles[idx].created_at;
        let row = UserRoleRecord { id, user_id: record.user_id, role_id: record.role_id, created_at };
        let out = row.duplicate();
        let ghost old_rows = self.rows();
        self.user_roles[idx] = row;
        proof {
            assert(self.rows() =~= old_rows.update(idx as int, out@));
        }
        Ok(out)
    }

    /// Remove the row carrying this identifier; removing an absent
    /// identifier succeeds and changes nothing.
    pub fn delete(&mut self, id: i32) -> (r: Result<(), DatabaseError>)
        requires
            old(self).wf(),
        ensures
            final(self).wf(),
            final(self).next_id_spec() == old(self).next_id_spec(),
            r is Ok,
            ur_id_present(old(self).rows(), id as int) ==> final(self).rows() == old(
                self,
            ).rows().remove(ur_idx_by_id(old(self).rows(), id as int)),
            !ur_id_present(old(self).rows(), id as int) ==> *final(self) == *old(self),
    {
        let n = self.user_roles.len();
        let mut i: usize = 0;
        while i < n
            invariant
                self.wf(),
                i <= n,
                n == self.rows().len(),
                *self == *old(self),
                forall|k: int| 0 <= k < i ==> (#[trigger] self.rows()[k]).id != id as int,
            decreases n - i,
        {
            if self.user_roles[i].id == id {
                proof {
                    assert(self.rows()[i as int].id == id as int);
                    let k = ur_idx_by_id(self.rows(), id as int);
                    assert(0 <= k < self.rows().len() && self.rows()[k].id == id as int);
                    if k != i as int {
                        assert(self.rows()[k].id != self.rows()[i as int].id);
                    }
                }
                let ghost old_rows = self.rows();
                self.user_roles.remove(i);
                proof {
                    assert(self.rows() =~= old_rows.remove(i as int));
                }
                return Ok(());
            }
            i += 1;
        }
        Ok(())
    }

    /// One page of the listing ordered by the (user, role) pair: the page's
    /// slice of a pair-sorted arrangement of the table, with the total
    /// count.
    pub fn paginate(&self, page: u64, limit: u64) -> (r: Result<
        PaginatedRecords<UserRoleRecord>,
        DatabaseError,
    >)
        requires
            self.wf(),
            1 <= page,
            (page - 1) * limit <= u64::MAX,
        ensures
            r matches Ok(p) ==> {
                &&& p.total == self.rows().len()
                &&& p.page == page
                &&& p.limit == limit
                &&& exists|q: Seq<UserRoleRecordV>|
                    {
                        &&& #[trigger] ur_sorted_by_pair(q)
                        &&& q.to_multiset() == self.rows().to_multiset()
                        &&& ur_views(p.records@) == page_slice(q, page as int, limit as int)
                    }
            },
            r is Ok,
    {
        let n = self.user_roles.len();
        let mut sorted: Vec<UserRoleRecord> = Vec::new();
        proof {
            assert(ur_views(sorted@) =~= Seq::<UserRoleRecordV>::empty());
            assert(self.rows().take(0) =~= Seq::<UserRoleRecordV>::empty());
        }
        let mut i: usize = 0;
        while i < n
            invariant
                self.wf(),
                i <= n,
                n == self.rows().len(),
                ur_sorted_by_pair(ur_views(sorted@)),
                ur_views(sorted@).to_multiset() == self.rows().take(i as int).to_multiset(),
                sorted@.len() == i,
            decreases n - i,
        {
            let ghost prefix = self.rows().take(i as int);
            sorted_insert_ur(&mut sorted, self.user_roles[i].duplicate());
            proof {
                assert(self.rows().take(i + 1) =~= prefix.push(self.rows()[i as int]));
            }
            i += 1;
        }
        proof {
            assert(self.rows().take(n as int) =~= self.rows());
        }
        let offset = (page - 1) * limit;
        let start: usize = if offset > n as u64 {
            n
        } else {
            offset as usize
        };
        let remaining = n - start;
        let take: usize = if limit > remaining as u64 {
            remaining
        } else {
            limit as usize
        };
        let mut records: Vec<UserRoleRecord> = Vec::new();
        let mut j: usize = 0;
        while j < take
            invariant
                j <= take,
                sorted@.len() == n,
                start + take <= n,
                records@.len() == j,
                forall|k: int|
                    0 <= k < j ==> (#[trigger] records@[k])@ == ur_views(sorted@)[start + k],
            decreases take - j,
        {
            let row = sorted[start + j].duplicate();
            records.push(row);
            j += 1;
        }
        proof {
            assert(ur_views(records@) =~= page_slice(ur_views(sorted@), page as int, limit as int));
        }
        Ok(PaginatedRecords { records, total: n as u64, page, limit })
    }
}

} // verus!
