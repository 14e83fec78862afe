//! The permission store: rows keyed by a serial identifier, names unique,
//! the (resource, action) pair unique whenever the resource is set, with
//! name-ordered listings.

use vstd::prelude::*;

use crate::error::DatabaseError;
use crate::listing::page_slice;
use crate::records::{
    opt_str_view, PaginatedRecords, PermissionRecord, PermissionRecordMutation, PermissionRecordV,
};
use crate::strutil::{lemma_lex_le_total, lex_le, str_le};

verus! {

broadcast use vstd::seq_lib::group_to_multiset_ensures;

/// The views of a sequence of permission rows.
pub open spec fn perm_views(s: Seq<PermissionRecord>) -> Seq<PermissionRecordV> {
    s.map(|i: int, u: PermissionRecord| u@)
}

/// Some row holds this name.
pub open spec fn perm_name_taken(rows: Seq<PermissionRecordV>, name: Seq<char>) -> bool {
    exists|i: int| 0 <= i < rows.len() && rows[i].name == name
}

/// The index of the row holding this name (meaningful when taken).
pub open spec fn perm_idx_by_name(rows: Seq<PermissionRecordV>, name: Seq<char>) -> int {
    choose|i: int| 0 <= i < rows.len() && rows[i].name == name
}

/// Some row carries this identifier.
pub open spec fn perm_id_present(rows: Seq<PermissionRecordV>, id: int) -> bool {
    exists|i: int| 0 <= i < rows.len() && rows[i].id == id
}

/// The index of the row carrying this identifier (meaningful when present).
pub open spec fn perm_idx_by_id(rows: Seq<PermissionRecordV>, id: int) -> int {
    choose|i: int| 0 <= i < rows.len() && rows[i].id == id
}

/// Some row scopes this action to this resource.
pub open spec fn resource_action_taken(
    rows: Seq<PermissionRecordV>,
    resource: Seq<char>,
    action: Seq<char>,
) -> bool {
    exists|i: int|
        0 <= i < rows.len() && rows[i].resource == Some(resource) && rows[i].action == action
}

/// The index of the row scoping this action to this resource.
pub open spec fn perm_idx_by_resource_action(
    rows: Seq<PermissionRecordV>,
    resource: Seq<char>,
    action: Seq<char>,
) -> int {
    choose|i: int|
        0 <= i < rows.len() && rows[i].resource == Some(resource) && rows[i].action == action
}

/// Each row's name is at most its successor's: the listing order.
pub open spec fn perms_sorted_by_name(s: Seq<PermissionRecordV>) -> bool {
    forall|i: int| 0 <= i && i + 1 < s.len() ==> lex_le((#[trigger] s[i]).name, s[i + 1].name)
}

/// No two rows share an identifier.
pub open spec fn perm_ids_distinct(s: Seq<PermissionRecordV>) -> bool {
    forall|i: int, j: int| 0 <= i < j < s.len() ==> (#[trigger] s[i]).id != (#[trigger] s[j]).id
}

/// The subsequence of rows whose resource equals the given one, in row
/// order.
pub open spec fn perms_with_resource(
    rows: Seq<PermissionRecordV>,
    resource: Seq<char>,
) -> Seq<PermissionRecordV>
    decreases rows.len(),
{
    if rows.len() == 0 {
        Seq::empty()
    } else {
        let rest = perms_with_resource(rows.drop_last(), resource);
        if rows.last().resource == Some(resource) {
            rest.push(rows.last())
        } else {
            rest
        }
    }
}

/// The position before the first row whose name exceeds the given one.
fn perm_insert_pos(out: &Vec<PermissionRecord>, row: &PermissionRecord) -> (p: usize)
    ensures
        p <= out@.len(),
        forall|k: int| 0 <= k < p ==> lex_le(perm_views(out@)[k].name, row@.name),
        p < out@.len() ==> lex_le(row@.name, perm_views(out@)[p as int].name),
{
    let n = out.len();
    let mut p: usize = 0;
    while p < n
        invariant
            p <= n,
            n == out@.len(),
            forall|k: int| 0 <= k < p ==> lex_le(perm_views(out@)[k].name, row@.name),
        decreases n - p,
    {
        if !str_le(out[p].name.as_str(), row.name.as_str()) {
            proof {
                lemma_lex_le_total(out@[p as int].name@, row.name@);
            }
            return p;
        }
        p += 1;
    }
    p
}

/// Insert a row into a name-sorted vector, keeping it sorted; the contents
/// gain exactly that row, and identifiers stay distinct when the new one is
/// fresh.
pub(crate) fn sorted_insert_perm(out: &mut Vec<PermissionRecord>, row: PermissionRecord)
    requires
        perms_sorted_by_name(perm_views(old(out)@)),
    ensures
        perms_sorted_by_name(perm_views(final(out)@)),
        perm_views(final(out)@).to_multiset() == perm_views(old(out)@).to_multiset().insert(row@),
        final(out)@.len() == old(out)@.len() + 1,
        perm_ids_distinct(perm_views(old(out)@)) && !perm_id_present(
            perm_views(old(out)@),
            row@.id,
        ) ==> perm_ids_distinct(perm_views(final(out)@)),
        forall|k: int|
            0 <= k < perm_views(final(out)@).len() ==> (#[trigger] perm_views(final(out)@)[k])
                == row@ || perm_views(old(out)@).contains(perm_views(final(out)@)[k]),
{
    let p = perm_insert_pos(out, &row);
    let ghost old_vec = out@;
    let ghost old_map = perm_views(out@);
    out.insert(p, row);
    proof {
        old_vec.insert_ensures(p as int, row);
        old_map.insert_ensures(p as int, row@);
        assert(perm_views(out@) =~= old_map.insert(p as int, row@));
        let s = perm_views(out@);
        assert forall|i: int| 0 <= i && i + 1 < s.len() implies lex_le(
            (#[trigger] s[i]).name,
            s[i + 1].name,
        ) by {
            if i + 1 < p {
                assert(s[i] == old_map[i] && s[i + 1] == old_map[i + 1]);
            } else if i + 1 == p {
                assert(s[i] == old_map[i] && s[i + 1] == row@);
            } else if i == p {
                assert(s[i] == row@ && s[i + 1] == old_map[i]);
            } else {
                assert(s[i] == old_map[i - 1] && s[i + 1] == old_map[i]);
            }
        }
        if perm_ids_distinct(old_map) && !perm_id_present(old_map, row@.id) {
            assert forall|i: int, j: int| 0 <= i < j < s.len() implies (#[trigger] s[i]).id != (
            #[trigger] s[j]).id by {
                let oi: int = if i < p {
                    i
                } else {
                    i - 1
                };
                let oj: int = if j < p {
                    j
                } else {
                    j - 1
                };
                if i == p {
                    assert(s[j] == old_map[oj]);
                } else if j == p {
                    assert(s[i] == old_map[oi]);
                } else {
                    assert(s[i] == old_map[oi] && s[j] == old_map[oj]);
                }
            }
        }
    }
}

/// The permission store.
pub struct PermissionRepository {
    permissions: Vec<PermissionRecord>,
    next_id: i32,
}

impl PermissionRepository {
    /// The rows, in table (identifier) order.
    pub closed spec fn rows(&self) -> Seq<PermissionRecordV> {
        perm_views(self.permissions@)
    }

    /// The identifier the next insert will receive.
    pub closed spec fn next_id_spec(&self) -> int {
        self.next_id as int
    }

    /// The store's invariant: positive identifiers, strictly increasing,
    /// all below the next free identifier; names unique; the (resource,
    /// action) pair unique whenever the resource is set.
    pub open spec fn wf(&self) -> bool {
        &&& 1 <= self.next_id_spec()
        &&& forall|i: int|
            0 <= i < self.rows().len() ==> 1 <= (#[trigger] self.rows()[i]).id
                < self.next_id_spec()
        &&& forall|i: int, j: int|
            0 <= i < j < self.rows().len() ==> (#[trigger] self.rows()[i]).id < (
            #[trigger] self.rows()[j]).id
        &&& forall|i: int, j: int|
            0 <= i < j < self.rows().len() ==> (#[trigger] self.rows()[i]).name != (
            #[trigger] self.rows()[j]).name
        &&& forall|i: int, j: int|
            (0 <= i < self.rows().len() && 0 <= j < self.rows().len() && i != j && ((
            #[trigger] self.rows()[i]).resource matches Some(_))) ==> !((
            #[trigger] self.rows()[j]).resource == self.rows()[i].resource && self.rows()[j].action
                == self.rows()[i].action)
    }

    /// An empty store.
    pub fn new() -> (r: Self)
        ensures
            r.wf(),
            r.rows() == Seq::<PermissionRecordV>::empty(),
            r.next_id_spec() == 1,
    {
        let r = PermissionRepository { permissions: Vec::new(), next_id: 1 };
        proof {
            assert(r.rows() =~= Seq::<PermissionRecordV>::empty());
        }
        r
    }

    /// Look a permission up by its name.
    pub fn find_by_name(&self, name: &String) -> (r: Option<PermissionRecord>)
        requires
            self.wf(),
        ensures
            r is Some <==> perm_name_taken(self.rows(), name@),
            r matches Some(u) ==> u@ == self.rows()[perm_idx_by_name(self.rows(), name@)]
                && u@.name == name@,
    {
        let n = self.permissions.len();
        let mut i: usize = 0;
        while i < n
            invariant
                self.wf(),
                i <= n,
                n == self.rows().len(),
                forall|k: int| 0 <= k < i ==> (#[trigger] self.rows()[k]).name != name@,
            decreases n - i,
        {
            if self.permissions[i].name == *name {
                proof {
                    assert(self.rows()[i as int].name == name@);
                    let k = perm_idx_by_name(self.rows(), name@);
                    assert(0 <= k < self.rows().len() && self.rows()[k].name == name@);
                    if k != i as int {
                        assert(self.rows()[k].name != self.rows()[i as int].name);
                    }
                }
                return Some(self.permissions[i].duplicate());
            }
            i += 1;
        }
        None
    }

    /// Look a permission up by its identifier.
    pub fn find_by_id(&self, id: i32) -> (r: Option<PermissionRecord>)
        requires
            self.wf(),
        ensures
            r is Some <==> perm_id_present(self.rows(), id as int),
            r matches Some(u) ==> u@ == self.rows()[perm_idx_by_id(self.rows(), id as int)]
                && u@.id == id as int,
    {
        let n = self.permissions.len();
        let mut i: usize = 0;
        while i < n
            invariant
                self.wf(),
                i <= n,
                n == self.rows().len(),
                forall|k: int| 0 <= k < i ==> (#[trigger] self.rows()[k]).id != id as int,
            decreases n - i,
        {
            if self.permissions[i].id == id {
                proof {
                    assert(self.rows()[i as int].id == id as int);
                    let k = perm_idx_by_id(self.rows(), id as int);
                    assert(0 <= k < self.rows().len() && self.rows()[k].id == id as int);
                    if k != i as int {
                        assert(self.rows()[k].id != self.rows()[i as int].id);
                    }
                }
                return Some(self.permissions[i].duplicate());
            }
            i += 1;
        }
        None
    }

    /// Look a permission up by its resource scope and action.
    pub fn find_by_resource_and_action(&self, resource: &String, action: &String) -> (r: Option<
        PermissionRecord,
    >)
        requires
            self.wf(),
        ensures
            r is Some <==> resource_action_taken(self.rows(), resource@, action@),
            r matches Some(u) ==> u@ == self.rows()[perm_idx_by_resource_action(
                self.rows(),
                resource@,
                action@,
            )] && u@.resource == Some(resource@) && u@.action == action@,
    {
        let n = self.permissions.len();
        let mut i: usize = 0;
        while i < n
            invariant
                self.wf(),
                i <= n,
                n == self.rows().len(),
                forall|k: int|
                    0 <= k < i ==> !((#[trigger] self.rows()[k]).resource == Some(resource@)
                        && self.rows()[k].action == action@),
            decreases n - i,
        {
            let matches_resource = match &self.permissions[i].resource {
                Some(res) => *res == *resource,
                None => false,
            };
            if matches_resource && self.permissions[i].action == *action {
                proof {
                    assert(self.rows()[i as int].resource == Some(resource@));
                    assert(self.rows()[i as int].action == action@);
                    let k = perm_idx_by_resource_action(self.rows(), resource@, action@);
                    assert(0 <= k < self.rows().len() && self.rows()[k].resource == Some(resource@)
                        && self.rows()[k].action == action@);
                    if k != i as int {
                        assert(false);
                    }
                }
                return Some(self.permissions[i].duplicate());
            }
            i += 1;
        }
        None
    }

    /// All permissions scoped to this resource, ordered by name.
    #[verifier::rlimit(60)]
    pub fn find_by_resource(&self, resource: &String) -> (r: Vec<PermissionRecord>)
        requires
            self.wf(),
        ensures
            perms_sorted_by_name(perm_views(r@)),
            perm_views(r@).to_multiset() == perms_with_resource(
                self.rows(),
                resource@,
            ).to_multiset(),
            perm_ids_distinct(perm_views(r@)),
    {
        let n = self.permissions.len();
        let mut out: Vec<PermissionRecord> = Vec::new();
        proof {
            assert(perm_views(out@) =~= Seq::<PermissionRecordV>::empty());
            assert(self.rows().take(0) =~= Seq::<PermissionRecordV>::empty());
        }
        let mut i: usize = 0;
        while i < n
            invariant
                self.wf(),
                i <= n,
                n == self.rows().len(),
                perms_sorted_by_name(perm_views(out@)),
                perm_views(out@).to_multiset() == perms_with_resource(
                    self.rows().take(i as int),
                    resource@,
                ).to_multiset(),
                perm_ids_distinct(perm_views(out@)),
                i < n ==> forall|k: int|
                    0 <= k < perm_views(out@).len() ==> (#[trigger] perm_views(out@)[k]).id
                        < self.rows()[i as int].id,
            decreases n - i,
        {
            let ghost prefix = self.rows().take(i as int);
            proof {
                assert(self.rows().take(i + 1) =~= prefix.push(self.rows()[i as int]));
                assert(self.rows().take(i + 1).drop_last() =~= prefix);
            }
            let row = &self.permissions[i];
            let matches_resource = match &row.resource {
                Some(res) => *res == *resource,
                None => false,
            };
            let ghost pre_insert = perm_views(out@);
            if matches_resource {
                proof {
                    assert(self.rows()[i as int].resource == Some(resource@));
                }
                sorted_insert_perm(&mut out, row.duplicate());
                proof {
                    if i + 1 < n {
                        assert forall|k: int| 0 <= k < perm_views(out@).len() implies (
                        #[trigger] perm_views(out@)[k]).id < self.rows()[i as int + 1].id by {
                            let v = perm_views(out@)[k];
                            assert(self.rows()[i as int].id < self.rows()[i as int + 1].id);
                            if v != self.rows()[i as int] {
                                assert(pre_insert.contains(v));
                                let t = choose|t: int| 0 <= t < pre_insert.len() && pre_insert[t] == v;
                                assert(pre_insert[t].id < self.rows()[i as int].id);
                            }
                        }
                    }
                }
            } else {
                proof {
                    assert(self.rows()[i as int].resource != Some(resource@));
                    if i + 1 < n {
                        assert(self.rows()[i as int].id < self.rows()[i as int + 1].id);
                    }
                }
            }
            i += 1;
        }
        proof {
            assert(self.rows().take(n as int) =~= self.rows());
        }
        out
    }

    /// Insert a new permission row. Fails, leaving the store unchanged,
    /// when the name is already held, the (resource, action) pair is
    /// already scoped, or the identifier space is exhausted.
    pub fn create(&mut self, record: PermissionRecordMutation, now: u64) -> (r: Result<
        PermissionRecord,
        DatabaseError,
    >)
        requires
            old(self).wf(),
        ensures
            final(self).wf(),
            final(self).next_id_spec() >= old(self).next_id_spec(),
            match r {
                Ok(u) => {
                    &&& !perm_name_taken(old(self).rows(), record.name@)
                    &&& (record.resource matches Some(res) ==> !resource_action_taken(
                        old(self).rows(),
                        res@,
                        record.action@,
                    ))
                    &&& old(self).next_id_spec() < i32::MAX
                    &&& u@ == (PermissionRecordV {
                        id: old(self).next_id_spec(),
                        name: record.name@,
                        resource: opt_str_view(record.resource),
                        action: record.action@,
                        created_at: Some(now),
                        updated_at: Some(now),
                    })
                    &&& final(self).rows() == old(self).rows().push(u@)
                    &&& final(self).next_id_spec() == old(self).next_id_spec() + 1
                },
                Err(e) => {
                    &&& {
                        ||| perm_name_taken(old(self).rows(), record.name@)
                        ||| (record.resource matches Some(res) && resource_action_taken(
                            old(self).rows(),
                            res@,
                            record.action@,
                        ))
                        ||| old(self).next_id_spec() == i32::MAX
                    }
                    &&& *final(self) == *old(self)
                    &&& e matches DatabaseError::ConnectionError(_)
                },
            },
    {
        if self.next_id == i32::MAX {
            return Err(
                DatabaseError::ConnectionError(String::from_str("identifier space exhausted")),
            );
        }
        let n = self.permissions.len();
        let mut i: usize = 0;
        while i < n
            invariant
                self.wf(),
                i <= n,
                n == self.rows().len(),
                forall|k: int| 0 <= k < i ==> (#[trigger] self.rows()[k]).name != record.name@,
            decreases n - i,
        {
            if self.permissions[i].name == record.name {
                assert(self.rows()[i as int].name == record.name@);
                return Err(
                    DatabaseError::ConnectionError(
                        String::from_str("unique constraint violated: permissions.name"),
                    ),
                );
            }
            i += 1;
        }
        if let Some(res) = &record.resource {
            let mut j: usize = 0;
            while j < n
                invariant
                    self.wf(),
                    j <= n,
                    n == self.rows().len(),
                    record.resource matches Some(rr) && rr@ == res@,
                    forall|k: int|
                        0 <= k < j ==> !((#[trigger] self.rows()[k]).resource == Some(res@)
                            && self.rows()[k].action == record.action@),
                decreases n - j,
            {
                let matches_resource = match &self.permissions[j].resource {
                    Some(r2) => *r2 == *res,
                    None => false,
                };
                if matches_resource && self.permissions[j].action == record.action {
                    proof {
                        assert(self.rows()[j as int].resource == Some(res@));
                        assert(self.rows()[j as int].action == record.action@);
                    }
                    return Err(
                        DatabaseError::ConnectionError(
                            String::from_str(
                                "unique constraint violated: permissions resource and action",
                            ),
                        ),
                    );
                }
                j += 1;
            }
        }
        let row = PermissionRecord {
            id: self.next_id,
            name: record.name,
            resource: record.resource,
            action: record.action,
            created_at: Some(now),
            updated_at: Some(now),
        };
        let out = row.duplicate();
        let ghost old_rows = self.rows();
        self.permissions.push(row);
        self.next_id = self.next_id + 1;
        proof {
            assert(self.rows() =~= old_rows.push(out@));
        }
        Ok(out)
    }

    /// Replace the mutable fields of the row carrying this identifier.
    /// Fails, leaving the store unchanged, when no row carries it or the
    /// new name or (resource, action) pair collides with another row.
    pub fn update(&mut self, id: i32, record: PermissionRecordMutation, now: u64) -> (r: Result<
        PermissionRecord,
        DatabaseError,
    >)
        requires
            old(self).wf(),
        ensures
            final(self).wf(),
            final(self).next_id_spec() == old(self).next_id_spec(),
            match r {
                Ok(u) => {
                    &&& perm_id_present(old(self).rows(), id as int)
                    &&& u@ == (PermissionRecordV {
                        id: id as int,
                        name: record.name@,
                        resource: opt_str_view(record.resource),
                        action: record.action@,
                        created_at: old(self).rows()[perm_idx_by_id(
                            old(self).rows(),
                            id as int,
                        )].created_at,
                        updated_at: Some(now),
                    })
                    &&& final(self).rows() == old(self).rows().update(
                        perm_idx_by_id(old(self).rows(), id as int),
                        u@,
                    )
                },
                Err(e) => {
                    &&& {
                        ||| !perm_id_present(old(self).rows(), id as int)
                        ||| (exists|j: int|
                            0 <= j < old(self).rows().len() && (#[trigger] old(self).rows()[j]).name
                                == record.name@ && old(self).rows()[j].id != id as int)
                        ||| (record.resource matches Some(res) && exists|j: int|
                            0 <= j < old(self).rows().len() && (
                            #[trigger] old(self).rows()[j]).resource == Some(res@) && old(
                                self,
                            ).rows()[j].action == record.action@ && old(self).rows()[j].id
                                != id as int)
                    }
                    &&& *final(self) == *old(self)
                    &&& e matches DatabaseError::ConnectionError(_)
                },
            },
    {
        let n = self.permissions.len();
        let mut idx: usize = 0;
        let mut found = false;
        let mut i: usize = 0;
        while i < n
            invariant
                self.wf(),
                i <= n,
                n == self.rows().len(),
                !found ==> forall|k: int| 0 <= k < i ==> (#[trigger] self.rows()[k]).id != id as int,
                found ==> idx < i && self.rows()[idx as int].id == id as int,
            decreases n - i,
        {
            if self.permissions[i].id == id {
                idx = i;
                found = true;
                proof {
                    assert(self.rows()[i as int].id == id as int);
                }
            }
            i += 1;
        }
        if !found {
            return Err(
                DatabaseError::ConnectionError(String::from_str("no row with this identifier")),
            );
        }
        proof {
            let k = perm_idx_by_id(self.rows(), id as int);
            assert(0 <= k < self.rows().len() && self.rows()[k].id == id as int);
            if k != idx as int {
                assert(self.rows()[k].id != self.rows()[idx as int].id);
            }
        }
        let mut j: usize = 0;
        while j < n
            invariant
                self.wf(),
                j <= n,
                n == self.rows().len(),
                idx < n,
                forall|k: int|
                    0 <= k < j && (#[trigger] self.rows()[k]).id != id as int ==> self.rows()[k].name
                        != record.name@,
                self.rows()[idx as int].id == id as int,
            decreases n - j,
        {
            if j != idx && self.permissions[j].name == record.name {
                proof {
                    assert(self.rows()[j as int].name == record.name@);
                    assert(self.rows()[j as int].id != id as int);
                }
                return Err(
                    DatabaseError::ConnectionError(
                        String::from_str("unique constraint violated: permissions.name"),
                    ),
                );
            }
            j += 1;
        }
        if let Some(res) = &record.resource {
            let mut k: usize = 0;
            while k < n
                invariant
                    self.wf(),
                    k <= n,
                    n == self.rows().len(),
                    idx < n,
                    record.resource matches Some(rr) && rr@ == res@,
                    forall|t: int|
                        0 <= t < k && (#[trigger] self.rows()[t]).id != id as int ==> !(
                        self.rows()[t].resource == Some(res@) && self.rows()[t].action
                            == record.action@),
                    self.rows()[idx as int].id == id as int,
                decreases n - k,
            {
                let matches_resource = match &self.permissions[k].resource {
                    Some(r2) => *r2 == *res,
                    None => false,
                };
                if k != idx && matches_resource && self.permissions[k].action == record.action {
                    proof {
                        assert(self.rows()[k as int].resource == Some(res@));
                        assert(self.rows()[k as int].action == record.action@);
                        assert(self.rows()[k as int].id != id as int);
                    }
                    return Err(
                        DatabaseError::ConnectionError(
                            String::from_str(
                                "unique constraint violated: permissions resource and action",
                            ),
                        ),
                    );
                }
                k += 1;
            }
        }
        let created_at = self.permissions[idx].created_at;
        let row = PermissionRecord {
            id,
            name: record.name,
            resource: record.resource,
            action: record.action,
            created_at,
            updated_at: Some(now),
        };
        let out = row.duplicate();
        let ghost old_rows = self.rows();
        self.permissions[idx] = row;
        proof {
            assert(self.rows() =~= old_rows.update(idx as int, out@));
        }
        Ok(out)
    }

    /// Remove the row carrying this identifier; removing an absent
    /// identifier succeeds and changes nothing.
    pub fn delete(&mut self, id: i32) -> (r: Result<(), DatabaseError>)
        requires
            old(self).wf(),
        ensures
            final(self).wf(),
            final(self).next_id_spec() == old(self).next_id_spec(),
            r is Ok,
            perm_id_present(old(self).rows(), id as int) ==> final(self).rows() == old(
                self,
            ).rows().remove(perm_idx_by_id(old(self).rows(), id as int)),
            !perm_id_present(old(self).rows(), id as int) ==> *final(self) == *old(self),
    {
        let n = self.permissions.len();
        let mut i: usize = 0;
        while i < n
            invariant
                self.wf(),
                i <= n,
                n == self.rows().len(),
                *self == *old(self),
                forall|k: int| 0 <= k < i ==> (#[trigger] self.rows()[k]).id != id as int,
            decreases n - i,
        {
            if self.permissions[i].id == id {
                proof {
                    assert(self.rows()[i as int].id == id as int);
                    let k = perm_idx_by_id(self.rows(), id as int);
                    assert(0 <= k < self.rows().len() && self.rows()[k].id == id as int);
                    if k != i as int {
                        assert(self.rows()[k].id != self.rows()[i as int].id);
                    }
                }
                let ghost old_rows = self.rows();
                self.permissions.remove(i);
                proof {
                    assert(self.rows() =~= old_rows.remove(i as int));
                }
                return Ok(());
            }
            i += 1;
        }
        Ok(())
    }

    /// How many rows the store holds.
    pub fn row_count(&self) -> (n: usize)
        ensures
            n == self.rows().len(),
    {
        self.permissions.len()
    }

    /// The row at this position of the table order.
    pub fn row_at(&self, i: usize) -> (r: &PermissionRecord)
        requires
            i < self.rows().len(),
        ensures
            r@ == self.rows()[i as int],
    {
        &self.permissions[i]
    }

    /// One page of the listing ordered by name: the page's slice of a
    /// name-sorted arrangement of the table, with the total count.
    pub fn paginate(&self, page: u64, limit: u64) -> (r: Result<
        PaginatedRecords<PermissionRecord>,
        DatabaseError,
    >)
        requires
            self.wf(),
            1 <= page,
            (page - 1) * limit <= u64::MAX,
        ensures
            r matches Ok(p) ==> {
                &&& p.total == self.rows().len()
                &&& p.page == page
                &&& p.limit == limit
                &&& exists|q: Seq<PermissionRecordV>|
                    {
                        &&& #[trigger] perms_sorted_by_name(q)
                        &&& q.to_multiset() == self.rows().to_multiset()
                        &&& perm_views(p.records@) == page_slice(q, page as int, limit as int)
                    }
            },
            r is Ok,
    {
        let n = self.permissions.len();
        let mut sorted: Vec<PermissionRecord> = Vec::new();
        proof {
            assert(perm_views(sorted@) =~= Seq::<PermissionRecordV>::empty());
            assert(self.rows().take(0) =~= Seq::<PermissionRecordV>::empty());
        }
        let mut i: usize = 0;
        while i < n
            invariant
                self.wf(),
                i <= n,
                n == self.rows().len(),
                perms_sorted_by_name(perm_views(sorted@)),
                perm_views(sorted@).to_multiset() == self.rows().take(i as int).to_multiset(),
                sorted@.len() == i,
            decreases n - i,
        {
            let ghost prefix = self.rows().take(i as int);
            sorted_insert_perm(&mut sorted, self.permissions[i].duplicate());
            proof {
                assert(self.rows().take(i + 1) =~= prefix.push(self.rows()[i as int]));
            }
            i += 1;
        }
        proof {
            assert(self.rows().take(n as int) =~= self.rows());
        }
        let offset = (page - 1) * limit;
        let start: usize = if offset > n as u64 {
            n
        } else {
            offset as usize
        };
        let remaining = n - start;
        let take: usize = if limit > remaining as u64 {
            remaining
        } else {
            limit as usize
        };
        let mut records: Vec<PermissionRecord> = Vec::new();
        let mut j: usize = 0;
        while j < take
            invariant
                j <= take,
                sorted@.len() == n,
                start + take <= n,
                records@.len() == j,
                forall|k: int|
                    0 <= k < j ==> (#[trigger] records@[k])@ == perm_views(sorted@)[start + k],
            decreases take - j,
        {
            let row = sorted[start + j].duplicate();
            records.push(row);
            j += 1;
        }
        proof {
            assert(perm_views(records@) =~= page_slice(
                perm_views(sorted@),
                page as int,
                limit as int,
            ));
        }
        Ok(PaginatedRecords { records, total: n as u64, page, limit })
    }
}

} // verus!
