//! The role store: rows keyed by a serial identifier, names unique, with a
//! name-ordered listing.

use vstd::prelude::*;

use crate::error::DatabaseError;
use crate::records::{opt_str_view, PaginatedRecords, RoleRecord, RoleRecordMutation, RoleRecordV};
use crate::strutil::{lemma_lex_le_total, lex_le, str_le};
use crate::listing::page_slice;

verus! {

broadcast use vstd::seq_lib::group_to_multiset_ensures;

/// The views of a sequence of role rows.
pub open spec fn role_views(s: Seq<RoleRecord>) -> Seq<RoleRecordV> {
    s.map(|i: int, u: RoleRecord| u@)
}

/// Some row holds this name.
pub open spec fn role_name_taken(rows: Seq<RoleRecordV>, name: Seq<char>) -> bool {
    exists|i: int| 0 <= i < rows.len() && rows[i].name == name
}

/// The index of the row holding this name (meaningful when taken).
pub open spec fn role_idx_by_name(rows: Seq<RoleRecordV>, name: Seq<char>) -> int {
    choose|i: int| 0 <= i < rows.len() && rows[i].name == name
}

/// Some row carries this identifier.
pub open spec fn role_id_present(rows: Seq<RoleRecordV>, id: int) -> bool {
    exists|i: int| 0 <= i < rows.len() && rows[i].id == id
}

/// The index of the row carrying this identifier (meaningful when present).
pub open spec fn role_idx_by_id(rows: Seq<RoleRecordV>, id: int) -> int {
    choose|i: int| 0 <= i < rows.len() && rows[i].id == id
}

/// Each row's name is at most its successor's: the listing order.
pub open spec fn roles_sorted_by_name(s: Seq<RoleRecordV>) -> bool {
    forall|i: int| 0 <= i && i + 1 < s.len() ==> lex_le((#[trigger] s[i]).name, s[i + 1].name)
}

/// No two rows share an identifier.
pub open spec fn role_ids_distinct(s: Seq<RoleRecordV>) -> bool {
    forall|i: int, j: int| 0 <= i < j < s.len() ==> (#[trigger] s[i]).id != (#[trigger] s[j]).id
}

/// The position before the first row whose name exceeds the given one.
fn role_insert_pos(out: &Vec<RoleRecord>, row: &RoleRecord) -> (p: usize)
    ensures
        p <= out@.len(),
        forall|k: int| 0 <= k < p ==> lex_le(role_views(out@)[k].name, row@.name),
        p < out@.len() ==> lex_le(row@.name, role_views(out@)[p as int].name),
{
    let n = out.len();
    let mut p: usize = 0;
    while p < n
        invariant
            p <= n,
            n == out@.len(),
            forall|k: int| 0 <= k < p ==> lex_le(role_views(out@)[k].name, row@.name),
        decreases n - p,
    {
        if !str_le(out[p].name.as_str(), row.name.as_str()) {
            proof {
                lemma_lex_le_total(out@[p as int].name@, row.name@);
            }
            return p;
        }
        p += 1;
    }
    p
}

/// Insert a row into a name-sorted vector, keeping it sorted; the contents
/// gain exactly that row, and identifiers stay distinct when the new one is
/// fresh.
pub(crate) fn sorted_insert_role(out: &mut Vec<RoleRecord>, row: RoleRecord)
    requires
        roles_sorted_by_name(role_views(old(out)@)),
    ensures
        roles_sorted_by_name(role_views(final(out)@)),
        role_views(final(out)@).to_multiset() == role_views(old(out)@).to_multiset().insert(row@),
        final(out)@.len() == old(out)@.len() + 1,
        role_ids_distinct(role_views(old(out)@)) && !role_id_present(
            role_views(old(out)@),
            row@.id,
        ) ==> role_ids_distinct(role_views(final(out)@)),
        forall|k: int|
            0 <= k < role_views(final(out)@).len() ==> (#[trigger] role_views(final(out)@)[k])
                == row@ || role_views(old(out)@).contains(role_views(final(out)@)[k]),
{
    let p = role_insert_pos(out, &row);
    let ghost old_vec = out@;
    let ghost old_map = role_views(out@);
    out.insert(p, row);
    proof {
        old_vec.insert_ensures(p as int, row);
        old_map.insert_ensures(p as int, row@);
        assert(role_views(out@) =~= old_map.insert(p as int, row@));
        let s = role_views(out@);
        assert forall|i: int| 0 <= i && i + 1 < s.len() implies lex_le(
            (#[trigger] s[i]).name,
            s[i + 1].name,
        ) by {
            if i + 1 < p {
                assert(s[i] == old_map[i] && s[i + 1] == old_map[i + 1]);
            } else if i + 1 == p {
                assert(s[i] == old_map[i] && s[i + 1] == row@);
            } else if i == p {
                assert(s[i] == row@ && s[i + 1] == old_map[i]);
            } else {
                assert(s[i] == old_map[i - 1] && s[i + 1] == old_map[i]);
            }
        }
        if role_ids_distinct(old_map) && !role_id_present(old_map, row@.id) {
            assert forall|i: int, j: int| 0 <= i < j < s.len() implies (#[trigger] s[i]).id != (
            #[trigger] s[j]).id by {
                let oi: int = if i < p {
                    i
                } else {
                    i - 1
                };
                let oj: int = if j < p {
                    j
                } else {
                    j - 1
                };
                if i == p {
                    assert(s[j] == old_map[oj]);
                } else if j == p {
                    assert(s[i] == old_map[oi]);
                } else {
                    assert(s[i] == old_map[oi] && s[j] == old_map[oj]);
                }
            }
        }
    }
}

/// The role store.
pub struct RoleRepository {
    roles: Vec<RoleRecord>,
    next_id: i32,
}

impl RoleRepository {
    /// The rows, in table (identifier) order.
    pub closed spec fn rows(&self) -> Seq<RoleRecordV> {
        role_views(self.roles@)
    }

    /// The identifier the next insert will receive.
    pub closed spec fn next_id_spec(&self) -> int {
        self.next_id as int
    }

    /// The store's invariant: positive identifiers, strictly increasing,
    /// all below the next free identifier; names unique.
    pub open spec fn wf(&self) -> bool {
        &&& 1 <= self.next_id_spec()
        &&& forall|i: int|
            0 <= i < self.rows().len() ==> 1 <= (#[trigger] self.rows()[i]).id
                < self.next_id_spec()
        &&& forall|i: int, j: int|
            0 <= i < j < self.rows().len() ==> (#[trigger] self.rows()[i]).id < (
            #[trigger] self.rows()[j]).id
        &&& forall|i: int, j: int|
            0 <= i < j < self.rows().len() ==> (#[trigger] self.rows()[i]).name != (
            #[trigger] self.rows()[j]).name
    }

    /// An empty store.
    pub fn new() -> (r: Self)
        ensures
            r.wf(),
            r.rows() == Seq::<RoleRecordV>::empty(),
            r.next_id_spec() == 1,
    {
        let r = RoleRepository { roles: Vec::new(), next_id: 1 };
        proof {
            assert(r.rows() =~= Seq::<RoleRecordV>::empty());
        }
        r
    }

    /// Look a role up by its name.
    pub fn find_by_name(&self, name: &String) -> (r: Option<RoleRecord>)
        requires
            self.wf(),
        ensures
            r is Some <==> role_name_taken(self.rows(), name@),
            r matches Some(u) ==> u@ == self.rows()[role_idx_by_name(self.rows(), name@)]
                && u@.name == name@,
    {
        let n = self.roles.len();
        let mut i: usize = 0;
        while i < n
            invariant
                self.wf(),
                i <= n,
                n == self.rows().len(),
                forall|k: int| 0 <= k < i ==> (#[trigger] self.rows()[k]).name != name@,
            decreases n - i,
        {
            if self.roles[i].name == *name {
                proof {
                    assert(self.rows()[i as int].name == name@);
                    let k = role_idx_by_name(self.rows(), name@);
                    assert(0 <= k < self.rows().len() && self.rows()[k].name == name@);
                    if k != i as int {
                        assert(self.rows()[k].name != self.rows()[i as int].name);
                    }
                }
                return Some(self.roles[i].duplicate());
            }
            i += 1;
        }
        None
    }

    /// Look a role up by its identifier.
    pub fn find_by_id(&self, id: i32) -> (r: Option<RoleRecord>)
        requires
            self.wf(),
        ensures
            r is Some <==> role_id_present(self.rows(), id as int),
            r matches Some(u) ==> u@ == self.rows()[role_idx_by_id(self.rows(), id as int)]
                && u@.id == id as int,
    {
        let n = self.roles.len();
        let mut i: usize = 0;
        while i < n
            invariant
                self.wf(),
                i <= n,
                n == self.rows().len(),
                forall|k: int| 0 <= k < i ==> (#[trigger] self.rows()[k]).id != id as int,
            decreases n - i,
        {
            if self.roles[i].id == id {
                proof {
                    assert(self.rows()[i as int].id == id as int);
                    let k = role_idx_by_id(self.rows(), id as int);
                    assert(0 <= k < self.rows().len() && self.rows()[k].id == id as int);
                    if k != i as int {
                        assert(self.rows()[k].id != self.rows()[i as int].id);
                    }
                }
                return Some(self.roles[i].duplicate());
            }
            i += 1;
        }
        None
    }

    /// Insert a new role row. Fails, leaving the store unchanged, when the
    /// name is already held by a row (the schema's unique constraint) or the
    /// identifier space is exhausted.
    pub fn create(&mut self, record: RoleRecordMutation, now: u64) -> (r: Result<
        RoleRecord,
        DatabaseError,
    >)
        requires
            old(self).wf(),
        ensures
            final(self).wf(),
            final(self).next_id_spec() >= old(self).next_id_spec(),
            match r {
                Ok(u) => {
                    &&& !role_name_taken(old(self).rows(), record.name@)
                    &&& old(self).next_id_spec() < i32::MAX
                    &&& u@ == (RoleRecordV {
                        id: old(self).next_id_spec(),
                        name: record.name@,
                        description: opt_str_view(record.description),
                        created_at: Some(now),
                        updated_at: Some(now),
                    })
                    &&& final(self).rows() == old(self).rows().push(u@)
                    &&& final(self).next_id_spec() == old(self).next_id_spec() + 1
                },
                Err(e) => {
                    &&& role_name_taken(old(self).rows(), record.name@) || old(
                        self,
                    ).next_id_spec() == i32::MAX
                    &&& *final(self) == *old(self)
                    &&& e matches DatabaseError::ConnectionError(_)
                },
            },
    {
        if self.next_id == i32::MAX {
            return Err(
                DatabaseError::ConnectionError(String::from_str("identifier space exhausted")),
            );
        }
        let n = self.roles.len();
        let mut i: usize = 0;
        while i < n
            invariant
                self.wf(),
                i <= n,
                n == self.rows().len(),
                forall|k: int| 0 <= k < i ==> (#[trigger] self.rows()[k]).name != record.name@,
            decreases n - i,
        {
            if self.roles[i].name == record.name {
                assert(self.rows()[i as int].name == record.name@);
                return Err(
                    DatabaseError::ConnectionError(
                        String::from_str("unique constraint violated: roles.name"),
                    ),
                );
            }
            i += 1;
        }
        let row = RoleRecord {
            id: self.next_id,
            name: record.name,
            description: record.description,
            created_at: Some(now),
            updated_at: Some(now),
        };
        let out = row.duplicate();
        let ghost old_rows = self.rows();
        self.roles.push(row);
        self.next_id = self.next_id + 1;
        proof {
            assert(self.rows() =~= old_rows.push(out@));
        }
        Ok(out)
    }

    /// Replace the name and description of the row carrying this
    /// identifier. Fails, leaving the store unchanged, when no row carries
    /// it or another row already holds the new name.
    pub fn update(&mut self, id: i32, record: RoleRecordMutation, now: u64) -> (r: Result<
        RoleRecord,
        DatabaseError,
    >)
        requires
            old(self).wf(),
        ensures
            final(self).wf(),
            final(self).next_id_spec() == old(self).next_id_spec(),
            match r {
                Ok(u) => {
                    &&& role_id_present(old(self).rows(), id as int)
                    &&& u@ == (RoleRecordV {
                        id: id as int,
                        name: record.name@,
                        description: opt_str_view(record.description),
                        created_at: old(self).rows()[role_idx_by_id(
                            old(self).rows(),
                            id as int,
                        )].created_at,
                        updated_at: Some(now),
                    })
                    &&& final(self).rows() == old(self).rows().update(
                        role_idx_by_id(old(self).rows(), id as int),
                        u@,
                    )
                },
                Err(e) => {
                    &&& !role_id_present(old(self).rows(), id as int) || (exists|j: int|
                        0 <= j < old(self).rows().len() && (#[trigger] old(self).rows()[j]).name
                            == record.name@ && old(self).rows()[j].id != id as int)
                    &&& *final(self) == *old(self)
                    &&& e matches DatabaseError::ConnectionError(_)
                },
            },
    {
        let n = self.roles.len();
        let mut idx: usize = 0;
        let mut found = false;
        let mut i: usize = 0;
        while i < n
            invariant
                self.wf(),
                i <= n,
                n == self.rows().len(),
                !found ==> forall|k: int| 0 <= k < i ==> (#[trigger] self.rows()[k]).id != id as int,
                found ==> idx < i && self.rows()[idx as int].id == id as int,
            decreases n - i,
        {
            if self.roles[i].id == id {
                idx = i;
                found = true;
                proof {
                    assert(self.rows()[i as int].id == id as int);
                }
            }
            i += 1;
        }
        if !found {
            return Err(
                DatabaseError::ConnectionError(String::from_str("no row with this identifier")),
            );
        }
        proof {
            let k = role_idx_by_id(self.rows(), id as int);
            assert(0 <= k < self.rows().len() && self.rows()[k].id == id as int);
            if k != idx as int {
                assert(self.rows()[k].id != self.rows()[idx as int].id);
            }
        }
        let mut j: usize = 0;
        while j < n
            invariant
                self.wf(),
                j <= n,
                n == self.rows().len(),
                idx < n,
                forall|k: int|
                    0 <= k < j && (#[trigger] self.rows()[k]).id != id as int ==> self.rows()[k].name
                        != record.name@,
                self.rows()[idx as int].id == id as int,
            decreases n - j,
        {
            if j != idx && self.roles[j].name == record.name {
                proof {
                    assert(self.rows()[j as int].name == record.name@);
                    assert(self.rows()[j as int].id != id as int);
                }
                return Err(
                    DatabaseError::ConnectionError(
                        String::from_str("unique constraint violated: roles.name"),
                    ),
                );
            }
            j += 1;
        }
        let created_at = self.roles[idx].created_at;
        let row = RoleRecord {
            id,
            name: record.name,
            description: record.description,
            created_at,
            updated_at: Some(now),
        };
        let out = row.duplicate();
        let ghost old_rows = self.rows();
        self.roles[idx] = row;
        proof {
            assert(self.rows() =~= old_rows.update(idx as int, out@));
        }
        Ok(out)
    }

    /// Remove the row carrying this identifier; removing an absent
    /// identifier succeeds and changes nothing.
    pub fn delete(&mut self, id: i32) -> (r: Result<(), DatabaseError>)
        requires
            old(self).wf(),
        ensures
            final(self).wf(),
            final(self).next_id_spec() == old(self).next_id_spec(),
            r is Ok,
            role_id_present(old(self).rows(), id as int) ==> final(self).rows() == old(
                self,
            ).rows().remove(role_idx_by_id(old(self).rows(), id as int)),
            !role_id_present(old(self).rows(), id as int) ==> *final(self) == *old(self),
    {
        let n = self.roles.len();
        let mut i: usize = 0;
        while i < n
            invariant
                self.wf(),
                i <= n,
                n == self.rows().len(),
                *self == *old(self),
                forall|k: int| 0 <= k < i ==> (#[trigger] self.rows()[k]).id != id as int,
            decreases n - i,
        {
            if self.roles[i].id == id {
                proof {
                    assert(self.rows()[i as int].id == id as int);
                    let k = role_idx_by_id(self.rows(), id as int);
                    assert(0 <= k < self.rows().len() && self.rows()[k].id == id as int);
                    if k != i as int {
                        assert(self.rows()[k].id != self.rows()[i as int].id);
                    }
                }
                let ghost old_rows = self.rows();
                self.roles.remove(i);
                proof {
                    assert(self.rows() =~= old_rows.remove(i as int));
                }
                return Ok(());
            }
            i += 1;
        }
        Ok(())
    }

    /// How many rows the store holds.
    pub fn row_count(&self) -> (n: usize)
        ensures
            n == self.rows().len(),
    {
        self.roles.len()
    }

    /// The row at this position of the table order.
    pub fn row_at(&self, i: usize) -> (r: &RoleRecord)
        requires
            i < self.rows().len(),
        ensures
            r@ == self.rows()[i as int],
    {
        &self.roles[i]
    }

    /// One page of the listing ordered by name: the page's slice of a
    /// name-sorted arrangement of the table, with the total count.
    pub fn paginate(&self, page: u64, limit: u64) -> (r: Result<
        PaginatedRecords<RoleRecord>,
        DatabaseError,
    >)
        requires
            self.wf(),
            1 <= page,
            (page - 1) * limit <= u64::MAX,
        ensures
            r matches Ok(p) ==> {
                &&& p.total == self.rows().len()
                &&& p.page == page
                &&& p.limit == limit
                &&& exists|q: Seq<RoleRecordV>|
                    {
                        &&& #[trigger] roles_sorted_by_name(q)
                        &&& q.to_multiset() == self.rows().to_multiset()
                        &&& role_views(p.records@) == page_slice(q, page as int, limit as int)
                    }
            },
            r is Ok,
    {
        let n = self.roles.len();
        let mut sorted: Vec<RoleRecord> = Vec::new();
        proof {
            assert(role_views(sorted@) =~= Seq::<RoleRecordV>::empty());
            assert(self.rows().take(0) =~= Seq::<RoleRecordV>::empty());
        }
        let mut i: usize = 0;
        while i < n
            invariant
                self.wf(),
                i <= n,
                n == self.rows().len(),
                roles_sorted_by_name(role_views(sorted@)),
                role_views(sorted@).to_multiset() == self.rows().take(i as int).to_multiset(),
                sorted@.len() == i,
            decreases n - i,
        {
            let ghost prefix = self.rows().take(i as int);
            sorted_insert_role(&mut sorted, self.roles[i].duplicate());
            proof {
                assert(self.rows().take(i + 1) =~= prefix.push(self.rows()[i as int]));
            }
            i += 1;
        }
        proof {
            assert(self.rows().take(n as int) =~= self.rows());
        }
        let offset = (page - 1) * limit;
        let start: usize = if offset > n as u64 {
            n
        } else {
            offset as usize
        };
        let remaining = n - start;
        let take: usize = if limit > remaining as u64 {
            remaining
        } else {
            limit as usize
        };
        let mut records: Vec<RoleRecord> = Vec::new();
        let mut j: usize = 0;
        while j < take
            invariant
                j <= take,
                sorted@.len() == n,
                start + take <= n,
                records@.len() == j,
                forall|k: int|
                    0 <= k < j ==> (#[trigger] records@[k])@ == role_views(sorted@)[start + k],
            decreases take - j,
        {
            let row = sorted[start + j].duplicate();
            records.push(row);
            j += 1;
        }
        proof {
            assert(role_views(records@) =~= page_slice(
                role_views(sorted@),
                page as int,
                limit as int,
            ));
        }
        Ok(PaginatedRecords { records, total: n as u64, page, limit })
    }
}

} // verus!
