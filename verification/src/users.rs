//! The account store: rows keyed by a serial identifier, with the schema's
//! invariants — identifiers strictly increasing (so the table is ordered by
//! id) and emails unique.

use vstd::prelude::*;

use crate::error::DatabaseError;
use crate::listing::page_slice;
use crate::records::{PaginatedRecords, UserRecord, UserRecordMutation, UserRecordV};

verus! {

/// Some row holds this email.
pub open spec fn email_taken(rows: Seq<UserRecordV>, email: Seq<char>) -> bool {
    exists|i: int| 0 <= i < rows.len() && rows[i].email == email
}

/// The index of the row holding this email (meaningful when `email_taken`).
pub open spec fn user_idx_by_email(rows: Seq<UserRecordV>, email: Seq<char>) -> int {
    choose|i: int| 0 <= i < rows.len() && rows[i].email == email
}

/// The row holding this email (meaningful when `email_taken`).
pub open spec fn user_by_email(rows: Seq<UserRecordV>, email: Seq<char>) -> UserRecordV {
    rows[user_idx_by_email(rows, email)]
}

/// Some row carries this identifier.
pub open spec fn user_id_present(rows: Seq<UserRecordV>, id: int) -> bool {
    exists|i: int| 0 <= i < rows.len() && rows[i].id == id
}

/// The index of the row carrying this identifier (meaningful when present).
pub open spec fn user_idx_by_id(rows: Seq<UserRecordV>, id: int) -> int {
    choose|i: int| 0 <= i < rows.len() && rows[i].id == id
}

/// The views of a sequence of account rows.
pub open spec fn user_views(s: Seq<UserRecord>) -> Seq<UserRecordV> {
    s.map(|i: int, u: UserRecord| u@)
}

/// The account store.
pub struct UserRepository {
    users: Vec<UserRecord>,
    next_id: i32,
}

impl UserRepository {
    /// The rows, in table (identifier) order.
    pub closed spec fn rows(&self) -> Seq<UserRecordV> {
        user_views(self.users@)
    }

    /// The identifier the next insert will receive.
    pub closed spec fn next_id_spec(&self) -> int {
        self.next_id as int
    }

    /// The store's invariant: positive identifiers, strictly increasing
    /// (hence unique and in insertion order), all below the next free
    /// identifier; emails unique.
    pub open spec fn wf(&self) -> bool {
        &&& 1 <= self.next_id_spec()
        &&& forall|i: int|
            0 <= i < self.rows().len() ==> 1 <= (#[trigger] self.rows()[i]).id
                < self.next_id_spec()
        &&& forall|i: int, j: int|
            0 <= i < j < self.rows().len() ==> (#[trigger] self.rows()[i]).id < (
            #[trigger] self.rows()[j]).id
        &&& forall|i: int, j: int|
            0 <= i < j < self.rows().len() ==> (#[trigger] self.rows()[i]).email != (
            #[trigger] self.rows()[j]).email
    }

    /// An empty store.
    pub fn new() -> (r: Self)
        ensures
            r.wf(),
            r.rows() == Seq::<UserRecordV>::empty(),
            r.next_id_spec() == 1,
    {
        let r = UserRepository { users: Vec::new(), next_id: 1 };
        proof {
            assert(r.rows() =~= Seq::<UserRecordV>::empty());
        }
        r
    }

    /// Look an account up by its email.
    pub fn find_by_email(&self, email: &String) -> (r: Option<UserRecord>)
        requires
            self.wf(),
        ensures
            r is Some <==> email_taken(self.rows(), email@),
            r matches Some(u) ==> u@ == user_by_email(self.rows(), email@) && u@.email
                == email@,
    {
        let n = self.users.len();
        let mut i: usize = 0;
        while i < n
            invariant
                self.wf(),
                i <= n,
                n == self.rows().len(),
                forall|k: int| 0 <= k < i ==> (#[trigger] self.rows()[k]).email != email@,
            decreases n - i,
        {
            if self.users[i].email == *email {
                proof {
                    assert(self.rows()[i as int].email == email@);
                    let k = user_idx_by_email(self.rows(), email@);
                    assert(0 <= k < self.rows().len() && self.rows()[k].email == email@);
                    if k != i as int {
                        assert(self.rows()[k].email != self.rows()[i as int].email);
                    }
                }
                return Some(self.users[i].duplicate());
            }
            i += 1;
        }
        None
    }

    /// Look an account up by its identifier.
    pub fn find_by_id(&self, id: i32) -> (r: Option<UserRecord>)
        requires
            self.wf(),
        ensures
            r is Some <==> user_id_present(self.rows(), id as int),
            r matches Some(u) ==> u@ == self.rows()[user_idx_by_id(self.rows(), id as int)]
                && u@.id == id as int,
    {
        let n = self.users.len();
        let mut i: usize = 0;
        while i < n
            invariant
                self.wf(),
                i <= n,
                n == self.rows().len(),
                forall|k: int| 0 <= k < i ==> (#[trigger] self.rows()[k]).id != id as int,
            decreases n - i,
        {
            if self.users[i].id == id {
                proof {
                    assert(self.rows()[i as int].id == id as int);
                    let k = user_idx_by_id(self.rows(), id as int);
                    assert(0 <= k < self.rows().len() && self.rows()[k].id == id as int);
                    if k != i as int {
                        assert(self.rows()[k].id != self.rows()[i as int].id);
                    }
                }
                return Some(self.users[i].duplicate());
            }
            i += 1;
        }
        None
    }

    /// Insert a new account row. Fails, leaving the store unchanged, when the
    /// email is already held by a row (the schema's unique constraint) or the
    /// identifier space is exhausted.
    pub fn create(&mut self, record: UserRecordMutation, now: u64) -> (r: Result<
        UserRecord,
        DatabaseError,
    >)
        requires
            old(self).wf(),
        ensures
            final(self).wf(),
            final(self).next_id_spec() >= old(self).next_id_spec(),
            match r {
                Ok(u) => {
                    &&& !email_taken(old(self).rows(), record.email@)
                    &&& old(self).next_id_spec() < i32::MAX
                    &&& u@ == (UserRecordV {
                        id: old(self).next_id_spec(),
                        first_name: record.first_name@,
                        last_name: record.last_name@,
                        email: record.email@,
                        password: record.password@,
                        created_at: Some(now),
                        updated_at: Some(now),
                    })
                    &&& final(self).rows() == old(self).rows().push(u@)
                    &&& final(self).next_id_spec() == old(self).next_id_spec() + 1
                },
                Err(e) => {
                    &&& email_taken(old(self).rows(), record.email@) || old(
                        self,
                    ).next_id_spec() == i32::MAX
                    &&& *final(self) == *old(self)
                    &&& e matches DatabaseError::ConnectionError(_)
                },
            },
    {
        if self.next_id == i32::MAX {
            return Err(
                DatabaseError::ConnectionError(String::from_str("identifier space exhausted")),
            );
        }
        let n = self.users.len();
        let mut i: usize = 0;
        while i < n
            invariant
                self.wf(),
                i <= n,
                n == self.rows().len(),
                forall|k: int| 0 <= k < i ==> (#[trigger] self.rows()[k]).email != record.email@,
            decreases n - i,
        {
            if self.users[i].email == record.email {
                assert(self.rows()[i as int].email == record.email@);
                return Err(
                    DatabaseError::ConnectionError(
                        String::from_str("unique constraint violated: users.email"),
                    ),
                );
            }
            i += 1;
        }
        let row = UserRecord {
            id: self.next_id,
            first_name: record.first_name,
            last_name: record.last_name,
            email: record.email,
            password: record.password,
            created_at: Some(now),
            updated_at: Some(now),
        };
        let out = row.duplicate();
        let ghost old_rows = self.rows();
        self.users.push(row);
        self.next_id = self.next_id + 1;
        proof {
            assert(self.rows() =~= old_rows.push(out@));
        }
        Ok(out)
    }

    /// Replace the mutable fields of the row carrying this identifier.
    /// Fails, leaving the store unchanged, when no row carries it or another
    /// row already holds the new email.
    pub fn update(&mut self, id: i32, record: UserRecordMutation, now: u64) -> (r: Result<
        UserRecord,
        DatabaseError,
    >)
        requires
            old(self).wf(),
        ensures
            final(self).wf(),
            final(self).next_id_spec() == old(self).next_id_spec(),
            match r {
                Ok(u) => {
                    &&& user_id_present(old(self).rows(), id as int)
                    &&& u@ == (UserRecordV {
                        id: id as int,
                        first_name: record.first_name@,
                        last_name: record.last_name@,
                        email: record.email@,
                        password: record.password@,
                        created_at: old(self).rows()[user_idx_by_id(
                            old(self).rows(),
                            id as int,
                        )].created_at,
                        updated_at: Some(now),
                    })
                    &&& final(self).rows() == old(self).rows().update(
                        user_idx_by_id(old(self).rows(), id as int),
                        u@,
                    )
                },
                Err(e) => {
                    &&& !user_id_present(old(self).rows(), id as int) || (exists|j: int|
                        0 <= j < old(self).rows().len() && (#[trigger] old(self).rows()[j]).email
                            == record.email@ && old(self).rows()[j].id != id as int)
                    &&& *final(self) == *old(self)
                    &&& e matches DatabaseError::ConnectionError(_)
                },
            },
    {
        let n = self.users.len();
        let mut idx: usize = 0;
        let mut found = false;
        let mut i: usize = 0;
        while i < n
            invariant
                self.wf(),
                i <= n,
                n == self.rows().len(),
                !found ==> forall|k: int| 0 <= k < i ==> (#[trigger] self.rows()[k]).id != id as int,
                found ==> idx < i && self.rows()[idx as int].id == id as int,
            decreases n - i,
        {
            if self.users[i].id == id {
                idx = i;
                found = true;
                proof {
                    assert(self.rows()[i as int].id == id as int);
                }
            }
            i += 1;
        }
        if !found {
            return Err(
                DatabaseError::ConnectionError(String::from_str("no row with this identifier")),
            );
        }
        proof {
            let k = user_idx_by_id(self.rows(), id as int);
            assert(0 <= k < self.rows().len() && self.rows()[k].id == id as int);
            if k != idx as int {
                assert(self.rows()[k].id != self.rows()[idx as int].id);
            }
        }
        let mut j: usize = 0;
        while j < n
            invariant
                self.wf(),
                j <= n,
                n == self.rows().len(),
                idx < n,
                forall|k: int|
                    0 <= k < j && (#[trigger] self.rows()[k]).id != id as int ==> self.rows()[k].email
                        != record.email@,
                self.rows()[idx as int].id == id as int,
            decreases n - j,
        {
            if j != idx && self.users[j].email == record.email {
                proof {
                    assert(self.rows()[j as int].email == record.email@);
                    assert(self.rows()[j as int].id != id as int);
                }
                return Err(
                    DatabaseError::ConnectionError(
                        String::from_str("unique constraint violated: users.email"),
                    ),
                );
            }
            j += 1;
        }
        let created_at = self.users[idx].created_at;
        let row = UserRecord {
            id,
            first_name: record.first_name,
            last_name: record.last_name,
            email: record.email,
            password: record.password,
            created_at,
            updated_at: Some(now),
        };
        let out = row.duplicate();
        let ghost old_rows = self.rows();
        self.users[idx] = row;
        proof {
            assert(self.rows() =~= old_rows.update(idx as int, out@));
        }
        Ok(out)
    }

    /// Remove the row carrying this identifier; removing an absent
    /// identifier succeeds and changes nothing.
    pub fn delete(&mut self, id: i32) -> (r: Result<(), DatabaseError>)
        requires
            old(self).wf(),
        ensures
            final(self).wf(),
            final(self).next_id_spec() == old(self).next_id_spec(),
            r is Ok,
            user_id_present(old(self).rows(), id as int) ==> final(self).rows() == old(
                self,
            ).rows().remove(user_idx_by_id(old(self).rows(), id as int)),
            !user_id_present(old(self).rows(), id as int) ==> *final(self) == *old(self),
    {
        let n = self.users.len();
        let mut i: usize = 0;
        while i < n
            invariant
                self.wf(),
                i <= n,
                n == self.rows().len(),
                *self == *old(self),
                forall|k: int| 0 <= k < i ==> (#[trigger] self.rows()[k]).id != id as int,
            decreases n - i,
        {
            if self.users[i].id == id {
                proof {
                    assert(self.rows()[i as int].id == id as int);
                    let k = user_idx_by_id(self.rows(), id as int);
                    assert(0 <= k < self.rows().len() && self.rows()[k].id == id as int);
                    if k != i as int {
                        assert(self.rows()[k].id != self.rows()[i as int].id);
                    }
                }
                let ghost old_rows = self.rows();
                self.users.remove(i);
                proof {
                    assert(self.rows() =~= old_rows.remove(i as int));
                }
                return Ok(());
            }
            i += 1;
        }
        Ok(())
    }

    /// How many rows the store holds.
    pub fn row_count(&self) -> (n: usize)
        ensures
            n == self.rows().len(),
    {
        self.users.len()
    }

    /// The row at this position of the table order.
    pub fn row_at(&self, i: usize) -> (r: &UserRecord)
        requires
            i < self.rows().len(),
        ensures
            r@ == self.rows()[i as int],
    {
        &self.users[i]
    }

    /// One page of the listing ordered by identifier: rows
    /// `(page - 1) * limit ..` up to `limit` of them, with the total count.
    pub fn paginate(&self, page: u64, limit: u64) -> (r: Result<
        PaginatedRecords<UserRecord>,
        DatabaseError,
    >)
        requires
            self.wf(),
            1 <= page,
            (page - 1) * limit <= u64::MAX,
        ensures
            r matches Ok(p) ==> {
                &&& user_views(p.records@) == page_slice(self.rows(), page as int, limit as int)
                &&& p.total == self.rows().len()
                &&& p.page == page
                &&& p.limit == limit
            },
            r is Ok,
    {
        let n = self.users.len();
        let offset = (page - 1) * limit;
        let start: usize = if offset > n as u64 {
            n
        } else {
            offset as usize
        };
        let remaining = n - start;
        let take: usize = if limit > remaining as u64 {
            remaining
        } else {
            limit as usize
        };
        let mut records: Vec<UserRecord> = Vec::new();
        let mut i: usize = 0;
        while i < take
            invariant
                self.wf(),
                i <= take,
                n == self.rows().len(),
                start + take <= n,
                records@.len() == i,
                forall|k: int|
                    0 <= k < i ==> (#[trigger] records@[k])@ == self.rows()[start + k],
            decreases take - i,
        {
            let row = self.users[start + i].duplicate();
            records.push(row);
            i += 1;
        }
        proof {
            assert(user_views(records@) =~= page_slice(self.rows(), page as int, limit as int));
        }
        Ok(PaginatedRecords { records, total: n as u64, page, limit })
    }
}

} // verus!
