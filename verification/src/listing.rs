//! Shared helpers for ordered listings: selecting a page of a sequence and
//! stepping a filtered view one row at a time.

use vstd::prelude::*;

verus! {

/// The slice of an ordered listing selected by a 1-based page number and a
/// page size, clipped to the available rows.
pub open spec fn page_slice<A>(s: Seq<A>, page: int, limit: int) -> Seq<A> {
    let off = (page - 1) * limit;
    let start = if off > s.len() {
        s.len() as int
    } else {
        off
    };
    let end = if start + limit > s.len() {
        s.len() as int
    } else {
        start + limit
    };
    s.subrange(start, end)
}

} // verus!
