//! The schema migrations of the document store.

use vstd::prelude::*;

verus! {

/// The schema version a store is brought to.
pub const SCHEMA_VERSION: i64 = 2;

/// The schema version a store counts as being at: none is 0.
pub open spec fn applied(current: i64) -> int {
    if current < 0 {
        0
    } else if current > SCHEMA_VERSION {
        SCHEMA_VERSION as int
    } else {
        current as int
    }
}

/// Every version above `current` up to [`SCHEMA_VERSION`], ascending.
pub open spec fn pending(current: i64) -> Seq<i64> {
    Seq::new((SCHEMA_VERSION - applied(current)) as nat, |k: int| (applied(current) + 1 + k) as i64)
}

/// The migrations to run on a store whose highest applied migration is
/// `current`, in the order they are run: every version above `current` up
/// to [`SCHEMA_VERSION`].
pub fn pending_migrations(current: i64) -> (r: Vec<i64>)
    ensures
        r@ == pending(current),
{
    let mut out: Vec<i64> = Vec::new();
    if current < 1 {
        out.push(1);
    }
    if current < 2 {
        out.push(2);
    }
    assert(out@ =~= pending(current));
    out
}

/// Running the pending migrations brings any store to [`SCHEMA_VERSION`]:
/// they come in ascending order, each above the version the store was at,
/// and the last one is the current schema.
pub proof fn lemma_migrations_reach_schema(current: i64)
    ensures
        ({
            let r = pending(current);
            &&& forall|i: int, j: int| 0 <= i < j < r.len() ==> r[i] < r[j]
            &&& forall|i: int| 0 <= i < r.len() ==> current < #[trigger] r[i] <= SCHEMA_VERSION
            &&& current < SCHEMA_VERSION ==> r.len() > 0 && r.last() == SCHEMA_VERSION
            &&& current >= SCHEMA_VERSION ==> r.len() == 0
        }),
{
}

} // verus!
