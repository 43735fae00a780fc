//! Archive statistics.

use vstd::prelude::*;

verus! {

/// The sum of the counts.
pub open spec fn sum_counts(counts: Seq<(String, i64)>) -> int
    decreases counts.len(),
{
    if counts.len() == 0 {
        0
    } else {
        sum_counts(counts.drop_last()) + counts.last().1
    }
}

/// The number of documents, from the per-status counts. The sum must fit an
/// `i64`, as in the running total.
pub fn total_documents(counts: &Vec<(String, i64)>) -> (r: i64)
    requires
        forall|i: int| 0 <= i <= counts@.len() ==> i64::MIN <= #[trigger] sum_counts(counts@.take(i)) <= i64::MAX,
    ensures
        r == sum_counts(counts@),
{
    let mut total: i64 = 0;
    let mut i: usize = 0;
    assert(counts@.take(0) =~= Seq::<(String, i64)>::empty());
    while i < counts.len()
        invariant
            i <= counts@.len(),
            forall|j: int| 0 <= j <= counts@.len() ==> i64::MIN <= #[trigger] sum_counts(counts@.take(j)) <= i64::MAX,
            total == sum_counts(counts@.take(i as int)),
        decreases counts@.len() - i,
    {
        assert(counts@.take(i as int + 1).drop_last() =~= counts@.take(i as int));
        assert(i64::MIN <= sum_counts(counts@.take(i as int + 1)) <= i64::MAX);
        total = total + counts[i].1;
        i = i + 1;
    }
    assert(counts@.take(counts@.len() as int) =~= counts@);
    total
}

} // verus!
