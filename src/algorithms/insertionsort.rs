//! Insertion sort: each record moves left past the greater records before it.
use crate::algorithms::{
    get_comparator, in_order, lemma_consistent_permutation, lemma_in_order_total, order_consistent, sorted_by,
    sorted_permutation, swap_records, Comparator,
};
use crate::models::Record;
use vstd::prelude::*;

verus! {

/// Sorts `records` in place by the comparator's column.
pub fn insertion_sort(records: &mut Vec<Record>, compare: &Comparator)
    ensures
        sorted_permutation(old(records)@, final(records)@, compare.column as int),
        sorted_by(old(records)@, compare.column as int) ==> final(records)@ == old(records)@,
{
    let ghost col = compare.column as int;
    let ghost start = records@;
    let ghost consistent = order_consistent(start, col);
    let n: usize = records.len();
    let mut i: usize = 1;
    while i < n
        invariant
            1 <= i,
            records.len() == n,
            col == compare.column as int,
            consistent == order_consistent(start, col),
            records@.to_multiset() == start.to_multiset(),
            sorted_by(start, col) ==> records@ == start,
            consistent ==> forall|p: int, q: int|
                0 <= p < q < n && q < i ==> #[trigger] in_order(records@[p], records@[q], col),
        decreases n - i,
    {
        let mut j: usize = i;
        while j > 0 && compare.greater(&records[j - 1], &records[j])
            invariant
                0 <= j <= i < n,
                records.len() == n,
                col == compare.column as int,
                consistent == order_consistent(start, col),
                records@.to_multiset() == start.to_multiset(),
                sorted_by(start, col) ==> records@ == start && j == i,
                consistent ==> forall|p: int, q: int|
                    0 <= p < q <= i && p != j && q != j ==> #[trigger] in_order(records@[p], records@[q], col),
                consistent ==> forall|q: int| j < q <= i ==> #[trigger] in_order(records@[j as int], records@[q], col),
            decreases j,
        {
            let ghost before = records@;
            proof {
                lemma_in_order_total(before[j - 1], before[j as int], col);
                if sorted_by(start, col) {
                    assert(in_order(start[j - 1], start[j as int], col));
                }
            }
            swap_records(records, j - 1, j);
            j -= 1;
        }
        proof {
            if consistent {
                let s = records@;
                lemma_consistent_permutation(start, s, col);
                if j > 0 {
                    lemma_in_order_total(s[j - 1], s[j as int], col);
                }
                assert forall|p: int, q: int| 0 <= p < q < n && q < i + 1 implies #[trigger] in_order(
                    s[p],
                    s[q],
                    col,
                ) by {
                    if q == j && p < j - 1 {
                        assert(in_order(s[p], s[j - 1], col));
                        assert(in_order(s[j - 1], s[j as int], col));
                    }
                }
            }
        }
        i += 1;
    }
}

/// Sorts `records` by the field at `column_index` with insertion sort, and
/// returns the nanoseconds the sort took.
pub fn sort(records: &mut Vec<Record>, column_index: usize) -> (elapsed: u128)
    ensures
        sorted_permutation(old(records)@, final(records)@, column_index as int),
        sorted_by(old(records)@, column_index as int) ==> final(records)@ == old(records)@,
{
    let compare = get_comparator(column_index);
    let clock = crate::bench::start_clock();
    insertion_sort(records, &compare);
    crate::bench::nanos_since(&clock)
}

} // verus!
