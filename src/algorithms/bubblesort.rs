//! Bubble sort: adjacent exchanges, the unsorted prefix shrinking by one each pass.
use crate::algorithms::{
    get_comparator, in_order, lemma_consistent_permutation, lemma_in_order_refl, lemma_in_order_total,
    order_consistent, sorted_by, sorted_permutation, swap_records, Comparator,
};
use crate::models::Record;
use core::cmp::Ordering;
use vstd::prelude::*;

verus! {

/// Sorts `records` in place by the comparator's column.
pub fn bubble_sort(records: &mut Vec<Record>, compare: &Comparator)
    ensures
        sorted_permutation(old(records)@, final(records)@, compare.column as int),
        sorted_by(old(records)@, compare.column as int) ==> final(records)@ == old(records)@,
{
    let ghost col = compare.column as int;
    let ghost start = records@;
    let ghost consistent = order_consistent(start, col);
    let n: usize = records.len();
    let mut i: usize = 0;
    while i < n
        invariant
            i <= n,
            records.len() == n,
            col == compare.column as int,
            consistent == order_consistent(start, col),
            records@.to_multiset() == start.to_multiset(),
            sorted_by(start, col) ==> records@ == start,
            consistent ==> forall|p: int, q: int|
                0 <= p < q < n && q >= n - i ==> #[trigger] in_order(records@[p], records@[q], col),
        decreases n - i,
    {
        let bound: usize = n - i - 1;
        let mut j: usize = 0;
        proof {
            lemma_in_order_refl(records@[0], col);
        }
        while j < bound
            invariant
                i < n,
                bound == n - i - 1,
                j <= bound,
                records.len() == n,
                col == compare.column as int,
                consistent == order_consistent(start, col),
                records@.to_multiset() == start.to_multiset(),
                sorted_by(start, col) ==> records@ == start,
                consistent ==> forall|p: int, q: int|
                    0 <= p < q < n && q >= n - i ==> #[trigger] in_order(records@[p], records@[q], col),
                consistent ==> forall|k: int| 0 <= k <= j ==> #[trigger] in_order(records@[k], records@[j as int], col),
            decreases bound - j,
        {
            let ghost before = records@;
            proof {
                if consistent {
                    lemma_consistent_permutation(start, before, col);
                }
                lemma_in_order_total(before[j as int], before[j + 1], col);
                lemma_in_order_refl(before[j + 1], col);
                if sorted_by(start, col) {
                    assert(in_order(start[j as int], start[j + 1], col));
                }
            }
            let greater = match compare.compare(&records[j], &records[j + 1]) {
                Ordering::Greater => true,
                _ => false,
            };
            if greater {
                swap_records(records, j, j + 1);
                proof {
                    if consistent {
                        assert forall|k: int| 0 <= k <= j + 1 implies #[trigger] in_order(
                            records@[k],
                            records@[j + 1],
                            col,
                        ) by {
                            if k < j {
                                assert(in_order(before[k], before[j as int], col));
                            }
                        }
                    }
                }
            } else {
                proof {
                    assert(in_order(before[j as int], before[j + 1], col));
                    if consistent {
                        assert forall|k: int| 0 <= k <= j + 1 implies #[trigger] in_order(
                            records@[k],
                            records@[j + 1],
                            col,
                        ) by {
                            if k <= j {
                                assert(in_order(before[k], before[j as int], col));
                            }
                        }
                    }
                }
            }
            j += 1;
        }
        proof {
            if consistent {
                assert forall|p: int, q: int| 0 <= p < q < n && q >= n - (i + 1) implies #[trigger] in_order(
                    records@[p],
                    records@[q],
                    col,
                ) by {
                    if q == n - (i + 1) {
                        assert(in_order(records@[p], records@[j as int], col));
                    }
                }
            }
        }
        i += 1;
    }
}

/// Sorts `records` by the field at `column_index` with bubble sort, and returns
/// the nanoseconds the sort took.
pub fn sort(records: &mut Vec<Record>, column_index: usize) -> (elapsed: u128)
    ensures
        sorted_permutation(old(records)@, final(records)@, column_index as int),
        sorted_by(old(records)@, column_index as int) ==> final(records)@ == old(records)@,
{
    let compare = get_comparator(column_index);
    let clock = crate::bench::start_clock();
    bubble_sort(records, &compare);
    crate::bench::nanos_since(&clock)
}

} // verus!
