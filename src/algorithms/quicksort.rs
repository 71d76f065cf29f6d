//! Quicksort: the middle record is the pivot; records strictly less than it
//! move to the front, the pivot follows them, and each side is sorted in turn.
use crate::algorithms::{
    get_comparator, in_order, lemma_consistent_permutation, lemma_consistent_subrange, lemma_in_order_total,
    lemma_in_order_trans, lemma_permutation_forall, lemma_swap_multiset, order_consistent, record_order,
    sorted_by, sorted_permutation, swap_records, Comparator,
};
use crate::algorithms::agreement::{lemma_sorting_strictly_sorted_is_identity, strictly_sorted_by};
use crate::models::Record;
use core::cmp::Ordering;
use vstd::prelude::*;
use vstd::seq_lib::{group_to_multiset_ensures, lemma_multiset_commutative};

verus! {

/// Sorts `records` in place by the comparator's column.
///
/// Records with equal keys may change places, even in sorted input; input
/// without equal keys that is already sorted stays as it is.
pub fn quick_sort_all(records: &mut Vec<Record>, compare: &Comparator)
    ensures
        sorted_permutation(old(records)@, final(records)@, compare.column as int),
        strictly_sorted_by(old(records)@, compare.column as int) ==> final(records)@ == old(records)@,
{
    let n: usize = records.len();
    quick_sort(records, 0, n, compare);
    assert(old(records)@.subrange(0, n as int) =~= old(records)@);
    assert(records@.subrange(0, n as int) =~= records@);
    proof {
        if strictly_sorted_by(old(records)@, compare.column as int) {
            lemma_sorting_strictly_sorted_is_identity(old(records)@, records@, compare.column as int);
        }
    }
}

/// Sorts the records at `lo..hi` in place, leaving the others where they are.
pub fn quick_sort(records: &mut Vec<Record>, lo: usize, hi: usize, compare: &Comparator)
    requires
        lo <= hi <= old(records).len(),
    ensures
        final(records).len() == old(records).len(),
        forall|k: int| 0 <= k < old(records).len() && (k < lo || hi <= k) ==> final(records)@[k] == old(records)@[k],
        final(records)@.subrange(lo as int, hi as int).to_multiset() == old(records)@.subrange(
            lo as int,
            hi as int,
        ).to_multiset(),
        order_consistent(old(records)@.subrange(lo as int, hi as int), compare.column as int) ==> sorted_by(
            final(records)@.subrange(lo as int, hi as int),
            compare.column as int,
        ),
    decreases hi - lo,
{
    broadcast use group_to_multiset_ensures, lemma_multiset_commutative;

    if hi - lo <= 1 {
        return;
    }
    let ghost col = compare.column as int;
    let ghost s0 = records@;
    let p = partition(records, lo, hi, compare);
    let ghost s1 = records@;
    let ghost pivot = s1[p as int];
    quick_sort(records, lo, p, compare);
    let ghost s2 = records@;
    quick_sort(records, p + 1, hi, compare);
    let ghost s3 = records@;
    proof {
        let lo = lo as int;
        let hi = hi as int;
        let p = p as int;
        assert(s1.subrange(lo, hi) =~= s1.subrange(lo, p) + (seq![pivot] + s1.subrange(p + 1, hi)));
        assert(s3.subrange(lo, hi) =~= s3.subrange(lo, p) + (seq![pivot] + s3.subrange(p + 1, hi)));
        assert(s3.subrange(lo, p) =~= s2.subrange(lo, p));
        assert(s2.subrange(p + 1, hi) =~= s1.subrange(p + 1, hi));
        assert(s3.subrange(lo, hi).to_multiset() =~= s1.subrange(lo, hi).to_multiset());
        if order_consistent(s0.subrange(lo, hi), col) {
            let seg = s3.subrange(lo, hi);
            lemma_consistent_permutation(s0.subrange(lo, hi), s1.subrange(lo, hi), col);
            lemma_consistent_permutation(s0.subrange(lo, hi), seg, col);
            lemma_consistent_subrange(s1.subrange(lo, hi), 0, p - lo, col);
            lemma_consistent_subrange(s1.subrange(lo, hi), p - lo + 1, hi - lo, col);
            assert(s1.subrange(lo, hi).subrange(0, p - lo) =~= s1.subrange(lo, p));
            assert(s1.subrange(lo, hi).subrange(p - lo + 1, hi - lo) =~= s1.subrange(p + 1, hi));
            let below = |x: Record| record_order(x, pivot, col) == Ordering::Less;
            let above = |x: Record| in_order(pivot, x, col);
            assert forall|k: int| 0 <= k < s1.subrange(lo, p).len() implies #[trigger] below(
                s1.subrange(lo, p)[k],
            ) by {
                assert(record_order(s1[lo + k], s1[p], col) == Ordering::Less);
            }
            assert forall|k: int| 0 <= k < s1.subrange(p + 1, hi).len() implies #[trigger] above(
                s1.subrange(p + 1, hi)[k],
            ) by {
                lemma_in_order_total(s1[p + 1 + k], pivot, col);
            }
            lemma_permutation_forall(s1.subrange(lo, p), s3.subrange(lo, p), below);
            lemma_permutation_forall(s1.subrange(p + 1, hi), s3.subrange(p + 1, hi), above);
            assert(seg[p - lo] == pivot);
            assert forall|a: int, b: int| 0 <= a < b < seg.len() implies #[trigger] in_order(seg[a], seg[b], col) by {
                if a < p - lo && b < p - lo {
                    assert(s3.subrange(lo, p)[a] == seg[a] && s3.subrange(lo, p)[b] == seg[b]);
                } else if a > p - lo && b > p - lo {
                    assert(s3.subrange(p + 1, hi)[a - (p - lo) - 1] == seg[a]);
                    assert(s3.subrange(p + 1, hi)[b - (p - lo) - 1] == seg[b]);
                } else if b == p - lo {
                    assert(below(s3.subrange(lo, p)[a]));
                } else if a == p - lo {
                    assert(above(s3.subrange(p + 1, hi)[b - (p - lo) - 1]));
                } else {
                    assert(below(s3.subrange(lo, p)[a]));
                    assert(above(s3.subrange(p + 1, hi)[b - (p - lo) - 1]));
                    assert(seg.contains(seg[a]) && seg.contains(seg[b]) && seg.contains(seg[p - lo]));
                    lemma_in_order_trans(seg, seg[a], pivot, seg[b], col);
                }
            }
        }
    }
}

/// Moves the middle record of `lo..hi` to its final place `p`: the records
/// before it compare less, the ones after it do not.
pub fn partition(records: &mut Vec<Record>, lo: usize, hi: usize, compare: &Comparator) -> (p: usize)
    requires
        lo < hi <= old(records).len(),
    ensures
        lo <= p < hi,
        final(records)@[p as int] == old(records)@[lo + (hi - lo) / 2],
        final(records).len() == old(records).len(),
        forall|k: int| 0 <= k < old(records).len() && (k < lo || hi <= k) ==> final(records)@[k] == old(records)@[k],
        final(records)@.subrange(lo as int, hi as int).to_multiset() == old(records)@.subrange(
            lo as int,
            hi as int,
        ).to_multiset(),
        forall|k: int|
            lo <= k < p ==> record_order(final(records)@[k], final(records)@[p as int], compare.column as int)
                == Ordering::Less,
        forall|k: int|
            p < k < hi ==> record_order(final(records)@[k], final(records)@[p as int], compare.column as int)
                != Ordering::Less,
{
    let ghost col = compare.column as int;
    let ghost s0 = records@;
    let last: usize = hi - 1;
    let middle: usize = lo + (hi - lo) / 2;
    proof {
        lemma_swap_multiset(records@, middle as int, last as int, lo as int, hi as int);
    }
    swap_records(records, middle, last);
    let ghost pivot = records@[last as int];
    assert(pivot == s0[middle as int]);
    let mut i: usize = lo;
    let mut j: usize = lo;
    while j < last
        invariant
            lo <= i <= j <= last < hi <= records.len(),
            records.len() == s0.len(),
            col == compare.column as int,
            records@[last as int] == pivot,
            forall|k: int| 0 <= k < s0.len() && (k < lo || hi <= k) ==> records@[k] == s0[k],
            records@.subrange(lo as int, hi as int).to_multiset() == s0.subrange(lo as int, hi as int).to_multiset(),
            forall|k: int| lo <= k < i ==> record_order(#[trigger] records@[k], pivot, col) == Ordering::Less,
            forall|k: int| i <= k < j ==> record_order(#[trigger] records@[k], pivot, col) != Ordering::Less,
        decreases last - j,
    {
        let less = match compare.compare(&records[j], &records[last]) {
            Ordering::Less => true,
            _ => false,
        };
        if less {
            proof {
                lemma_swap_multiset(records@, i as int, j as int, lo as int, hi as int);
            }
            swap_records(records, i, j);
            i += 1;
        }
        j += 1;
    }
    proof {
        lemma_swap_multiset(records@, i as int, last as int, lo as int, hi as int);
    }
    swap_records(records, i, last);
    i
}

/// Sorts `records` by the field at `column_index` with quicksort, and returns
/// the nanoseconds the sort took.
pub fn sort(records: &mut Vec<Record>, column_index: usize) -> (elapsed: u128)
    ensures
        sorted_permutation(old(records)@, final(records)@, column_index as int),
        strictly_sorted_by(old(records)@, column_index as int) ==> final(records)@ == old(records)@,
{
    let compare = get_comparator(column_index);
    let clock = crate::bench::start_clock();
    quick_sort_all(records, &compare);
    crate::bench::nanos_since(&clock)
}

} // verus!
