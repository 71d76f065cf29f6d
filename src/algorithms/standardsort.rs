//! The standard library's sort, as the baseline.
use crate::algorithms::{
    column_is_uniform, get_comparator, mergesort, order_consistent, sorted_by, sorted_permutation, Comparator,
};
use crate::models::Record;
use vstd::prelude::*;

verus! {

/// Relies on `slice::sort_by`: a stable sort, which asks the comparison to be a
/// total order on the elements (otherwise it may panic). Stable means that an
/// already sorted slice stays as it is.
#[verifier::external_body]
fn sort_by_comparator(records: &mut Vec<Record>, compare: &Comparator)
    requires
        order_consistent(old(records)@, compare.column as int),
    ensures
        final(records)@.to_multiset() == old(records)@.to_multiset(),
        sorted_by(final(records)@, compare.column as int),
        sorted_by(old(records)@, compare.column as int) ==> final(records)@ == old(records)@,
{
    records.sort_by(|a, b| compare.compare(a, b));
}

/// Sorts `records` in place by the comparator's column with the library sort.
pub fn standard_sort(records: &mut Vec<Record>, compare: &Comparator)
    requires
        order_consistent(old(records)@, compare.column as int),
    ensures
        sorted_permutation(old(records)@, final(records)@, compare.column as int),
        sorted_by(old(records)@, compare.column as int) ==> final(records)@ == old(records)@,
{
    sort_by_comparator(records, compare);
}

/// Sorts `records` by the field at `column_index` with the library sort, and
/// returns the nanoseconds the sort took.
pub fn sort(records: &mut Vec<Record>, column_index: usize) -> (elapsed: u128)
    requires
        order_consistent(old(records)@, column_index as int),
    ensures
        sorted_permutation(old(records)@, final(records)@, column_index as int),
        sorted_by(old(records)@, column_index as int) ==> final(records)@ == old(records)@,
{
    let compare = get_comparator(column_index);
    let clock = crate::bench::start_clock();
    standard_sort(records, &compare);
    crate::bench::nanos_since(&clock)
}

/// Sorts `records` by the field at `column_index` without risk of a panic: with
/// the library sort when the column is uniform, and with merge sort otherwise. Returns the nanoseconds the sort took.
pub fn sort_any_column(records: &mut Vec<Record>, column_index: usize) -> (elapsed: u128)
    ensures
        sorted_permutation(old(records)@, final(records)@, column_index as int),
        sorted_by(old(records)@, column_index as int) ==> final(records)@ == old(records)@,
{
    if column_is_uniform(records, column_index) {
        sort(records, column_index)
    } else {
        mergesort::sort(records, column_index)
    }
}

} // verus!
