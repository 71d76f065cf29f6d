//! Merge sort: sort each half, then merge the halves through a fresh buffer,
//! the left record first whenever it is not greater.
use crate::algorithms::agreement::lemma_found_in_permutation;
use crate::algorithms::{
    lemma_consistent_with_extra, lemma_with_key_add, lemma_with_key_none, lemma_with_key_push, record_order, stable_by, with_key_of,
    get_comparator, in_order, lemma_consistent_permutation, lemma_consistent_subrange, lemma_in_order_refl,
    lemma_in_order_total, lemma_in_order_trans, lemma_sorted_subrange, order_consistent, sorted_by,
    sorted_permutation, Comparator,
};
use crate::models::Record;
use core::cmp::Ordering;
use vstd::prelude::*;
use vstd::seq_lib::{group_to_multiset_ensures, lemma_multiset_commutative, to_multiset_build};

verus! {

/// Sorts `records` in place by the comparator's column.
///
/// The sort is stable: records with equal keys keep the order they had.
pub fn merge_sort(records: &mut Vec<Record>, compare: &Comparator)
    ensures
        sorted_permutation(old(records)@, final(records)@, compare.column as int),
        stable_by(old(records)@, final(records)@, compare.column as int),
        sorted_by(old(records)@, compare.column as int) ==> final(records)@ == old(records)@,
{
    let mut taken: Vec<Record> = Vec::new();
    std::mem::swap(records, &mut taken);
    let mut sorted = sort_owned(taken, compare);
    std::mem::swap(records, &mut sorted);
}

/// Sorts the records it is given: each half on its own, then the two merged.
fn sort_owned(v: Vec<Record>, compare: &Comparator) -> (r: Vec<Record>)
    ensures
        sorted_permutation(v@, r@, compare.column as int),
        stable_by(v@, r@, compare.column as int),
        sorted_by(v@, compare.column as int) ==> r@ == v@,
    decreases v.len(),
{
    broadcast use group_to_multiset_ensures, lemma_multiset_commutative;

    let ghost col = compare.column as int;
    let ghost s = v@;
    let n: usize = v.len();
    if n <= 1 {
        return v;
    }
    let mid: usize = n / 2;
    let mut left = v;
    let right = left.split_off(mid);
    assert(s =~= left@ + right@);
    proof {
        if order_consistent(s, col) {
            lemma_consistent_subrange(s, 0, mid as int, col);
            lemma_consistent_subrange(s, mid as int, n as int, col);
            assert(left@ =~= s.subrange(0, mid as int));
            assert(right@ =~= s.subrange(mid as int, n as int));
        }
        if sorted_by(s, col) {
            lemma_sorted_subrange(s, 0, mid as int, col);
            lemma_sorted_subrange(s, mid as int, n as int, col);
            assert(left@ =~= s.subrange(0, mid as int));
            assert(right@ =~= s.subrange(mid as int, n as int));
        }
    }
    let ghost l0 = left@;
    let ghost r0 = right@;
    let left = sort_owned(left, compare);
    let right = sort_owned(right, compare);
    proof {
        assert((left@ + right@).to_multiset() =~= s.to_multiset());
        if order_consistent(left@ + right@, col) {
            lemma_consistent_permutation(left@ + right@, s, col);
        }
        if order_consistent(s, col) {
            lemma_consistent_permutation(s, left@ + right@, col);
        }
        if sorted_by(s, col) {
            assert forall|a: int, b: int| 0 <= a < left@.len() && 0 <= b < right@.len() implies in_order(
                left@[a],
                right@[b],
                col,
            ) by {
                assert(in_order(s[a], s[mid + b], col));
            }
        }
    }
    let ghost l1 = left@;
    let ghost r1 = right@;
    let out = merge(left, right, compare);
    proof {
        assert forall|x: Record|
            #![trigger with_key_of(out@, x, col)]
            order_consistent(s.push(x), col) implies with_key_of(out@, x, col) == with_key_of(s, x, col) by {
            assert forall|k: int| 0 <= k < l0.len() implies s.contains(#[trigger] l0[k]) by {
                assert(s[k] == l0[k]);
            }
            assert forall|k: int| 0 <= k < r0.len() implies s.contains(#[trigger] r0[k]) by {
                assert(s[mid + k] == r0[k]);
            }
            assert forall|k: int| 0 <= k < (l1 + r1).len() implies s.contains(#[trigger] (l1 + r1)[k]) by {
                lemma_found_in_permutation(s, l1 + r1, k);
            }
            lemma_consistent_with_extra(s, l0, x, col);
            lemma_consistent_with_extra(s, r0, x, col);
            lemma_consistent_with_extra(s, l1 + r1, x, col);
            assert(with_key_of(l1, x, col) == with_key_of(l0, x, col));
            assert(with_key_of(r1, x, col) == with_key_of(r0, x, col));
            lemma_with_key_add(l0, r0, x, col);
        }
    }
    out
}

/// Removes and returns the last record.
fn pop_last(v: &mut Vec<Record>) -> (x: Record)
    requires
        old(v).len() > 0,
    ensures
        final(v)@ == old(v)@.drop_last(),
        x == old(v)@.last(),
{
    match v.pop() {
        Some(x) => x,
        None => Vec::new(),
    }
}

/// The records of `v` in reverse order.
fn reversed(v: Vec<Record>) -> (r: Vec<Record>)
    ensures
        r@.len() == v@.len(),
        forall|k: int| 0 <= k < v@.len() ==> #[trigger] r@[k] == v@[v@.len() - 1 - k],
{
    let ghost s = v@;
    let mut rest = v;
    let mut r: Vec<Record> = Vec::new();
    while rest.len() > 0
        invariant
            rest@ == s.subrange(0, rest.len() as int),
            r.len() + rest.len() == s.len(),
            forall|k: int| 0 <= k < r.len() ==> #[trigger] r@[k] == s[s.len() - 1 - k],
        decreases rest.len(),
    {
        let x = pop_last(&mut rest);
        r.push(x);
    }
    r
}

/// Taking the left record next keeps the records of each key in their order,
/// given that every right record taken so far is less than it.
proof fn lemma_stable_take_left(l: Seq<Record>, r: Seq<Record>, i: int, j: int, prev: Seq<Record>, column: int)
    requires
        0 <= i < l.len(),
        0 <= j <= r.len(),
        forall|x: Record|
            #![trigger with_key_of(prev, x, column)]
            order_consistent((l + r).push(x), column) ==> with_key_of(prev, x, column) == with_key_of(
                l.subrange(0, i),
                x,
                column,
            ) + with_key_of(r.subrange(0, j), x, column),
        order_consistent(l + r, column) ==> forall|k: int|
            0 <= k < j ==> #[trigger] record_order(r[k], l[i], column) == Ordering::Less,
    ensures
        forall|x: Record|
            #![trigger with_key_of(prev.push(l[i]), x, column)]
            order_consistent((l + r).push(x), column) ==> with_key_of(prev.push(l[i]), x, column) == with_key_of(
                l.subrange(0, i + 1),
                x,
                column,
            ) + with_key_of(r.subrange(0, j), x, column),
{
    let both = l + r;
    assert(l.subrange(0, i + 1) =~= l.subrange(0, i).push(l[i]));
    assert forall|x: Record|
        #![trigger with_key_of(prev.push(l[i]), x, column)]
        order_consistent(both.push(x), column) implies with_key_of(prev.push(l[i]), x, column) == with_key_of(
            l.subrange(0, i + 1),
            x,
            column,
        ) + with_key_of(r.subrange(0, j), x, column) by {
        let a = with_key_of(l.subrange(0, i), x, column);
        let b = with_key_of(r.subrange(0, j), x, column);
        assert(with_key_of(prev, x, column) == a + b);
        lemma_with_key_push(prev, l[i], x, column);
        lemma_with_key_push(l.subrange(0, i), l[i], x, column);
        if record_order(l[i], x, column) == Ordering::Equal {
            let t = both.push(x);
            assert(both.push(x) =~= both + seq![x]);
            assert forall|m: int| 0 <= m < both.len() implies both.contains(#[trigger] both[m]) by {}
            lemma_consistent_with_extra(both, both, x, column);
            assert forall|k: int| 0 <= k < r.subrange(0, j).len() implies #[trigger] record_order(
                r.subrange(0, j)[k],
                x,
                column,
            ) != Ordering::Equal by {
                let rk = r[k];
                assert(r.subrange(0, j)[k] == rk);
                if record_order(rk, x, column) == Ordering::Equal {
                    assert(t[i] == l[i]);
                    assert(t[l.len() + k] == rk);
                    assert(t[both.len() as int] == x);
                    assert(t.contains(l[i]) && t.contains(rk) && t.contains(x));
                    lemma_in_order_total(rk, x, column);
                    lemma_in_order_trans(t, l[i], x, rk, column);
                    assert(record_order(rk, l[i], column) == Ordering::Less);
                    lemma_in_order_total(rk, l[i], column);
                }
            }
            lemma_with_key_none(r.subrange(0, j), x, column);
            assert(b =~= Seq::<Record>::empty());
            assert(a.push(l[i]) + b =~= (a + b).push(l[i]));
        }
    }
}

/// Taking the right record next keeps the records of each key in their order.
proof fn lemma_stable_take_right(l: Seq<Record>, r: Seq<Record>, i: int, j: int, prev: Seq<Record>, column: int)
    requires
        0 <= i <= l.len(),
        0 <= j < r.len(),
        forall|x: Record|
            #![trigger with_key_of(prev, x, column)]
            order_consistent((l + r).push(x), column) ==> with_key_of(prev, x, column) == with_key_of(
                l.subrange(0, i),
                x,
                column,
            ) + with_key_of(r.subrange(0, j), x, column),
    ensures
        forall|x: Record|
            #![trigger with_key_of(prev.push(r[j]), x, column)]
            order_consistent((l + r).push(x), column) ==> with_key_of(prev.push(r[j]), x, column) == with_key_of(
                l.subrange(0, i),
                x,
                column,
            ) + with_key_of(r.subrange(0, j + 1), x, column),
{
    assert(r.subrange(0, j + 1) =~= r.subrange(0, j).push(r[j]));
    assert forall|x: Record|
        #![trigger with_key_of(prev.push(r[j]), x, column)]
        order_consistent((l + r).push(x), column) implies with_key_of(prev.push(r[j]), x, column) == with_key_of(
            l.subrange(0, i),
            x,
            column,
        ) + with_key_of(r.subrange(0, j + 1), x, column) by {
        let a = with_key_of(l.subrange(0, i), x, column);
        let b = with_key_of(r.subrange(0, j), x, column);
        assert(with_key_of(prev, x, column) == a + b);
        lemma_with_key_push(prev, r[j], x, column);
        lemma_with_key_push(r.subrange(0, j), r[j], x, column);
        assert(a + b.push(r[j]) =~= (a + b).push(r[j]));
    }
}

/// Merges two sequences that are each sorted, taking the left record first
/// whenever it is not greater than the right one.
fn merge(left: Vec<Record>, right: Vec<Record>, compare: &Comparator) -> (out: Vec<Record>)
    requires
        order_consistent(left@ + right@, compare.column as int) ==> sorted_by(left@, compare.column as int)
            && sorted_by(right@, compare.column as int),
    ensures
        sorted_permutation(left@ + right@, out@, compare.column as int),
        (forall|a: int, b: int|
            0 <= a < left@.len() && 0 <= b < right@.len() ==> in_order(left@[a], right@[b], compare.column as int))
            ==> out@ == left@ + right@,
        forall|x: Record|
            #![trigger with_key_of(out@, x, compare.column as int)]
            order_consistent((left@ + right@).push(x), compare.column as int) ==> with_key_of(
                out@,
                x,
                compare.column as int,
            ) == with_key_of(left@, x, compare.column as int) + with_key_of(right@, x, compare.column as int),
{
    broadcast use group_to_multiset_ensures, lemma_multiset_commutative;

    let ghost col = compare.column as int;
    let ghost l = left@;
    let ghost r = right@;
    let ghost both = l + r;
    let ghost consistent = order_consistent(both, col);
    let ghost left_first = forall|a: int, b: int|
        0 <= a < l.len() && 0 <= b < r.len() ==> in_order(l[a], r[b], col);
    let mut lrest = reversed(left);
    let mut rrest = reversed(right);
    let mut out: Vec<Record> = Vec::new();
    let mut i: usize = 0;
    let mut j: usize = 0;
    assert(lrest.len() == l.len() && rrest.len() == r.len());
    assert(l.subrange(0, 0) =~= Seq::<Record>::empty() && r.subrange(0, 0) =~= Seq::<Record>::empty());
    assert forall|x: Record|
        #![trigger with_key_of(out@, x, col)]
        order_consistent(both.push(x), col) implies with_key_of(out@, x, col) == with_key_of(
            l.subrange(0, 0),
            x,
            col,
        ) + with_key_of(r.subrange(0, 0), x, col) by {
        lemma_with_key_none(out@, x, col);
        lemma_with_key_none(l.subrange(0, 0), x, col);
        lemma_with_key_none(r.subrange(0, 0), x, col);
        assert(Seq::<Record>::empty() + Seq::<Record>::empty() =~= Seq::<Record>::empty());
    }
    while lrest.len() > 0 || rrest.len() > 0
        invariant
            i + lrest.len() == l.len(),
            j + rrest.len() == r.len(),
            l.len() <= usize::MAX,
            r.len() <= usize::MAX,
            both == l + r,
            col == compare.column as int,
            forall|k: int| 0 <= k < lrest.len() ==> #[trigger] lrest@[k] == l[l.len() - 1 - k],
            forall|k: int| 0 <= k < rrest.len() ==> #[trigger] rrest@[k] == r[r.len() - 1 - k],
            out@.to_multiset() == l.subrange(0, i as int).to_multiset().add(r.subrange(0, j as int).to_multiset()),
            forall|k: int| 0 <= k < out.len() ==> both.contains(#[trigger] out@[k]),
            consistent == order_consistent(both, col),
            consistent ==> sorted_by(l, col) && sorted_by(r, col) && sorted_by(out@, col),
            consistent && i < l.len() ==> forall|k: int|
                0 <= k < out.len() ==> #[trigger] in_order(out@[k], l[i as int], col),
            consistent && j < r.len() ==> forall|k: int|
                0 <= k < out.len() ==> #[trigger] in_order(out@[k], r[j as int], col),
            left_first == (forall|a: int, b: int|
                0 <= a < l.len() && 0 <= b < r.len() ==> in_order(l[a], r[b], col)),
            left_first ==> (j > 0 ==> i == l.len()) && out@ == l.subrange(0, i as int) + r.subrange(0, j as int),
            consistent && i < l.len() ==> forall|k: int|
                0 <= k < j ==> #[trigger] record_order(r[k], l[i as int], col) == Ordering::Less,
            forall|x: Record|
                #![trigger with_key_of(out@, x, col)]
                order_consistent(both.push(x), col) ==> with_key_of(out@, x, col) == with_key_of(
                    l.subrange(0, i as int),
                    x,
                    col,
                ) + with_key_of(r.subrange(0, j as int), x, col),
        decreases lrest.len() + rrest.len(),
    {
        let ghost prev = out@;
        let take_left = if rrest.len() == 0 {
            true
        } else if lrest.len() == 0 {
            false
        } else {
            !compare.greater(&lrest[lrest.len() - 1], &rrest[rrest.len() - 1])
        };
        if take_left {
            assert(lrest@[lrest.len() - 1] == l[i as int]);
            let x = pop_last(&mut lrest);
            out.push(x);
            proof {
                assert(both[i as int] == l[i as int]);
                assert(l.subrange(0, i + 1) =~= l.subrange(0, i as int).push(l[i as int]));
                assert(out@ == prev.push(l[i as int]));
                to_multiset_build(prev, l[i as int]);
                to_multiset_build(l.subrange(0, i as int), l[i as int]);
                assert(out@.to_multiset() =~= l.subrange(0, i + 1).to_multiset().add(
                    r.subrange(0, j as int).to_multiset(),
                ));
                if consistent {
                    if j < r.len() {
                        assert(rrest@[rrest.len() - 1] == r[j as int]);
                    }
                    if i + 1 < l.len() {
                        assert(in_order(l[i as int], l[i + 1], col));
                        assert(both[i + 1] == l[i + 1]);
                        assert forall|k: int| 0 <= k < out.len() implies #[trigger] in_order(
                            out@[k],
                            l[i + 1],
                            col,
                        ) by {
                            if k < prev.len() {
                                assert(both.contains(prev[k]));
                                lemma_in_order_trans(both, prev[k], l[i as int], l[i + 1], col);
                            }
                        }
                    }
                    assert forall|a: int, b: int| 0 <= a < b < out.len() implies #[trigger] in_order(
                        out@[a],
                        out@[b],
                        col,
                    ) by {
                        if b == prev.len() {
                            assert(in_order(prev[a], l[i as int], col));
                        } else {
                            assert(in_order(prev[a], prev[b], col));
                        }
                    }
                }
                if left_first && j < r.len() {
                    assert(in_order(l[i as int], r[j as int], col));
                }
                lemma_stable_take_left(l, r, i as int, j as int, prev, col);
                if consistent && i + 1 < l.len() {
                    assert(in_order(l[i as int], l[i + 1], col));
                    assert forall|k: int| 0 <= k < j implies #[trigger] record_order(r[k], l[i + 1], col)
                        == Ordering::Less by {
                        assert(record_order(r[k], l[i as int], col) == Ordering::Less);
                        lemma_in_order_total(r[k], l[i + 1], col);
                        lemma_in_order_total(r[k], l[i as int], col);
                        if record_order(r[k], l[i + 1], col) != Ordering::Less {
                            assert(both[i as int] == l[i as int] && both[i + 1] == l[i + 1] && both[l.len() + k]
                                == r[k]);
                            assert(both.contains(l[i as int]) && both.contains(l[i + 1]) && both.contains(r[k]));
                            lemma_in_order_trans(both, l[i as int], l[i + 1], r[k], col);
                        }
                    }
                }
            }
            i += 1;
        } else {
            assert(rrest@[rrest.len() - 1] == r[j as int]);
            let x = pop_last(&mut rrest);
            out.push(x);
            proof {
                assert(both[l.len() + j] == r[j as int]);
                assert(r.subrange(0, j + 1) =~= r.subrange(0, j as int).push(r[j as int]));
                assert(out@ == prev.push(r[j as int]));
                to_multiset_build(prev, r[j as int]);
                to_multiset_build(r.subrange(0, j as int), r[j as int]);
                assert(out@.to_multiset() =~= l.subrange(0, i as int).to_multiset().add(
                    r.subrange(0, j + 1).to_multiset(),
                ));
                if left_first && i < l.len() {
                    assert(lrest@[lrest.len() - 1] == l[i as int]);
                    assert(in_order(l[i as int], r[j as int], col));
                }
                lemma_stable_take_right(l, r, i as int, j as int, prev, col);
                if consistent && i < l.len() {
                    assert(lrest@[lrest.len() - 1] == l[i as int]);
                    lemma_in_order_total(l[i as int], r[j as int], col);
                    assert(record_order(r[j as int], l[i as int], col) == Ordering::Less);
                }
                if consistent {
                    if i < l.len() {
                        assert(lrest@[lrest.len() - 1] == l[i as int]);
                        lemma_in_order_total(l[i as int], r[j as int], col);
                    }
                    if j + 1 < r.len() {
                        assert(in_order(r[j as int], r[j + 1], col));
                        assert(both[l.len() + j + 1] == r[j + 1]);
                        assert forall|k: int| 0 <= k < out.len() implies #[trigger] in_order(
                            out@[k],
                            r[j + 1],
                            col,
                        ) by {
                            if k < prev.len() {
                                assert(both.contains(prev[k]));
                                lemma_in_order_trans(both, prev[k], r[j as int], r[j + 1], col);
                            }
                        }
                    }
                    assert forall|a: int, b: int| 0 <= a < b < out.len() implies #[trigger] in_order(
                        out@[a],
                        out@[b],
                        col,
                    ) by {
                        if b == prev.len() {
                            assert(in_order(prev[a], r[j as int], col));
                        } else {
                            assert(in_order(prev[a], prev[b], col));
                        }
                    }
                }
            }
            j += 1;
        }
    }
    assert(l.subrange(0, i as int) =~= l);
    assert(r.subrange(0, j as int) =~= r);
    out
}

/// Sorts `records` by the field at `column_index` with merge sort, and returns
/// the nanoseconds the sort took.
pub fn sort(records: &mut Vec<Record>, column_index: usize) -> (elapsed: u128)
    ensures
        sorted_permutation(old(records)@, final(records)@, column_index as int),
        sorted_by(old(records)@, column_index as int) ==> final(records)@ == old(records)@,
        stable_by(old(records)@, final(records)@, column_index as int),
{
    let compare = get_comparator(column_index);
    let clock = crate::bench::start_clock();
    merge_sort(records, &compare);
    crate::bench::nanos_since(&clock)
}

} // verus!
