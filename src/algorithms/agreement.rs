//! What every correct sort of the same records has in common.
use crate::algorithms::{
    in_order, lemma_consistent_subrange, lemma_in_order_refl, lemma_in_order_total, lemma_in_order_trans,
    lemma_sorted_subrange, order_consistent, record_order, sorted_by, sorted_permutation,
};
use crate::models::Record;
use core::cmp::Ordering;
use vstd::prelude::*;
use vstd::seq_lib::{group_to_multiset_ensures, to_multiset_len};

verus! {

/// Every record of `t` is found in `s` when both hold the same records.
pub proof fn lemma_found_in_permutation(s: Seq<Record>, t: Seq<Record>, j: int)
    requires
        s.to_multiset() == t.to_multiset(),
        0 <= j < t.len(),
    ensures
        s.contains(t[j]),
{
    broadcast use group_to_multiset_ensures;

    assert(t.contains(t[j]));
    assert(t.to_multiset().count(t[j]) > 0);
}

/// Sorting keeps the number of records; in particular an empty input gives an
/// empty output.
pub proof fn lemma_sorting_keeps_length(before: Seq<Record>, after: Seq<Record>, column: int)
    requires
        sorted_permutation(before, after, column),
    ensures
        after.len() == before.len(),
        before.len() == 0 ==> after == before,
{
    broadcast use group_to_multiset_ensures;

    to_multiset_len(before);
    to_multiset_len(after);
    if before.len() == 0 {
        assert(after =~= before);
    }
}

/// Each of `x` and `y` may stand before the other.
pub open spec fn same_key(x: Record, y: Record, column: int) -> bool {
    in_order(x, y, column) && in_order(y, x, column)
}

/// Two sorted sequences of the same records, under a consistent order, hold
/// records with equal keys at every place.
pub proof fn lemma_sorted_sequences_agree(a: Seq<Record>, b: Seq<Record>, column: int)
    requires
        a.to_multiset() == b.to_multiset(),
        sorted_by(a, column),
        sorted_by(b, column),
        order_consistent(a, column),
    ensures
        a.len() == b.len(),
        forall|i: int| 0 <= i < a.len() ==> #[trigger] same_key(a[i], b[i], column),
    decreases a.len(),
{
    broadcast use group_to_multiset_ensures;

    to_multiset_len(a);
    to_multiset_len(b);
    if a.len() == 0 {
        return;
    }
    let n = a.len() as int;
    let x = a[0];
    lemma_found_in_permutation(b, a, 0);
    let k = choose|m: int| 0 <= m < n && b[m] == x;
    let a1 = a.subrange(1, n);
    let b1 = b.remove(k);
    assert(a1 =~= a.remove(0));
    assert(a1.to_multiset() == b1.to_multiset());
    lemma_sorted_subrange(a, 1, n, column);
    lemma_consistent_subrange(a, 1, n, column);
    assert forall|i: int, j: int| 0 <= i < j < b1.len() implies #[trigger] in_order(b1[i], b1[j], column) by {
        let bi = if i < k { i } else { i + 1 };
        let bj = if j < k { j } else { j + 1 };
        assert(in_order(b[bi], b[bj], column));
    }
    lemma_sorted_sequences_agree(a1, b1, column);
    // The first record of `a` is at most every record, and so is every record of `b` up to `k`.
    assert forall|i: int| 0 <= i <= k implies in_order(x, #[trigger] b[i], column) && in_order(b[i], x, column) by {
        lemma_found_in_permutation(a, b, i);
        let m = choose|m: int| 0 <= m < n && a[m] == b[i];
        if m > 0 {
            assert(in_order(a[0], a[m], column));
        } else {
            lemma_in_order_refl(x, column);
        }
        if i < k {
            assert(in_order(b[i], b[k], column));
        } else {
            lemma_in_order_refl(x, column);
        }
    }
    assert forall|i: int| 0 <= i < n implies #[trigger] same_key(a[i], b[i], column) by {
        lemma_found_in_permutation(a, b, i);
        if i == 0 {
            assert(in_order(x, b[0], column) && in_order(b[0], x, column));
        } else if i <= k {
            assert(a1[i - 1] == a[i]);
            assert(b1[i - 1] == b[i - 1]);
            assert(same_key(a1[i - 1], b1[i - 1], column));
            assert(in_order(x, b[i - 1], column) && in_order(b[i - 1], x, column));
            assert(in_order(x, b[i], column) && in_order(b[i], x, column));
            lemma_found_in_permutation(a, b, i - 1);
            assert(a.contains(x) && a.contains(a[i]));
            lemma_in_order_trans(a, a[i], b[i - 1], x, column);
            lemma_in_order_trans(a, a[i], x, b[i], column);
            lemma_in_order_trans(a, x, b[i - 1], a[i], column);
            lemma_in_order_trans(a, b[i], x, a[i], column);
        } else {
            assert(a1[i - 1] == a[i]);
            assert(b1[i - 1] == b[i]);
            assert(same_key(a1[i - 1], b1[i - 1], column));
        }
    }
}

/// Any two of the algorithms agree: two sorted permutations of the same
/// records, under a consistent order, differ at most in the order of records
/// whose keys compare equal.
pub proof fn lemma_sorts_agree(s: Seq<Record>, a: Seq<Record>, b: Seq<Record>, column: int)
    requires
        order_consistent(s, column),
        sorted_permutation(s, a, column),
        sorted_permutation(s, b, column),
    ensures
        a.len() == b.len(),
        forall|i: int| 0 <= i < a.len() ==> #[trigger] record_order(a[i], b[i], column) == Ordering::Equal,
{
    crate::algorithms::lemma_consistent_permutation(s, a, column);
    lemma_sorted_sequences_agree(a, b, column);
    assert forall|i: int| 0 <= i < a.len() implies #[trigger] record_order(a[i], b[i], column) == Ordering::Equal by {
        assert(same_key(a[i], b[i], column));
        lemma_in_order_total(a[i], b[i], column);
    }
}

/// No two records of `s` have equal keys, and each comes before the next.
pub open spec fn strictly_sorted_by(s: Seq<Record>, column: int) -> bool {
    forall|i: int, j: int| 0 <= i < j < s.len() ==> #[trigger] record_order(s[i], s[j], column) == Ordering::Less
}

/// Sorting a sequence that is already strictly sorted gives it back unchanged,
/// whatever the algorithm.
pub proof fn lemma_sorting_strictly_sorted_is_identity(s: Seq<Record>, t: Seq<Record>, column: int)
    requires
        strictly_sorted_by(s, column),
        sorted_permutation(s, t, column),
    ensures
        t == s,
{
    assert forall|i: int, j: int| 0 <= i < s.len() && 0 <= j < s.len() implies (#[trigger] in_order(s[i], s[j], column)
        <==> i <= j) by {
        if i < j {
            assert(record_order(s[i], s[j], column) == Ordering::Less);
        } else if j < i {
            assert(record_order(s[j], s[i], column) == Ordering::Less);
            lemma_in_order_total(s[j], s[i], column);
        } else {
            lemma_in_order_refl(s[i], column);
        }
    }
    assert(order_consistent(s, column));
    assert(sorted_by(s, column));
    lemma_sorts_agree(s, s, t, column);
    lemma_sorting_keeps_length(s, t, column);
    assert forall|i: int| 0 <= i < s.len() implies t[i] == s[i] by {
        lemma_found_in_permutation(s, t, i);
        let m = choose|m: int| 0 <= m < s.len() && s[m] == t[i];
        assert(record_order(s[i], t[i], column) == Ordering::Equal);
        if m != i {
            assert(in_order(s[i], s[m], column) && in_order(s[m], s[i], column)) by {
                lemma_in_order_total(s[i], t[i], column);
            }
        }
    }
    assert(t =~= s);
}

} // verus!
