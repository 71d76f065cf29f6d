//! The comparator built from a column, the properties the sorting algorithms
//! share, and the algorithms themselves.
use crate::models::{Record, Student, StudentField};
use crate::order::{
    compare_bytes, compare_keys, flip, int_order, is_nan, is_nan_bits, key_order, lemma_bytes_order_trans,
    lemma_key_order_flip, lemma_key_order_refl, lemma_number_order_trans, text_order,
};
use core::cmp::Ordering;
use vstd::prelude::*;
use vstd::seq_lib::group_to_multiset_ensures;
use vstd::utf8::encode_utf8;

pub mod bubblesort;
pub mod insertionsort;
pub mod mergesort;
pub mod quicksort;
pub mod standardsort;
pub mod agreement;

verus! {

/// Text of the field at `column`, or the empty text when the record is too short.
pub open spec fn field_text(r: Record, column: int) -> Seq<char> {
    if 0 <= column < r@.len() {
        r@[column].text@
    } else {
        Seq::empty()
    }
}

/// Numeric reading of the field at `column`; a missing field has none.
pub open spec fn field_number(r: Record, column: int) -> Option<u64> {
    if 0 <= column < r@.len() {
        r@[column].number
    } else {
        None
    }
}

/// How two records compare on `column`.
pub open spec fn record_order(a: Record, b: Record, column: int) -> Ordering {
    key_order(field_text(a, column), field_number(a, column), field_text(b, column), field_number(b, column))
}

/// `a` may stand before `b` when ordering by `column`.
pub open spec fn in_order(a: Record, b: Record, column: int) -> bool {
    record_order(a, b, column) != Ordering::Greater
}

/// Every record stands in order with every later one.
pub open spec fn sorted_by(s: Seq<Record>, column: int) -> bool {
    forall|i: int, j: int| 0 <= i < j < s.len() ==> #[trigger] in_order(s[i], s[j], column)
}

/// The order on `column` is transitive on the records of `s`, so that it is a
/// total preorder on them. Numeric pairs and textual pairs each are; a column that
/// mixes numbers with text, or holds NaN, may break it.
pub open spec fn order_consistent(s: Seq<Record>, column: int) -> bool {
    forall|i: int, j: int, k: int|
        0 <= i < s.len() && 0 <= j < s.len() && 0 <= k < s.len() && #[trigger] in_order(s[i], s[j], column)
            && #[trigger] in_order(s[j], s[k], column) ==> in_order(s[i], s[k], column)
}

/// The field at `column` of every record reads as a number other than NaN, or
/// that of none of them reads as a number.
pub open spec fn column_uniform(s: Seq<Record>, column: int) -> bool {
    ||| forall|i: int| 0 <= i < s.len() ==> {
        let n = #[trigger] field_number(s[i], column);
        n is Some && !is_nan(n->0)
    }
    ||| forall|i: int| 0 <= i < s.len() ==> #[trigger] field_number(s[i], column) is None
}

/// `after` holds the records of `before`, each as often, and is sorted by
/// `column` whenever that column's order is consistent on them.
pub open spec fn sorted_permutation(before: Seq<Record>, after: Seq<Record>, column: int) -> bool {
    &&& after.to_multiset() == before.to_multiset()
    &&& order_consistent(before, column) ==> sorted_by(after, column)
}

/// The records of `s` whose key on `column` equals that of `x`, in the order in
/// which they stand.
pub open spec fn with_key_of(s: Seq<Record>, x: Record, column: int) -> Seq<Record> {
    s.filter(|y: Record| record_order(y, x, column) == Ordering::Equal)
}

/// Records with equal keys stand in `after` in the order they had in `before`:
/// for every record `x` that the order ranks consistently with those of `before`,
/// the records with the key of `x` come in the same order.
pub open spec fn stable_by(before: Seq<Record>, after: Seq<Record>, column: int) -> bool {
    forall|x: Record|
        #![trigger with_key_of(after, x, column)]
        order_consistent(before.push(x), column) ==> with_key_of(after, x, column) == with_key_of(before, x, column)
}

/// Appending a record appends it to the records with its key, and to no others.
pub proof fn lemma_with_key_push(s: Seq<Record>, a: Record, x: Record, column: int)
    ensures
        with_key_of(s.push(a), x, column) == if record_order(a, x, column) == Ordering::Equal {
            with_key_of(s, x, column).push(a)
        } else {
            with_key_of(s, x, column)
        },
{
    reveal(Seq::filter);
    assert(s.push(a).drop_last() =~= s);
}

/// The records with a key, of two sequences one after the other.
pub proof fn lemma_with_key_add(a: Seq<Record>, b: Seq<Record>, x: Record, column: int)
    ensures
        with_key_of(a + b, x, column) == with_key_of(a, x, column) + with_key_of(b, x, column),
{
    broadcast use Seq::filter_distributes_over_add;

    assert(with_key_of(a + b, x, column) == with_key_of(a, x, column) + with_key_of(b, x, column));
}

/// No record of `s` has the key of `x`.
pub proof fn lemma_with_key_none(s: Seq<Record>, x: Record, column: int)
    requires
        forall|k: int| 0 <= k < s.len() ==> #[trigger] record_order(s[k], x, column) != Ordering::Equal,
    ensures
        with_key_of(s, x, column) == Seq::<Record>::empty(),
{
    let p = |y: Record| record_order(y, x, column) == Ordering::Equal;
    let f = s.filter(p);
    if f.len() > 0 {
        s.lemma_filter_pred(p, 0);
        assert(f.contains(f[0]));
        s.lemma_filter_contains_rev(p, f[0]);
        let k = choose|k: int| 0 <= k < s.len() && s[k] == f[0];
        assert(record_order(s[k], x, column) != Ordering::Equal);
    }
    assert(f =~= Seq::<Record>::empty());
}

/// A consistent order stays consistent on any records taken from among those
/// of `s`.
pub proof fn lemma_consistent_within(s: Seq<Record>, t: Seq<Record>, column: int)
    requires
        order_consistent(s, column),
        forall|k: int| 0 <= k < t.len() ==> s.contains(#[trigger] t[k]),
    ensures
        order_consistent(t, column),
{
    assert forall|i: int, j: int, k: int|
        0 <= i < t.len() && 0 <= j < t.len() && 0 <= k < t.len() && #[trigger] in_order(t[i], t[j], column)
            && #[trigger] in_order(t[j], t[k], column) implies in_order(t[i], t[k], column) by {
        assert(s.contains(t[i]));
        assert(s.contains(t[j]));
        assert(s.contains(t[k]));
        lemma_in_order_trans(s, t[i], t[j], t[k], column);
    }
}

/// Consistency with an extra record `x` carries over to records taken from among
/// those of `s`.
pub proof fn lemma_consistent_with_extra(s: Seq<Record>, t: Seq<Record>, x: Record, column: int)
    requires
        order_consistent(s.push(x), column),
        forall|k: int| 0 <= k < t.len() ==> s.contains(#[trigger] t[k]),
    ensures
        order_consistent(t.push(x), column),
        order_consistent(t, column),
{
    let u = s.push(x);
    assert forall|k: int| 0 <= k < t.push(x).len() implies u.contains(#[trigger] t.push(x)[k]) by {
        if k < t.len() {
            assert(s.contains(t[k]));
            let m = choose|m: int| 0 <= m < s.len() && s[m] == t[k];
            assert(u[m] == t.push(x)[k]);
        } else {
            assert(u[s.len() as int] == x);
        }
    }
    lemma_consistent_within(u, t.push(x), column);
    assert forall|k: int| 0 <= k < t.len() implies u.contains(#[trigger] t[k]) by {
        assert(t.push(x)[k] == t[k]);
    }
    lemma_consistent_within(u, t, column);
}

/// When `a` may not stand before `b`, then `b` may stand before `a`.
pub proof fn lemma_in_order_total(a: Record, b: Record, column: int)
    ensures
        !in_order(a, b, column) ==> in_order(b, a, column),
        record_order(b, a, column) == flip(record_order(a, b, column)),
{
    lemma_key_order_flip(field_text(a, column), field_number(a, column), field_text(b, column), field_number(b, column));
}

/// Every record may stand before itself.
pub proof fn lemma_in_order_refl(a: Record, column: int)
    ensures
        in_order(a, a, column),
{
    lemma_key_order_refl(field_text(a, column), field_number(a, column));
}

/// A column of numbers without NaN, or of text only, is ordered consistently.
pub proof fn lemma_uniform_column_consistent(s: Seq<Record>, column: int)
    requires
        column_uniform(s, column),
    ensures
        order_consistent(s, column),
{
    assert forall|i: int, j: int, k: int|
        0 <= i < s.len() && 0 <= j < s.len() && 0 <= k < s.len() && #[trigger] in_order(s[i], s[j], column)
            && #[trigger] in_order(s[j], s[k], column) implies in_order(s[i], s[k], column) by {
        let (a, b, c) = (s[i], s[j], s[k]);
        if field_number(a, column) is Some && field_number(b, column) is Some && field_number(c, column) is Some {
            assert(!is_nan(field_number(a, column)->0));
            assert(!is_nan(field_number(b, column)->0));
            assert(!is_nan(field_number(c, column)->0));
            lemma_number_order_trans(
                field_number(a, column)->0,
                field_number(b, column)->0,
                field_number(c, column)->0,
            );
        } else {
            assert(field_number(a, column) is None || field_number(b, column) is None || field_number(
                c,
                column,
            ) is None);
            assert(field_number(a, column) is None && field_number(b, column) is None && field_number(
                c,
                column,
            ) is None);
            lemma_bytes_order_trans(
                encode_utf8(field_text(a, column)),
                encode_utf8(field_text(b, column)),
                encode_utf8(field_text(c, column)),
            );
        }
    }
}

/// Consistency depends only on which records are present, not on their places.
pub proof fn lemma_consistent_permutation(s: Seq<Record>, t: Seq<Record>, column: int)
    requires
        s.to_multiset() == t.to_multiset(),
        order_consistent(s, column),
    ensures
        order_consistent(t, column),
{
    broadcast use group_to_multiset_ensures;

    assert forall|i: int, j: int, k: int|
        0 <= i < t.len() && 0 <= j < t.len() && 0 <= k < t.len() && #[trigger] in_order(t[i], t[j], column)
            && #[trigger] in_order(t[j], t[k], column) implies in_order(t[i], t[k], column) by {
        assert(t.contains(t[i]) && t.contains(t[j]) && t.contains(t[k]));
        assert(t.to_multiset().count(t[i]) > 0 && t.to_multiset().count(t[j]) > 0 && t.to_multiset().count(t[k]) > 0);
        assert(s.to_multiset().count(t[i]) > 0 && s.to_multiset().count(t[j]) > 0 && s.to_multiset().count(t[k]) > 0);
        let i2 = choose|x: int| 0 <= x < s.len() && s[x] == t[i];
        let j2 = choose|x: int| 0 <= x < s.len() && s[x] == t[j];
        let k2 = choose|x: int| 0 <= x < s.len() && s[x] == t[k];
        assert(in_order(s[i2], s[j2], column) && in_order(s[j2], s[k2], column));
    }
}

/// Transitivity, for records found in a sequence on which the order is consistent.
pub proof fn lemma_in_order_trans(s: Seq<Record>, a: Record, b: Record, c: Record, column: int)
    requires
        order_consistent(s, column),
        s.contains(a),
        s.contains(b),
        s.contains(c),
        in_order(a, b, column),
        in_order(b, c, column),
    ensures
        in_order(a, c, column),
{
    let i = choose|x: int| 0 <= x < s.len() && s[x] == a;
    let j = choose|x: int| 0 <= x < s.len() && s[x] == b;
    let k = choose|x: int| 0 <= x < s.len() && s[x] == c;
    assert(in_order(s[i], s[j], column) && in_order(s[j], s[k], column));
}

/// A consistent order stays consistent on any slice of the records.
pub proof fn lemma_consistent_subrange(s: Seq<Record>, lo: int, hi: int, column: int)
    requires
        0 <= lo <= hi <= s.len(),
        order_consistent(s, column),
    ensures
        order_consistent(s.subrange(lo, hi), column),
{
    let t = s.subrange(lo, hi);
    assert forall|i: int, j: int, k: int|
        0 <= i < t.len() && 0 <= j < t.len() && 0 <= k < t.len() && #[trigger] in_order(t[i], t[j], column)
            && #[trigger] in_order(t[j], t[k], column) implies in_order(t[i], t[k], column) by {
        assert(in_order(s[lo + i], s[lo + j], column) && in_order(s[lo + j], s[lo + k], column));
    }
}

/// Any slice of a sorted sequence is sorted.
pub proof fn lemma_sorted_subrange(s: Seq<Record>, lo: int, hi: int, column: int)
    requires
        0 <= lo <= hi <= s.len(),
        sorted_by(s, column),
    ensures
        sorted_by(s.subrange(lo, hi), column),
{
    let t = s.subrange(lo, hi);
    assert forall|i: int, j: int| 0 <= i < j < t.len() implies #[trigger] in_order(t[i], t[j], column) by {
        assert(in_order(s[lo + i], s[lo + j], column));
    }
}

/// Exchanging two records keeps the multiset of any slice that holds both places.
pub proof fn lemma_swap_multiset(s: Seq<Record>, a: int, b: int, lo: int, hi: int)
    requires
        0 <= lo <= a < hi <= s.len(),
        lo <= b < hi,
    ensures
        s.update(a, s[b]).update(b, s[a]).subrange(lo, hi).to_multiset() == s.subrange(lo, hi).to_multiset(),
{
    broadcast use group_to_multiset_ensures;

    let t = s.subrange(lo, hi);
    let u = t.update(a - lo, t[b - lo]);
    assert(s.update(a, s[b]).update(b, s[a]).subrange(lo, hi) =~= u.update(b - lo, t[a - lo]));
    assert(u.update(b - lo, t[a - lo]).to_multiset() =~= t.to_multiset());
}

/// What holds of every element of a sequence holds of every element of a
/// permutation of it.
pub proof fn lemma_permutation_forall<A>(s: Seq<A>, t: Seq<A>, p: spec_fn(A) -> bool)
    requires
        s.to_multiset() == t.to_multiset(),
        forall|k: int| 0 <= k < s.len() ==> #[trigger] p(s[k]),
    ensures
        forall|k: int| 0 <= k < t.len() ==> #[trigger] p(t[k]),
{
    broadcast use group_to_multiset_ensures;

    assert forall|k: int| 0 <= k < t.len() implies #[trigger] p(t[k]) by {
        assert(t.contains(t[k]));
        assert(t.to_multiset().count(t[k]) > 0);
        assert(s.contains(t[k]));
        let m = choose|x: int| 0 <= x < s.len() && s[x] == t[k];
        assert(p(s[m]));
    }
}

/// Whether the field at `column_index` is a number other than NaN in every
/// record, or a number in none of them: then that column orders the records
/// consistently.
pub fn column_is_uniform(records: &Vec<Record>, column_index: usize) -> (r: bool)
    ensures
        r == column_uniform(records@, column_index as int),
        r ==> order_consistent(records@, column_index as int),
{
    let ghost col = column_index as int;
    let mut all_numbers = true;
    let mut no_numbers = true;
    let mut i: usize = 0;
    while i < records.len()
        invariant
            i <= records.len(),
            col == column_index as int,
            all_numbers == forall|k: int| 0 <= k < i ==> {
                let n = #[trigger] field_number(records@[k], col);
                n is Some && !is_nan(n->0)
            },
            no_numbers == forall|k: int| 0 <= k < i ==> #[trigger] field_number(records@[k], col) is None,
        decreases records.len() - i,
    {
        let (_, number) = field_key(&records[i], column_index);
        match number {
            Some(bits) => {
                no_numbers = false;
                if is_nan_bits(bits) {
                    all_numbers = false;
                }
            },
            None => {
                all_numbers = false;
            },
        }
        i += 1;
    }
    proof {
        if all_numbers || no_numbers {
            lemma_uniform_column_consistent(records@, col);
        }
    }
    all_numbers || no_numbers
}

/// Compares records on one column, treating a missing field as empty text.
pub struct Comparator {
    pub column: usize,
}

/// The comparator that orders records by the field at `column_index`.
pub fn get_comparator(column_index: usize) -> (c: Comparator)
    ensures
        c.column == column_index,
{
    Comparator { column: column_index }
}

impl Comparator {
    /// Compares the fields of `a` and `b` at the comparator's column: as numbers
    /// when both read as numbers (NaN comparing equal), as text otherwise.
    pub fn compare(&self, a: &Record, b: &Record) -> (r: Ordering)
        ensures
            r == record_order(*a, *b, self.column as int),
    {
        let (ta, na) = field_key(a, self.column);
        let (tb, nb) = field_key(b, self.column);
        compare_keys(ta, na, tb, nb)
    }

    /// Whether `a` must move behind `b`.
    pub fn greater(&self, a: &Record, b: &Record) -> (r: bool)
        ensures
            r == (record_order(*a, *b, self.column as int) == Ordering::Greater),
    {
        match self.compare(a, b) {
            Ordering::Greater => true,
            _ => false,
        }
    }
}

/// How two students compare on `field`: names as text, the others as numbers.
pub open spec fn student_order(a: Student, b: Student, field: StudentField) -> Ordering {
    match field {
        StudentField::FirstName => text_order(a.first_name@, b.first_name@),
        StudentField::LastName => text_order(a.last_name@, b.last_name@),
        StudentField::Age => int_order(a.age as int, b.age as int),
        StudentField::ActScore => int_order(a.act_score as int, b.act_score as int),
        StudentField::SatScore => int_order(a.sat_score as int, b.sat_score as int),
    }
}

/// Compares two students on one field, by that field's own type.
pub fn compare_students(a: &Student, b: &Student, field: StudentField) -> (r: Ordering)
    ensures
        r == student_order(*a, *b, field),
{
    match field {
        StudentField::FirstName => compare_bytes(a.first_name.as_str().as_bytes(), b.first_name.as_str().as_bytes()),
        StudentField::LastName => compare_bytes(a.last_name.as_str().as_bytes(), b.last_name.as_str().as_bytes()),
        StudentField::Age => compare_integers(a.age, b.age),
        StudentField::ActScore => compare_integers(a.act_score, b.act_score),
        StudentField::SatScore => compare_integers(a.sat_score, b.sat_score),
    }
}

fn compare_integers(a: u32, b: u32) -> (r: Ordering)
    ensures
        r == int_order(a as int, b as int),
{
    if a < b {
        Ordering::Less
    } else if a == b {
        Ordering::Equal
    } else {
        Ordering::Greater
    }
}

fn field_key(r: &Record, column: usize) -> (k: (&str, Option<u64>))
    ensures
        k.0@ == field_text(*r, column as int),
        k.1 == field_number(*r, column as int),
{
    if column < r.len() {
        (r[column].text.as_str(), r[column].number)
    } else {
        proof {
            reveal_strlit("");
        }
        ("", None)
    }
}

/// Exchanges the records at `i` and `j`.
pub fn swap_records(v: &mut Vec<Record>, i: usize, j: usize)
    requires
        i < old(v).len(),
        j < old(v).len(),
    ensures
        final(v)@ == old(v)@.update(i as int, old(v)@[j as int]).update(j as int, old(v)@[i as int]),
        final(v)@.to_multiset() == old(v)@.to_multiset(),
{
    broadcast use group_to_multiset_ensures;

    let ghost s = v@;
    if i != j {
        let mut held: Record = Vec::new();
        v.set_and_swap(i, &mut held);
        v.set_and_swap(j, &mut held);
        v.set_and_swap(i, &mut held);
        assert(v@ =~= s.update(i as int, s[j as int]).update(j as int, s[i as int]));
        assert(v@.to_multiset() =~= s.to_multiset());
    } else {
        assert(v@ =~= s.update(i as int, s[j as int]).update(j as int, s[i as int]));
    }
}

} // verus!
