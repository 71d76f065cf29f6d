//! The order on field values: numeric when both sides read as numbers,
//! byte-wise lexicographic on the text otherwise.
use core::cmp::Ordering;
use vstd::prelude::*;
use vstd::utf8::encode_utf8;

verus! {

/// The opposite outcome of a three-way comparison.
pub open spec fn flip(o: Ordering) -> Ordering {
    match o {
        Ordering::Less => Ordering::Greater,
        Ordering::Equal => Ordering::Equal,
        Ordering::Greater => Ordering::Less,
    }
}

/// Three-way comparison of two integers.
pub open spec fn int_order(a: int, b: int) -> Ordering {
    if a < b {
        Ordering::Less
    } else if a == b {
        Ordering::Equal
    } else {
        Ordering::Greater
    }
}

/// Lexicographic order on byte strings; a proper prefix comes first.
pub open spec fn bytes_order(a: Seq<u8>, b: Seq<u8>) -> Ordering
    decreases a.len(),
{
    if a.len() == 0 {
        if b.len() == 0 {
            Ordering::Equal
        } else {
            Ordering::Less
        }
    } else if b.len() == 0 {
        Ordering::Greater
    } else if a[0] != b[0] {
        int_order(a[0] as int, b[0] as int)
    } else {
        bytes_order(a.drop_first(), b.drop_first())
    }
}

/// Order on text: lexicographic on the UTF-8 encodings, which is also the
/// order of the code points.
pub open spec fn text_order(a: Seq<char>, b: Seq<char>) -> Ordering {
    bytes_order(encode_utf8(a), encode_utf8(b))
}

/// The bit pattern is a NaN: all exponent bits set and a nonzero fraction.
pub open spec fn is_nan(bits: u64) -> bool {
    (bits >> 52u64) & 0x7ffu64 == 0x7ffu64 && bits & 0xf_ffff_ffff_ffffu64 != 0
}

/// Position of a non-NaN binary64 value on the number line, as an integer:
/// the magnitude bits grow with the absolute value, and the sign bit negates.
/// Both zeros get 0.
pub open spec fn signed_rank(bits: u64) -> int {
    let magnitude: u64 = bits & 0x7fff_ffff_ffff_ffffu64;
    if bits >> 63u64 == 0 {
        magnitude as int
    } else {
        -(magnitude as int)
    }
}

/// Order on two binary64 values given by their bit patterns. A NaN on either
/// side has no order and counts as equal.
pub open spec fn number_order(a: u64, b: u64) -> Ordering {
    if is_nan(a) || is_nan(b) {
        Ordering::Equal
    } else {
        int_order(signed_rank(a), signed_rank(b))
    }
}

/// Order on two field values, each a text with an optional numeric reading:
/// numeric when both have one, textual otherwise.
pub open spec fn key_order(ta: Seq<char>, na: Option<u64>, tb: Seq<char>, nb: Option<u64>) -> Ordering {
    match (na, nb) {
        (Some(x), Some(y)) => number_order(x, y),
        _ => text_order(ta, tb),
    }
}

/// Swapping the sides of a byte-string comparison flips its outcome.
pub proof fn lemma_bytes_order_flip(a: Seq<u8>, b: Seq<u8>)
    ensures
        bytes_order(b, a) == flip(bytes_order(a, b)),
    decreases a.len(),
{
    if a.len() > 0 && b.len() > 0 && a[0] == b[0] {
        lemma_bytes_order_flip(a.drop_first(), b.drop_first());
    }
}

/// A byte string compares equal to itself.
pub proof fn lemma_bytes_order_refl(a: Seq<u8>)
    ensures
        bytes_order(a, a) == Ordering::Equal,
    decreases a.len(),
{
    if a.len() > 0 {
        lemma_bytes_order_refl(a.drop_first());
    }
}

/// The lexicographic order on byte strings is transitive.
pub proof fn lemma_bytes_order_trans(a: Seq<u8>, b: Seq<u8>, c: Seq<u8>)
    requires
        bytes_order(a, b) != Ordering::Greater,
        bytes_order(b, c) != Ordering::Greater,
    ensures
        bytes_order(a, c) != Ordering::Greater,
    decreases a.len(),
{
    if a.len() > 0 && b.len() > 0 && c.len() > 0 && a[0] == b[0] && b[0] == c[0] {
        lemma_bytes_order_trans(a.drop_first(), b.drop_first(), c.drop_first());
    }
}

/// Swapping the sides of a field comparison flips its outcome.
pub proof fn lemma_key_order_flip(ta: Seq<char>, na: Option<u64>, tb: Seq<char>, nb: Option<u64>)
    ensures
        key_order(tb, nb, ta, na) == flip(key_order(ta, na, tb, nb)),
{
    lemma_bytes_order_flip(encode_utf8(ta), encode_utf8(tb));
}

/// A field value compares equal to itself, NaN included.
pub proof fn lemma_key_order_refl(t: Seq<char>, n: Option<u64>)
    ensures
        key_order(t, n, t, n) == Ordering::Equal,
{
    lemma_bytes_order_refl(encode_utf8(t));
}

/// On values without NaN, the numeric order is transitive.
pub proof fn lemma_number_order_trans(a: u64, b: u64, c: u64)
    requires
        !is_nan(a),
        !is_nan(b),
        !is_nan(c),
        number_order(a, b) != Ordering::Greater,
        number_order(b, c) != Ordering::Greater,
    ensures
        number_order(a, c) != Ordering::Greater,
{
}

/// Compares two byte strings lexicographically.
pub fn compare_bytes(a: &[u8], b: &[u8]) -> (r: Ordering)
    ensures
        r == bytes_order(a@, b@),
{
    let mut i: usize = 0;
    assert(a@.skip(0) =~= a@ && b@.skip(0) =~= b@);
    while i < a.len() && i < b.len()
        invariant
            i <= a.len(),
            i <= b.len(),
            bytes_order(a@, b@) == bytes_order(a@.skip(i as int), b@.skip(i as int)),
        decreases a.len() - i,
    {
        if a[i] < b[i] {
            return Ordering::Less;
        } else if a[i] > b[i] {
            return Ordering::Greater;
        }
        assert(a@.skip(i as int).drop_first() =~= a@.skip(i + 1));
        assert(b@.skip(i as int).drop_first() =~= b@.skip(i + 1));
        i += 1;
    }
    if i < b.len() {
        Ordering::Less
    } else if i < a.len() {
        Ordering::Greater
    } else {
        Ordering::Equal
    }
}

/// Compares two binary64 values given by their bit patterns; NaN compares equal.
pub fn compare_numbers(a: u64, b: u64) -> (r: Ordering)
    ensures
        r == number_order(a, b),
{
    if is_nan_bits(a) || is_nan_bits(b) {
        return Ordering::Equal;
    }
    let ra: i64 = signed_rank_of(a);
    let rb: i64 = signed_rank_of(b);
    if ra < rb {
        Ordering::Less
    } else if ra == rb {
        Ordering::Equal
    } else {
        Ordering::Greater
    }
}

/// Whether the bit pattern is a NaN.
pub fn is_nan_bits(bits: u64) -> (r: bool)
    ensures
        r == is_nan(bits),
{
    (bits >> 52u64) & 0x7ffu64 == 0x7ffu64 && bits & 0xf_ffff_ffff_ffffu64 != 0
}

fn signed_rank_of(bits: u64) -> (r: i64)
    ensures
        r as int == signed_rank(bits),
{
    let magnitude: u64 = bits & 0x7fff_ffff_ffff_ffffu64;
    assert(bits & 0x7fff_ffff_ffff_ffffu64 <= 0x7fff_ffff_ffff_ffffu64) by (bit_vector);
    if bits >> 63u64 == 0 {
        magnitude as i64
    } else {
        -(magnitude as i64)
    }
}

/// Compares two field values: numerically when both have a numeric reading,
/// by their text otherwise.
pub fn compare_keys(ta: &str, na: Option<u64>, tb: &str, nb: Option<u64>) -> (r: Ordering)
    ensures
        r == key_order(ta@, na, tb@, nb),
{
    match (na, nb) {
        (Some(x), Some(y)) => compare_numbers(x, y),
        _ => compare_bytes(ta.as_bytes(), tb.as_bytes()),
    }
}

} // verus!
