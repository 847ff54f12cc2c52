//! Order and classification of binary64 numbers, read off their bit patterns.
//!
//! A pattern is a sign bit above a 63-bit magnitude.  Magnitudes grow with the
//! absolute value of the number, the magnitude of infinity is followed by the
//! NaN patterns, and the two zeros have magnitude zero.

use vstd::prelude::*;

verus! {

/// Weight of the sign bit.
pub const SIGN: u64 = 0x8000_0000_0000_0000;

/// Pattern of positive infinity.
pub const INFINITY: u64 = 0x7FF0_0000_0000_0000;

/// Pattern of 0.
pub const ZERO: u64 = 0;

/// Pattern of 0.5.
pub const HALF: u64 = 0x3FE0_0000_0000_0000;

/// Pattern of 1.
pub const ONE: u64 = 0x3FF0_0000_0000_0000;

/// The pattern without its sign bit.
pub open spec fn magnitude(bits: u64) -> int {
    if bits >= SIGN {
        bits - SIGN
    } else {
        bits as int
    }
}

/// Neither infinite nor NaN.
pub open spec fn finite(bits: u64) -> bool {
    magnitude(bits) < INFINITY
}

pub open spec fn nan(bits: u64) -> bool {
    magnitude(bits) > INFINITY
}

/// An integer that orders numbers as their values do; both zeros have rank 0.
pub open spec fn rank(bits: u64) -> int {
    if bits >= SIGN {
        -magnitude(bits)
    } else {
        magnitude(bits)
    }
}

/// Every element is finite.
pub open spec fn all_finite(values: Seq<u64>) -> bool {
    forall|i: int| 0 <= i < values.len() ==> finite(#[trigger] values[i])
}

/// `a < b` as numbers; a NaN is below nothing and above nothing.
pub open spec fn less(a: u64, b: u64) -> bool {
    !nan(a) && !nan(b) && rank(a) < rank(b)
}

/// `a <= b` as numbers.
pub open spec fn at_most(a: u64, b: u64) -> bool {
    !nan(a) && !nan(b) && rank(a) <= rank(b)
}

/// `a == b` as numbers: the two zeros are equal, a NaN equals nothing.
pub open spec fn same(a: u64, b: u64) -> bool {
    !nan(a) && !nan(b) && rank(a) == rank(b)
}

/// Position in the total order of all patterns: negative NaNs, negative
/// numbers, -0, +0, positive numbers, positive NaNs.
pub open spec fn total_rank(bits: u64) -> int {
    if bits >= SIGN {
        -magnitude(bits) - 1
    } else {
        magnitude(bits)
    }
}

/// The pattern of the negated number.
pub open spec fn negated(bits: u64) -> u64 {
    if bits >= SIGN {
        (bits - SIGN) as u64
    } else {
        (bits + SIGN) as u64
    }
}

pub fn negate(bits: u64) -> (r: u64)
    ensures
        r == negated(bits),
{
    if bits >= SIGN {
        bits - SIGN
    } else {
        bits + SIGN
    }
}

/// The absolute value.
pub fn absolute(bits: u64) -> (r: u64)
    ensures
        r == magnitude(bits),
{
    if bits >= SIGN {
        bits - SIGN
    } else {
        bits
    }
}

pub fn is_finite(bits: u64) -> (r: bool)
    ensures
        r == finite(bits),
{
    if bits >= SIGN {
        bits - SIGN < INFINITY
    } else {
        bits < INFINITY
    }
}

pub fn is_nan(bits: u64) -> (r: bool)
    ensures
        r == nan(bits),
{
    if bits >= SIGN {
        bits - SIGN > INFINITY
    } else {
        bits > INFINITY
    }
}

fn signed_rank(bits: u64) -> (r: i64)
    ensures
        r == rank(bits),
{
    if bits >= SIGN {
        -((bits - SIGN) as i64)
    } else {
        bits as i64
    }
}

pub fn is_less(a: u64, b: u64) -> (r: bool)
    ensures
        r == less(a, b),
{
    !is_nan(a) && !is_nan(b) && signed_rank(a) < signed_rank(b)
}

pub fn is_at_most(a: u64, b: u64) -> (r: bool)
    ensures
        r == at_most(a, b),
{
    !is_nan(a) && !is_nan(b) && signed_rank(a) <= signed_rank(b)
}

pub fn is_same(a: u64, b: u64) -> (r: bool)
    ensures
        r == same(a, b),
{
    !is_nan(a) && !is_nan(b) && signed_rank(a) == signed_rank(b)
}

/// Key that sorts patterns in their total order.
pub fn total_key(bits: u64) -> (r: i64)
    ensures
        r == total_rank(bits),
{
    if bits >= SIGN {
        -((bits - SIGN) as i64) - 1
    } else {
        bits as i64
    }
}

/// Finite and above zero.
pub open spec fn positive_finite(bits: u64) -> bool {
    finite(bits) && less(ZERO, bits)
}

/// Finite and not below zero.
pub open spec fn nonnegative_finite(bits: u64) -> bool {
    finite(bits) && at_most(ZERO, bits)
}

pub fn is_positive_finite(bits: u64) -> (r: bool)
    ensures
        r == positive_finite(bits),
{
    is_finite(bits) && is_less(ZERO, bits)
}

pub fn is_nonnegative_finite(bits: u64) -> (r: bool)
    ensures
        r == nonnegative_finite(bits),
{
    is_finite(bits) && is_at_most(ZERO, bits)
}

/// Whether every element is finite.
pub fn is_all_finite(values: &Vec<u64>) -> (r: bool)
    ensures
        r == all_finite(values@),
{
    let mut i: usize = 0;
    while i < values.len()
        invariant
            i <= values.len(),
            forall|k: int| 0 <= k < i ==> finite(#[trigger] values@[k]),
        decreases values.len() - i,
    {
        if !is_finite(values[i]) {
            return false;
        }
        i += 1;
    }
    true
}

/// The total order refines the order of numbers: on patterns that are not NaN,
/// a smaller number comes first.
pub proof fn total_order_refines_numbers(a: u64, b: u64)
    requires
        less(a, b),
    ensures
        total_rank(a) < total_rank(b),
{
}

/// The total order separates all patterns.
pub proof fn total_order_separates(a: u64, b: u64)
    requires
        total_rank(a) == total_rank(b),
    ensures
        a == b,
{
}

/// Two numbers are either equal or one is below the other, and never both.
pub proof fn numbers_are_ordered(a: u64, b: u64)
    requires
        !nan(a),
        !nan(b),
    ensures
        less(a, b) || same(a, b) || less(b, a),
        !(less(a, b) && less(b, a)),
        same(a, b) ==> !less(a, b) && !less(b, a),
        at_most(a, b) <==> less(a, b) || same(a, b),
        at_most(a, b) <==> !less(b, a),
{
}

/// The order of numbers is transitive, and equal numbers stand in one place.
pub proof fn the_order_is_transitive(a: u64, b: u64, c: u64)
    ensures
        less(a, b) && less(b, c) ==> less(a, c),
        at_most(a, b) && less(b, c) ==> less(a, c),
        less(a, b) && at_most(b, c) ==> less(a, c),
        at_most(a, b) && at_most(b, c) ==> at_most(a, c),
        same(a, b) && same(b, c) ==> same(a, c),
        at_most(a, b) && at_most(b, a) ==> same(a, b),
{
}

/// A NaN is neither below, nor above, nor equal to anything.
pub proof fn nan_is_unordered(a: u64, b: u64)
    requires
        nan(a) || nan(b),
    ensures
        !less(a, b),
        !at_most(a, b),
        !same(a, b),
{
}

/// What the patterns say: below the sign bit a larger pattern is a larger
/// number, above it a smaller one, and patterns without the sign bit are the
/// larger numbers, except that the two zeros are equal.
pub proof fn patterns_order_numbers(a: u64, b: u64)
    requires
        !nan(a),
        !nan(b),
    ensures
        a < 0x8000_0000_0000_0000 && b < 0x8000_0000_0000_0000 ==> (less(a, b) <==> a < b) && (
        same(a, b) <==> a == b),
        a >= 0x8000_0000_0000_0000 && b >= 0x8000_0000_0000_0000 ==> (less(a, b) <==> b < a) && (
        same(a, b) <==> a == b),
        a >= 0x8000_0000_0000_0000 && b < 0x8000_0000_0000_0000 ==> (same(a, b) <==> a
            == 0x8000_0000_0000_0000 && b == 0) && (less(a, b) <==> !same(a, b)) && !less(b, a),
{
}

/// A number is finite where its exponent bits are not all set, and NaN where
/// they are and some bit of the fraction is too.
pub proof fn exponents_classify(bits: u64)
    ensures
        finite(bits) <==> (bits >> 52u64) & 0x7FF != 0x7FF,
        nan(bits) <==> (bits >> 52u64) & 0x7FF == 0x7FF && bits & 0xF_FFFF_FFFF_FFFF != 0,
{
    assert(bits < 0x8000_0000_0000_0000 ==> (((bits >> 52u64) & 0x7FF != 0x7FF) <==> bits
        < 0x7FF0_0000_0000_0000)) by (bit_vector);
    assert(bits >= 0x8000_0000_0000_0000 ==> (((bits >> 52u64) & 0x7FF != 0x7FF) <==> bits
        < 0xFFF0_0000_0000_0000)) by (bit_vector);
    assert((bits >> 52u64) & 0x7FF == 0x7FF ==> (bits & 0xF_FFFF_FFFF_FFFF != 0 <==> bits
        != 0x7FF0_0000_0000_0000 && bits != 0xFFF0_0000_0000_0000)) by (bit_vector);
}

/// Where numbers above zero and numbers not below it lie among the patterns.
pub proof fn signs_of_patterns(bits: u64)
    ensures
        positive_finite(bits) <==> 0 < bits < 0x7FF0_0000_0000_0000,
        nonnegative_finite(bits) <==> bits < 0x7FF0_0000_0000_0000 || bits
            == 0x8000_0000_0000_0000,
        less(bits, ZERO) <==> 0x8000_0000_0000_0000 < bits <= 0xFFF0_0000_0000_0000,
{
}

/// Negation flips the sign bit and nothing else: it undoes itself, keeps what is
/// finite or NaN, and turns the order round.
pub proof fn negation_reverses_order(a: u64, b: u64)
    ensures
        negated(a) == a ^ 0x8000_0000_0000_0000,
        negated(negated(a)) == a,
        finite(negated(a)) <==> finite(a),
        nan(negated(a)) <==> nan(a),
        magnitude(negated(a)) == magnitude(a),
        less(negated(a), negated(b)) <==> less(b, a),
        same(negated(a), negated(b)) <==> same(a, b),
{
    assert(a >= 0x8000_0000_0000_0000 ==> a ^ 0x8000_0000_0000_0000 == a - 0x8000_0000_0000_0000)
        by (bit_vector);
    assert(a < 0x8000_0000_0000_0000 ==> a ^ 0x8000_0000_0000_0000 == a + 0x8000_0000_0000_0000)
        by (bit_vector);
}

/// The absolute value is the number or its negation, whichever is not below
/// zero.
pub proof fn magnitudes_are_absolute(bits: u64)
    ensures
        magnitude(bits) == bits || magnitude(bits) == negated(bits),
        0 <= magnitude(bits) < 0x8000_0000_0000_0000,
        !nan(bits) ==> at_most(ZERO, magnitude(bits) as u64),
{
}

/// The total order puts patterns with the sign bit first, the larger pattern
/// before the smaller, and after them those without it, the smaller first.
pub proof fn total_order_of_patterns(a: u64, b: u64)
    ensures
        total_rank(a) < total_rank(b) <==> if a >= 0x8000_0000_0000_0000 {
            b < 0x8000_0000_0000_0000 || b < a
        } else {
            b < 0x8000_0000_0000_0000 && a < b
        },
{
}

/// Values are all finite where each one is.
pub proof fn values_are_finite_one_by_one(items: Seq<u64>, last: u64)
    ensures
        all_finite(Seq::<u64>::empty()),
        all_finite(items.push(last)) <==> all_finite(items) && finite(last),
{
    let longer = items.push(last);
    assert(longer[items.len() as int] == last);
    assert forall|i: int| 0 <= i < items.len() implies #[trigger] items[i] == longer[i] by {}
}

/// The significand of a normal number, with its leading bit.
pub open spec fn significand(bits: u64) -> int {
    bits as int % 0x10_0000_0000_0000 + 0x10_0000_0000_0000
}

/// How many binary places the significand of a positive number is moved down.
pub open spec fn places(bits: u64) -> int {
    1075 - bits as int / 0x10_0000_0000_0000
}

/// The number whose significand is moved down by `places`, where `scale` is 2 to
/// that power, is as near to `n / d` as a number can be.
pub open spec fn nearest(bits: u64, scale: int, n: int, d: int) -> bool {
    -d <= 2 * (significand(bits) * d - n * scale) <= d
}

} // verus!
