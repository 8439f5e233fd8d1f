//! Numbers as IEEE-754 binary64 bit patterns.
//!
//! Sign, magnitude, ordering and equality of a binary64 value can be read off
//! its bit pattern with integer arithmetic alone, which is what this module
//! does. Sums, differences, products and quotients are asked of the host.

use vstd::prelude::*;

verus! {

/// The pattern of the sign bit, which is also the pattern of `-0.0`.
pub const SIGN_BIT: u64 = 0x8000_0000_0000_0000;

/// The magnitude of an infinity: all exponent bits set, no fraction bit.
pub const INFINITY: u64 = 0x7ff0_0000_0000_0000;

/// The four operations whose result the host computes.
#[derive(Clone, Copy, Debug, PartialEq, Eq, Structural)]
pub enum ArithOp {
    Add,
    Subtract,
    Multiply,
    Divide,
}

/// Whether the sign bit of `bits` is set.
pub open spec fn sign_set(bits: u64) -> bool {
    bits >= SIGN_BIT
}

/// The pattern with the sign bit cleared.
pub open spec fn magnitude(bits: u64) -> u64 {
    if bits >= SIGN_BIT {
        (bits - SIGN_BIT) as u64
    } else {
        bits
    }
}

/// Whether `bits` encodes a NaN: an all-ones exponent and a fraction that is not zero.
pub open spec fn nan(bits: u64) -> bool {
    magnitude(bits) > INFINITY
}

/// Whether `bits` encodes `0.0` or `-0.0`.
pub open spec fn zero(bits: u64) -> bool {
    magnitude(bits) == 0
}

/// An integer that orders the patterns that are not NaN as their values are
/// ordered: the magnitude, negated where the sign bit is set. Both zeros
/// have rank 0.
pub open spec fn rank(bits: u64) -> int {
    if sign_set(bits) {
        -(magnitude(bits) as int)
    } else {
        magnitude(bits) as int
    }
}

/// The pattern of the negated value: the sign bit flipped, every other bit kept.
pub open spec fn negated(bits: u64) -> u64 {
    if bits >= SIGN_BIT {
        (bits - SIGN_BIT) as u64
    } else {
        (bits + SIGN_BIT) as u64
    }
}

/// Numeric equality: false where either side is NaN, and `0.0` equals `-0.0`.
pub open spec fn num_eq(a: u64, b: u64) -> bool {
    !nan(a) && !nan(b) && rank(a) == rank(b)
}

/// Numeric `<`: false where either side is NaN.
pub open spec fn num_lt(a: u64, b: u64) -> bool {
    !nan(a) && !nan(b) && rank(a) < rank(b)
}

/// Numeric `<=`: false where either side is NaN.
pub open spec fn num_le(a: u64, b: u64) -> bool {
    !nan(a) && !nan(b) && rank(a) <= rank(b)
}

/// Numeric `>`: false where either side is NaN.
pub open spec fn num_gt(a: u64, b: u64) -> bool {
    num_lt(b, a)
}

/// Numeric `>=`: false where either side is NaN.
pub open spec fn num_ge(a: u64, b: u64) -> bool {
    num_le(b, a)
}

/// The pattern with the sign bit cleared.
pub fn abs_bits(bits: u64) -> (r: u64)
    ensures
        r == magnitude(bits),
{
    if bits >= SIGN_BIT {
        bits - SIGN_BIT
    } else {
        bits
    }
}

/// Tells whether `bits` encodes a NaN.
pub fn is_nan(bits: u64) -> (r: bool)
    ensures
        r == nan(bits),
{
    abs_bits(bits) > INFINITY
}

/// Tells whether `bits` encodes a zero of either sign.
pub fn is_zero(bits: u64) -> (r: bool)
    ensures
        r == zero(bits),
{
    abs_bits(bits) == 0
}

/// Flips the sign bit.
pub fn negate(bits: u64) -> (r: u64)
    ensures
        r == negated(bits),
{
    if bits >= SIGN_BIT {
        bits - SIGN_BIT
    } else {
        bits + SIGN_BIT
    }
}

/// Numeric equality of two patterns.
pub fn equal(a: u64, b: u64) -> (r: bool)
    ensures
        r == num_eq(a, b),
{
    if is_nan(a) || is_nan(b) {
        false
    } else if is_zero(a) && is_zero(b) {
        true
    } else {
        a == b
    }
}

/// Numeric `<` of two patterns.
pub fn less(a: u64, b: u64) -> (r: bool)
    ensures
        r == num_lt(a, b),
{
    if is_nan(a) || is_nan(b) {
        false
    } else if a >= SIGN_BIT {
        if b >= SIGN_BIT {
            a > b
        } else {
            a > SIGN_BIT || b > 0
        }
    } else {
        b < SIGN_BIT && a < b
    }
}

/// Numeric `<=` of two patterns.
pub fn less_equal(a: u64, b: u64) -> (r: bool)
    ensures
        r == num_le(a, b),
{
    less(a, b) || equal(a, b)
}

/// Numeric `>` of two patterns.
pub fn greater(a: u64, b: u64) -> (r: bool)
    ensures
        r == num_gt(a, b),
{
    less(b, a)
}

/// Numeric `>=` of two patterns.
pub fn greater_equal(a: u64, b: u64) -> (r: bool)
    ensures
        r == num_ge(a, b),
{
    less_equal(b, a)
}

/// Negating twice gives the pattern back, and negation keeps the magnitude.
pub proof fn negate_is_involution(bits: u64)
    ensures
        negated(negated(bits)) == bits,
        magnitude(negated(bits)) == magnitude(bits),
        sign_set(negated(bits)) == !sign_set(bits),
        rank(negated(bits)) == -rank(bits),
{
}

/// On patterns that are not NaN the comparisons are those of a total order:
/// exactly one of `<`, `==`, `>` holds, `<=` is `<` or `==`, and `>=` is the
/// negation of `<`.
pub proof fn comparisons_are_total(a: u64, b: u64)
    requires
        !nan(a),
        !nan(b),
    ensures
        num_lt(a, b) || num_eq(a, b) || num_gt(a, b),
        !(num_lt(a, b) && num_eq(a, b)),
        !(num_lt(a, b) && num_gt(a, b)),
        !(num_eq(a, b) && num_gt(a, b)),
        num_le(a, b) == (num_lt(a, b) || num_eq(a, b)),
        num_ge(a, b) == !num_lt(a, b),
        num_gt(a, b) == !num_le(a, b),
{
}

/// `<` is irreflexive and transitive; `<=` is reflexive off NaN and transitive.
pub proof fn comparisons_are_transitive(a: u64, b: u64, c: u64)
    ensures
        !num_lt(a, a),
        !nan(a) ==> num_le(a, a) && num_ge(a, a),
        num_lt(a, b) && num_lt(b, c) ==> num_lt(a, c),
        num_le(a, b) && num_le(b, c) ==> num_le(a, c),
{
}

/// A comparison with a NaN on either side is false, equality included.
pub proof fn nan_compares_false(a: u64, b: u64)
    requires
        nan(a) || nan(b),
    ensures
        !num_eq(a, b),
        !num_lt(a, b),
        !num_le(a, b),
        !num_gt(a, b),
        !num_ge(a, b),
{
}

} // verus!
