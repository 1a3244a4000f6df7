//! Real numbers as IEEE 754 binary64 values, each held by its bit pattern
//! in a `u64`, and what can be said of them without arithmetic: their
//! order, their sign, and their comparisons.

use vstd::prelude::*;

verus! {

/// The sign bit of a bit pattern.
pub const SIGN_BIT: u64 = 0x8000_0000_0000_0000;

/// Positive infinity. A pattern whose magnitude is greater is not a number
/// (NaN).
pub const INFINITY: u64 = 0x7FF0_0000_0000_0000;

/// Zero, with the positive sign.
pub const ZERO: u64 = 0;

/// A bit pattern without its sign: exponent and fraction, read as one
/// integer. Among numbers of one sign, the greater magnitude is the number
/// farther from zero.
pub open spec fn magnitude(bits: u64) -> int {
    if bits >= SIGN_BIT {
        bits - SIGN_BIT
    } else {
        bits as int
    }
}

/// The bit pattern is not a number.
pub open spec fn is_nan(bits: u64) -> bool {
    magnitude(bits) > INFINITY
}

/// The place of a value in the total order by which particles are sorted:
/// numbers stand in their numeric order, the two zeros share one place, and
/// every NaN shares the place just above positive infinity.
pub open spec fn rank(bits: u64) -> int {
    if is_nan(bits) {
        INFINITY + 1
    } else if bits >= SIGN_BIT {
        -magnitude(bits)
    } else {
        magnitude(bits)
    }
}

/// `a < b` as numbers. No comparison with a NaN holds.
pub open spec fn is_less(a: u64, b: u64) -> bool {
    !is_nan(a) && !is_nan(b) && rank(a) < rank(b)
}

/// `a <= b` as numbers. No comparison with a NaN holds.
pub open spec fn is_at_most(a: u64, b: u64) -> bool {
    !is_nan(a) && !is_nan(b) && rank(a) <= rank(b)
}

/// The value with the other sign: for a number, the number times -1.
pub open spec fn opposite(bits: u64) -> u64 {
    if bits >= SIGN_BIT {
        (bits - SIGN_BIT) as u64
    } else {
        (bits + SIGN_BIT) as u64
    }
}

/// Two values share a place in the order if and only if they are one
/// value to a comparison of numbers: the same bit pattern, the two zeros, or
/// two NaNs.
pub proof fn law_values_of_equal_rank(a: u64, b: u64)
    ensures
        rank(a) == rank(b) <==> a == b || (magnitude(a) == 0 && magnitude(b) == 0) || (is_nan(a)
            && is_nan(b)),
{
}

/// The opposite of a number lies on the other side of zero, as far from it,
/// and the opposite of the opposite is the value itself.
pub proof fn law_opposite_mirrors(bits: u64)
    ensures
        opposite(opposite(bits)) == bits,
        is_nan(opposite(bits)) == is_nan(bits),
        !is_nan(bits) ==> rank(opposite(bits)) == -rank(bits),
{
}

/// An unsigned key that orders bit patterns as [`rank`] does.
pub fn sort_key(bits: u64) -> (key: u64)
    ensures
        key == rank(bits) + SIGN_BIT,
{
    let negative: bool = bits >= SIGN_BIT;
    let magnitude: u64 = if negative { bits - SIGN_BIT } else { bits };
    if magnitude > INFINITY {
        SIGN_BIT + INFINITY + 1
    } else if negative {
        SIGN_BIT - magnitude
    } else {
        SIGN_BIT + magnitude
    }
}

/// Whether the bit pattern is not a number.
pub fn not_a_number(bits: u64) -> (nan: bool)
    ensures
        nan == is_nan(bits),
{
    let magnitude: u64 = if bits >= SIGN_BIT { bits - SIGN_BIT } else { bits };
    magnitude > INFINITY
}

/// Whether `a < b` as numbers.
pub fn less_than(a: u64, b: u64) -> (less: bool)
    ensures
        less == is_less(a, b),
{
    !not_a_number(a) && !not_a_number(b) && sort_key(a) < sort_key(b)
}

/// Whether `a <= b` as numbers.
pub fn at_most(a: u64, b: u64) -> (within: bool)
    ensures
        within == is_at_most(a, b),
{
    !not_a_number(a) && !not_a_number(b) && sort_key(a) <= sort_key(b)
}

/// The value with the other sign.
pub fn negated(bits: u64) -> (turned: u64)
    ensures
        turned == opposite(bits),
{
    if bits >= SIGN_BIT {
        bits - SIGN_BIT
    } else {
        bits + SIGN_BIT
    }
}

} // verus!
