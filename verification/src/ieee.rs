//! Prices and quantities travel through the library as the 64-bit IEEE-754
//! bit patterns of the decimal numbers the exchange sent (the same value
//! `to_bits` gives). This module states, over those bit patterns, the two
//! numeric facts the book needs: which patterns denote zero, and how two
//! patterns compare as numbers.

use vstd::prelude::*;

verus! {

/// The value of the sign bit.
pub const SIGN_BIT: u64 = 0x8000_0000_0000_0000;

/// The pattern of positive infinity: all exponent bits set, no mantissa bits.
pub const INFINITY_BITS: u64 = 0x7FF0_0000_0000_0000;

/// Whether the sign bit of the pattern is set.
pub open spec fn sign_set(bits: u64) -> bool {
    bits >= SIGN_BIT
}

/// The pattern with its sign bit cleared, as a number.
pub open spec fn magnitude(bits: u64) -> int {
    (bits % SIGN_BIT) as int
}

/// A NaN has every exponent bit set and a non-zero mantissa.
pub open spec fn is_nan(bits: u64) -> bool {
    magnitude(bits) > INFINITY_BITS
}

/// Positive and negative zero: no bits set other than, maybe, the sign.
pub open spec fn is_zero(bits: u64) -> bool {
    magnitude(bits) == 0
}

/// For a pattern that is not a NaN, an integer that orders patterns as the
/// numbers they denote: positive patterns grow with their magnitude,
/// negative ones shrink, and both zeros map to 0.
pub open spec fn rank(bits: u64) -> int {
    if sign_set(bits) {
        -magnitude(bits)
    } else {
        magnitude(bits)
    }
}

/// `a > b` on the numbers the patterns denote; false whenever a NaN takes part.
pub open spec fn greater(a: u64, b: u64) -> bool {
    !is_nan(a) && !is_nan(b) && rank(a) > rank(b)
}

/// `a < b` on the numbers the patterns denote; false whenever a NaN takes part.
pub open spec fn less(a: u64, b: u64) -> bool {
    greater(b, a)
}

/// Whether a quantity pattern denotes zero (of either sign).
pub fn quantity_is_zero(bits: u64) -> (r: bool)
    ensures
        r == is_zero(bits),
{
    bits % SIGN_BIT == 0
}

fn rank_of(bits: u64) -> (r: i128)
    ensures
        r == rank(bits),
{
    let m: i128 = (bits % SIGN_BIT) as i128;
    if bits >= SIGN_BIT {
        -m
    } else {
        m
    }
}

/// `a > b` on the denoted numbers.
pub fn price_greater(a: u64, b: u64) -> (r: bool)
    ensures
        r == greater(a, b),
{
    if a % SIGN_BIT > INFINITY_BITS || b % SIGN_BIT > INFINITY_BITS {
        false
    } else {
        rank_of(a) > rank_of(b)
    }
}

/// `a < b` on the denoted numbers.
pub fn price_less(a: u64, b: u64) -> (r: bool)
    ensures
        r == less(a, b),
{
    price_greater(b, a)
}

} // verus!
