//! Reading IEEE-754 binary64 bit patterns.
//!
//! The top bit of a pattern is the sign, the remaining 63 bits the magnitude.
//! Magnitudes up to `INFINITY` order as the numbers they stand for; larger
//! magnitudes are not numbers.

use vstd::prelude::*;

verus! {

/// The pattern of `+0.0`.
pub const ZERO: u64 = 0;

/// The pattern of `1.0`.
pub const ONE: u64 = 0x3FF0_0000_0000_0000;

/// The pattern of `2.0`.
pub const TWO: u64 = 0x4000_0000_0000_0000;

/// The pattern of `6.0`.
pub const SIX: u64 = 0x4018_0000_0000_0000;

/// The pattern of positive infinity, the largest magnitude that is a number.
pub const INFINITY: u64 = 0x7FF0_0000_0000_0000;

/// The sign bit.
pub const SIGN: u64 = 0x8000_0000_0000_0000;

/// The pattern without its sign bit.
pub open spec fn magnitude(bits: u64) -> int {
    if bits >= SIGN {
        bits - SIGN
    } else {
        bits as int
    }
}

/// Whether the pattern stands for no number.
pub open spec fn is_nan(bits: u64) -> bool {
    magnitude(bits) > INFINITY
}

/// Whether the pattern stands for a number that is at least one, which is
/// when a cell counts as frozen.
pub open spec fn at_least_one(bits: u64) -> bool {
    ONE <= bits <= INFINITY
}

/// Whether the pattern stands for a number below one.
pub open spec fn below_one(bits: u64) -> bool {
    bits < ONE || (bits >= SIGN && !is_nan(bits))
}

/// Whether the pattern stands for a number above zero.
pub open spec fn is_positive(bits: u64) -> bool {
    0 < bits <= INFINITY
}

/// Whether two patterns stand for the same number. Both zeros are the same
/// number, and what is not a number is the same as nothing.
pub open spec fn same_number(a: u64, b: u64) -> bool {
    &&& !is_nan(a)
    &&& !is_nan(b)
    &&& (a == b || (magnitude(a) == 0 && magnitude(b) == 0))
}

/// The larger of zero and the number: negative numbers, the negative zero and
/// what is not a number all give `+0.0`.
pub open spec fn clamped(bits: u64) -> u64 {
    if bits <= INFINITY {
        bits
    } else {
        ZERO
    }
}

/// Decides [`at_least_one`].
pub fn is_at_least_one(bits: u64) -> (r: bool)
    ensures
        r == at_least_one(bits),
{
    ONE <= bits && bits <= INFINITY
}

/// Decides [`below_one`].
pub fn is_below_one(bits: u64) -> (r: bool)
    ensures
        r == below_one(bits),
{
    bits < ONE || (bits >= SIGN && bits - SIGN <= INFINITY)
}

/// Decides [`is_positive`].
pub fn is_above_zero(bits: u64) -> (r: bool)
    ensures
        r == is_positive(bits),
{
    0 < bits && bits <= INFINITY
}

/// Decides [`is_nan`].
pub fn is_not_a_number(bits: u64) -> (r: bool)
    ensures
        r == is_nan(bits),
{
    if bits >= SIGN {
        bits - SIGN > INFINITY
    } else {
        bits > INFINITY
    }
}

/// Decides [`same_number`].
pub fn is_same_number(a: u64, b: u64) -> (r: bool)
    ensures
        r == same_number(a, b),
{
    if is_not_a_number(a) || is_not_a_number(b) {
        false
    } else {
        a == b || ((a == ZERO || a == SIGN) && (b == ZERO || b == SIGN))
    }
}

/// Computes [`clamped`].
pub fn clamp_non_negative(bits: u64) -> (r: u64)
    ensures
        r == clamped(bits),
{
    if bits <= INFINITY {
        bits
    } else {
        ZERO
    }
}

} // verus!
