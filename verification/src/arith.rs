//! Arithmetic on binary64 bit patterns, done in software.

use rustc_apfloat::ieee::Double;
use rustc_apfloat::Float;
use vstd::prelude::*;

verus! {

/// The pattern of the sum of two numbers, rounded to nearest, ties to even.
pub uninterp spec fn double_sum(a: u64, b: u64) -> u64;

/// The pattern of the first number less the second, rounded to nearest, ties
/// to even.
pub uninterp spec fn double_difference(a: u64, b: u64) -> u64;

/// The pattern of the product of two numbers, rounded to nearest, ties to
/// even.
pub uninterp spec fn double_product(a: u64, b: u64) -> u64;

/// The pattern of the first number divided by the second, rounded to nearest,
/// ties to even.
pub uninterp spec fn double_quotient(a: u64, b: u64) -> u64;

/// Adds with `rustc_apfloat`'s `+` on `ieee::Double`. Nothing is proved of
/// the result: it is what that operator gives on the two patterns, and the
/// same patterns always give the same result.
#[verifier::external_body]
pub(crate) fn sum(a: u64, b: u64) -> (r: u64)
    ensures
        r == double_sum(a, b),
{
    (Double::from_bits(a as u128) + Double::from_bits(b as u128)).value.to_bits() as u64
}

/// Subtracts with `rustc_apfloat`'s `-` on `ieee::Double`. Nothing is proved
/// of the result: it is what that operator gives on the two patterns.
#[verifier::external_body]
pub(crate) fn difference(a: u64, b: u64) -> (r: u64)
    ensures
        r == double_difference(a, b),
{
    (Double::from_bits(a as u128) - Double::from_bits(b as u128)).value.to_bits() as u64
}

/// Multiplies with `rustc_apfloat`'s `*` on `ieee::Double`. Nothing is proved
/// of the result: it is what that operator gives on the two patterns.
#[verifier::external_body]
pub(crate) fn product(a: u64, b: u64) -> (r: u64)
    ensures
        r == double_product(a, b),
{
    (Double::from_bits(a as u128) * Double::from_bits(b as u128)).value.to_bits() as u64
}

/// Divides with `rustc_apfloat`'s `/` on `ieee::Double`. Nothing is proved of
/// the result: it is what that operator gives on the two patterns. Division
/// by zero gives an infinity or no number, as the format has it, and does not
/// fail.
#[verifier::external_body]
pub(crate) fn quotient(a: u64, b: u64) -> (r: u64)
    ensures
        r == double_quotient(a, b),
{
    (Double::from_bits(a as u128) / Double::from_bits(b as u128)).value.to_bits() as u64
}

} // verus!
