//! Arithmetic on 32-bit IEEE 754 bit patterns.
//!
//! Floating-point values never appear in this crate directly: a number is
//! carried as the `u32` bit pattern of an IEEE 754 single-precision value,
//! and the operations below hand those patterns to `rustc_apfloat`, a pure
//! software implementation of IEEE 754. Each operation is a function of its
//! argument bits alone, so its result is named by an uninterpreted spec
//! function rather than restated here.

use rustc_apfloat::Float;
use rustc_apfloat::ieee::Single;
use vstd::prelude::*;

verus! {

/// The bit pattern of the IEEE 754 single-precision sum of two values given
/// by their bit patterns, rounding to nearest, ties to even.
pub uninterp spec fn single_add(a: u32, b: u32) -> u32;

/// The bit pattern of the IEEE 754 single-precision difference.
pub uninterp spec fn single_sub(a: u32, b: u32) -> u32;

/// The bit pattern of the IEEE 754 single-precision product.
pub uninterp spec fn single_mul(a: u32, b: u32) -> u32;

/// IEEE 754 equality of two single-precision values given by their bit
/// patterns. This is not bit equality: zeroes of either sign compare equal,
/// and a NaN compares unequal to everything, itself included.
pub uninterp spec fn single_eq(a: u32, b: u32) -> bool;

/// The bit pattern denoted by a decimal literal, or nothing where the text
/// is not a well-formed literal.
pub uninterp spec fn single_of_decimal(s: Seq<char>) -> Option<u32>;

/// The decimal rendering of a single-precision value given by its bits.
pub uninterp spec fn decimal_of_single(bits: u32) -> Seq<char>;

/// Relies on `rustc_apfloat`'s `Single` addition (`add_r` with default
/// rounding): single-precision IEEE 754 addition on bit patterns.
#[verifier::external_body]
pub(crate) fn add_bits(a: u32, b: u32) -> (r: u32)
    ensures
        r == single_add(a, b),
{
    (Single::from_bits(a as u128) + Single::from_bits(b as u128)).value.to_bits() as u32
}

/// Relies on `rustc_apfloat`'s `Single` subtraction (`sub_r` with default
/// rounding): single-precision IEEE 754 subtraction on bit patterns.
#[verifier::external_body]
pub(crate) fn sub_bits(a: u32, b: u32) -> (r: u32)
    ensures
        r == single_sub(a, b),
{
    (Single::from_bits(a as u128) - Single::from_bits(b as u128)).value.to_bits() as u32
}

/// Relies on `rustc_apfloat`'s `Single` multiplication (`mul_r` with default
/// rounding): single-precision IEEE 754 multiplication on bit patterns.
#[verifier::external_body]
pub(crate) fn mul_bits(a: u32, b: u32) -> (r: u32)
    ensures
        r == single_mul(a, b),
{
    (Single::from_bits(a as u128) * Single::from_bits(b as u128)).value.to_bits() as u32
}

/// Relies on `rustc_apfloat`'s `PartialEq` for `Single`, which compares by
/// IEEE 754 ordering (`partial_cmp`), not by bits.
#[verifier::external_body]
pub(crate) fn eq_bits(a: u32, b: u32) -> (r: bool)
    ensures
        r == single_eq(a, b),
{
    Single::from_bits(a as u128) == Single::from_bits(b as u128)
}

/// Relies on `rustc_apfloat`'s `FromStr` for `Single`: correctly rounded
/// decimal-to-binary conversion, with an error for malformed text.
#[verifier::external_body]
pub(crate) fn parse_bits(s: &str) -> (r: Option<u32>)
    ensures
        r == single_of_decimal(s@),
{
    match s.parse::<Single>() {
        Ok(value) => Some(value.to_bits() as u32),
        Err(_) => None,
    }
}

/// Relies on `rustc_apfloat`'s `Display` for `Single`: a decimal rendering
/// with enough digits to round-trip, depending on the bits alone.
#[verifier::external_body]
pub(crate) fn format_bits(bits: u32) -> (r: String)
    ensures
        r@ == decimal_of_single(bits),
{
    format!("{}", Single::from_bits(bits as u128))
}

} // verus!
