//! Arithmetic on IEEE-754 single-precision scalars, represented by their
//! 32-bit patterns.
//!
//! The crate never holds a native floating-point value: every scalar is the
//! `u32` bit pattern of a single-precision number.  The four arithmetic
//! operations the engine needs (sum, difference, product, quotient, plus a
//! conversion from a count) are deterministic functions of their argument
//! bits; they are named by uninterpreted spec functions and computed by a
//! software implementation of the IEEE operations, rounding to nearest even
//! as hardware does.

use vstd::prelude::*;
use rustc_apfloat::Float;
use rustc_apfloat::ieee::Single;

verus! {

/// The bit pattern of `+0.0`, the neutral starting point of accumulations.
pub const ZERO_BITS: u32 = 0;

/// The single-precision sum of two scalars, by bit pattern.
pub uninterp spec fn spec_single_sum(a: u32, b: u32) -> u32;

/// The single-precision difference of two scalars, by bit pattern.
pub uninterp spec fn spec_single_diff(a: u32, b: u32) -> u32;

/// The single-precision product of two scalars, by bit pattern.
pub uninterp spec fn spec_single_prod(a: u32, b: u32) -> u32;

/// The single-precision quotient of two scalars, by bit pattern.
pub uninterp spec fn spec_single_quot(a: u32, b: u32) -> u32;

/// The single-precision value nearest to an unsigned count.
pub uninterp spec fn spec_single_of_count(n: usize) -> u32;

/// Relies on rustc_apfloat::ieee::Single::add_r (round to nearest even):
/// the IEEE-754 single-precision sum, a function of the argument bits alone.
#[verifier::external_body]
pub fn single_sum(a: u32, b: u32) -> (r: u32)
    ensures
        r == spec_single_sum(a, b),
{
    let x = Single::from_bits(a as u128);
    let y = Single::from_bits(b as u128);
    (x + y).value.to_bits() as u32
}

/// Relies on rustc_apfloat::ieee::Single::sub_r (round to nearest even):
/// the IEEE-754 single-precision difference, a function of the argument bits
/// alone.
#[verifier::external_body]
pub fn single_diff(a: u32, b: u32) -> (r: u32)
    ensures
        r == spec_single_diff(a, b),
{
    let x = Single::from_bits(a as u128);
    let y = Single::from_bits(b as u128);
    (x - y).value.to_bits() as u32
}

/// Relies on rustc_apfloat::ieee::Single::mul_r (round to nearest even):
/// the IEEE-754 single-precision product, a function of the argument bits
/// alone.
#[verifier::external_body]
pub fn single_prod(a: u32, b: u32) -> (r: u32)
    ensures
        r == spec_single_prod(a, b),
{
    let x = Single::from_bits(a as u128);
    let y = Single::from_bits(b as u128);
    (x * y).value.to_bits() as u32
}

/// Relies on rustc_apfloat::ieee::Single::div_r (round to nearest even):
/// the IEEE-754 single-precision quotient, a function of the argument bits
/// alone.
#[verifier::external_body]
pub fn single_quot(a: u32, b: u32) -> (r: u32)
    ensures
        r == spec_single_quot(a, b),
{
    let x = Single::from_bits(a as u128);
    let y = Single::from_bits(b as u128);
    (x / y).value.to_bits() as u32
}

/// Relies on rustc_apfloat::ieee::Single::from_u128_r (round to nearest
/// even): the single-precision value nearest to the count, a function of the
/// count alone.
#[verifier::external_body]
pub fn single_of_count(n: usize) -> (r: u32)
    ensures
        r == spec_single_of_count(n),
{
    Single::from_u128(n as u128).value.to_bits() as u32
}

} // verus!
