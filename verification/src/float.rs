//! IEEE-754 binary64 primitives over raw bit patterns. The language
//! stores a `Float64` as its 64 bit pattern; every operation on such
//! values is performed by an external software implementation of IEEE
//! arithmetic, and is named here as an uninterpreted function of the bit
//! patterns alone.

use rustc_apfloat::ieee::Double;
use rustc_apfloat::Float;
use vstd::prelude::*;

verus! {

pub uninterp spec fn f64_add(a: u64, b: u64) -> u64;

pub uninterp spec fn f64_sub(a: u64, b: u64) -> u64;

pub uninterp spec fn f64_mul(a: u64, b: u64) -> u64;

pub uninterp spec fn f64_div(a: u64, b: u64) -> u64;

pub uninterp spec fn f64_rem(a: u64, b: u64) -> u64;

pub uninterp spec fn f64_eq(a: u64, b: u64) -> bool;

pub uninterp spec fn f64_lt(a: u64, b: u64) -> bool;

pub uninterp spec fn f64_le(a: u64, b: u64) -> bool;

pub uninterp spec fn f64_gt(a: u64, b: u64) -> bool;

pub uninterp spec fn f64_ge(a: u64, b: u64) -> bool;

pub uninterp spec fn f64_of_dec(s: Seq<char>) -> Option<u64>;

/// Relies on rustc_apfloat's binary64 addition (round to nearest, ties
/// to even): the result depends on the two bit patterns alone.
#[verifier::external_body]
pub(crate) fn add_bits(a: u64, b: u64) -> (r: u64)
    ensures
        r == f64_add(a, b),
{
    (Double::from_bits(a as u128) + Double::from_bits(b as u128)).value.to_bits() as u64
}

/// Relies on rustc_apfloat's binary64 subtraction (round to nearest,
/// ties to even): the result depends on the two bit patterns alone.
#[verifier::external_body]
pub(crate) fn sub_bits(a: u64, b: u64) -> (r: u64)
    ensures
        r == f64_sub(a, b),
{
    (Double::from_bits(a as u128) - Double::from_bits(b as u128)).value.to_bits() as u64
}

/// Relies on rustc_apfloat's binary64 multiplication (round to nearest,
/// ties to even): the result depends on the two bit patterns alone.
#[verifier::external_body]
pub(crate) fn mul_bits(a: u64, b: u64) -> (r: u64)
    ensures
        r == f64_mul(a, b),
{
    (Double::from_bits(a as u128) * Double::from_bits(b as u128)).value.to_bits() as u64
}

/// Relies on rustc_apfloat's binary64 division (round to nearest, ties
/// to even): the result depends on the two bit patterns alone.
#[verifier::external_body]
pub(crate) fn div_bits(a: u64, b: u64) -> (r: u64)
    ensures
        r == f64_div(a, b),
{
    (Double::from_bits(a as u128) / Double::from_bits(b as u128)).value.to_bits() as u64
}

/// Relies on rustc_apfloat's binary64 remainder, which implements the C
/// `fmod` semantics: the result depends on the two bit patterns alone.
#[verifier::external_body]
pub(crate) fn rem_bits(a: u64, b: u64) -> (r: u64)
    ensures
        r == f64_rem(a, b),
{
    (Double::from_bits(a as u128) % Double::from_bits(b as u128)).value.to_bits() as u64
}

/// Relies on rustc_apfloat's binary64 comparison (`PartialEq::eq`, IEEE
/// equality: NaN is equal to nothing, zeroes of both signs are equal).
#[verifier::external_body]
pub(crate) fn eq_bits(a: u64, b: u64) -> (r: bool)
    ensures
        r == f64_eq(a, b),
{
    Double::from_bits(a as u128) == Double::from_bits(b as u128)
}

/// Relies on rustc_apfloat's binary64 ordering (`PartialOrd::lt`; false
/// whenever an operand is NaN).
#[verifier::external_body]
pub(crate) fn lt_bits(a: u64, b: u64) -> (r: bool)
    ensures
        r == f64_lt(a, b),
{
    Double::from_bits(a as u128) < Double::from_bits(b as u128)
}

/// Relies on rustc_apfloat's binary64 ordering (`PartialOrd::le`; false
/// whenever an operand is NaN).
#[verifier::external_body]
pub(crate) fn le_bits(a: u64, b: u64) -> (r: bool)
    ensures
        r == f64_le(a, b),
{
    Double::from_bits(a as u128) <= Double::from_bits(b as u128)
}

/// Relies on rustc_apfloat's binary64 ordering (`PartialOrd::gt`; false
/// whenever an operand is NaN).
#[verifier::external_body]
pub(crate) fn gt_bits(a: u64, b: u64) -> (r: bool)
    ensures
        r == f64_gt(a, b),
{
    Double::from_bits(a as u128) > Double::from_bits(b as u128)
}

/// Relies on rustc_apfloat's binary64 ordering (`PartialOrd::ge`; false
/// whenever an operand is NaN).
#[verifier::external_body]
pub(crate) fn ge_bits(a: u64, b: u64) -> (r: bool)
    ensures
        r == f64_ge(a, b),
{
    Double::from_bits(a as u128) >= Double::from_bits(b as u128)
}

/// Relies on rustc_apfloat's decimal-to-binary64 conversion
/// (`Double::from_str`, round to nearest, ties to even): the result
/// depends on the characters alone, and is present exactly when the
/// text is a number that the conversion accepts.
#[verifier::external_body]
pub(crate) fn parse_f64_bits(s: &[char]) -> (r: Option<u64>)
    ensures
        r == f64_of_dec(s@),
{
    let text: String = s.iter().collect();
    match text.parse::<Double>() {
        Ok(d) => Some(d.to_bits() as u64),
        Err(_) => None,
    }
}

} // verus!
