//! IEEE-754 double-precision arithmetic on bit patterns.
//!
//! The language's numbers are 64-bit IEEE doubles. This crate carries them as
//! their bit patterns (`u64`) and performs arithmetic and comparison through
//! `rustc_apfloat`, a software implementation of IEEE-754 binary64 with
//! round-to-nearest-even, the rounding the language requires. What each
//! operation returns is named by an uninterpreted function of the operand
//! bits; the interpreter's contracts are exact relative to those names.
use vstd::prelude::*;
use rustc_apfloat::Float;
use rustc_apfloat::ieee::Double;

verus! {

/// The bit pattern of the IEEE-754 double sum of two doubles given by bits.
pub uninterp spec fn num_add(a: u64, b: u64) -> u64;

/// The bit pattern of the IEEE-754 double difference of two doubles given by bits.
pub uninterp spec fn num_sub(a: u64, b: u64) -> u64;

/// The bit pattern of the IEEE-754 double product of two doubles given by bits.
pub uninterp spec fn num_mul(a: u64, b: u64) -> u64;

/// The bit pattern of the IEEE-754 double quotient of two doubles given by bits.
pub uninterp spec fn num_div(a: u64, b: u64) -> u64;

/// The bit pattern of an IEEE-754 double with its sign flipped.
pub uninterp spec fn num_neg(a: u64) -> u64;

/// IEEE-754 `<` on two doubles given by bits (false when either is NaN).
pub uninterp spec fn num_lt(a: u64, b: u64) -> bool;

/// IEEE-754 `<=` on two doubles given by bits (false when either is NaN).
pub uninterp spec fn num_le(a: u64, b: u64) -> bool;

/// IEEE-754 `==` on two doubles given by bits (false when either is NaN;
/// positive and negative zero are equal).
pub uninterp spec fn num_eq(a: u64, b: u64) -> bool;

/// The bit pattern of the IEEE-754 double nearest to an unsigned integer.
pub uninterp spec fn num_of_u64(n: u64) -> u64;

/// IEEE-754 `>` is `<` with the operands swapped.
pub open spec fn num_gt(a: u64, b: u64) -> bool {
    num_lt(b, a)
}

/// IEEE-754 `>=` is `<=` with the operands swapped.
pub open spec fn num_ge(a: u64, b: u64) -> bool {
    num_le(b, a)
}

/// Relies on `rustc_apfloat::ieee::Double`'s `Add`: IEEE-754 binary64
/// addition, rounded to nearest, ties to even.
#[verifier::external_body]
pub(crate) fn add_bits(a: u64, b: u64) -> (r: u64)
    ensures
        r == num_add(a, b),
{
    (Double::from_bits(a as u128) + Double::from_bits(b as u128)).value.to_bits() as u64
}

/// Relies on `rustc_apfloat::ieee::Double`'s `Sub`: IEEE-754 binary64
/// subtraction, rounded to nearest, ties to even.
#[verifier::external_body]
pub(crate) fn sub_bits(a: u64, b: u64) -> (r: u64)
    ensures
        r == num_sub(a, b),
{
    (Double::from_bits(a as u128) - Double::from_bits(b as u128)).value.to_bits() as u64
}

/// Relies on `rustc_apfloat::ieee::Double`'s `Mul`: IEEE-754 binary64
/// multiplication, rounded to nearest, ties to even.
#[verifier::external_body]
pub(crate) fn mul_bits(a: u64, b: u64) -> (r: u64)
    ensures
        r == num_mul(a, b),
{
    (Double::from_bits(a as u128) * Double::from_bits(b as u128)).value.to_bits() as u64
}

/// Relies on `rustc_apfloat::ieee::Double`'s `Div`: IEEE-754 binary64
/// division, rounded to nearest, ties to even.
#[verifier::external_body]
pub(crate) fn div_bits(a: u64, b: u64) -> (r: u64)
    ensures
        r == num_div(a, b),
{
    (Double::from_bits(a as u128) / Double::from_bits(b as u128)).value.to_bits() as u64
}

/// Relies on `rustc_apfloat::ieee::Double`'s `Neg`: flips the sign bit.
#[verifier::external_body]
pub(crate) fn neg_bits(a: u64) -> (r: u64)
    ensures
        r == num_neg(a),
{
    (-Double::from_bits(a as u128)).to_bits() as u64
}

/// Relies on `rustc_apfloat::ieee::Double`'s `PartialOrd`: the IEEE-754
/// comparison predicate, in which NaN is unordered.
#[verifier::external_body]
pub(crate) fn lt_bits(a: u64, b: u64) -> (r: bool)
    ensures
        r == num_lt(a, b),
{
    Double::from_bits(a as u128) < Double::from_bits(b as u128)
}

/// Relies on `rustc_apfloat::ieee::Double`'s `PartialOrd`: the IEEE-754
/// comparison predicate, in which NaN is unordered.
#[verifier::external_body]
pub(crate) fn le_bits(a: u64, b: u64) -> (r: bool)
    ensures
        r == num_le(a, b),
{
    Double::from_bits(a as u128) <= Double::from_bits(b as u128)
}

/// Relies on `rustc_apfloat::ieee::Double`'s `PartialEq`: IEEE-754 equality,
/// under which NaN equals nothing and the two zeros are equal.
#[verifier::external_body]
pub(crate) fn eq_bits(a: u64, b: u64) -> (r: bool)
    ensures
        r == num_eq(a, b),
{
    Double::from_bits(a as u128) == Double::from_bits(b as u128)
}

/// Relies on `rustc_apfloat::Float::from_u128`: conversion of an unsigned
/// integer to the nearest IEEE-754 binary64 value.
#[verifier::external_body]
pub(crate) fn bits_of_u64(n: u64) -> (r: u64)
    ensures
        r == num_of_u64(n),
{
    Double::from_u128(n as u128).value.to_bits() as u64
}

/// IEEE-754 `>` on two doubles given by bits.
pub(crate) fn gt_bits(a: u64, b: u64) -> (r: bool)
    ensures
        r == num_gt(a, b),
{
    lt_bits(b, a)
}

/// IEEE-754 `>=` on two doubles given by bits.
pub(crate) fn ge_bits(a: u64, b: u64) -> (r: bool)
    ensures
        r == num_ge(a, b),
{
    le_bits(b, a)
}

} // verus!
