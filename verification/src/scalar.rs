//! Real-number scalars, held as IEEE-754 single-precision bit patterns.
//!
//! The verifier has no theory of floating-point values, so every scalar is
//! carried through the crate as the `u32` bit pattern of the single-precision
//! number it encodes.  Each arithmetic primitive is an outside call whose
//! result is given a name (`add_bits`, `mul_bits`, ...); all contracts above
//! this module speak of those names, exactly.

use vstd::prelude::*;
use rustc_apfloat::Float;

verus! {

/// A real number, as the bit pattern of an IEEE-754 single-precision value.
pub type Scalar = u32;

/// The bit pattern of zero.
pub const F_ZERO: u32 = 0x0000_0000;

/// The bit pattern of one.
pub const F_ONE: u32 = 0x3F80_0000;

/// The bit pattern of two.
pub const F_TWO: u32 = 0x4000_0000;

/// The bit pattern of 2^-24, the width of one step of the unit grid that
/// 24 fresh random bits are mapped onto.
pub const F_TWO_POW_NEG_24: u32 = 0x3380_0000;

/// The single-precision sum of the numbers `a` and `b` encode, rounded to
/// nearest, ties to even, as a bit pattern.
pub uninterp spec fn add_bits(a: u32, b: u32) -> u32;

/// The single-precision difference `a - b`, rounded to nearest, ties to even.
pub uninterp spec fn sub_bits(a: u32, b: u32) -> u32;

/// The single-precision product `a * b`, rounded to nearest, ties to even.
pub uninterp spec fn mul_bits(a: u32, b: u32) -> u32;

/// The single-precision quotient `a / b`, rounded to nearest, ties to even.
pub uninterp spec fn div_bits(a: u32, b: u32) -> u32;

/// The single-precision number `x` encodes with its sign flipped.
pub uninterp spec fn neg_bits(x: u32) -> u32;

/// e raised to the single-precision number `x` encodes, as computed by
/// libm's `expf`.
pub uninterp spec fn exp_bits(x: u32) -> u32;

/// The integer `n` as a single-precision value, rounded to nearest, ties to
/// even.
pub uninterp spec fn from_uint_bits(n: u64) -> u32;

/// Relies on rustc_apfloat's IEEE-754 single-precision addition (its `Add`
/// impl rounds to nearest, ties to even).
#[verifier::external_body]
pub(crate) fn scalar_add(a: Scalar, b: Scalar) -> (r: Scalar)
    ensures
        r == add_bits(a, b),
{
    let x = rustc_apfloat::ieee::Single::from_bits(a as u128);
    let y = rustc_apfloat::ieee::Single::from_bits(b as u128);
    (x + y).value.to_bits() as u32
}

/// Relies on rustc_apfloat's IEEE-754 single-precision subtraction (its `Sub`
/// impl rounds to nearest, ties to even).
#[verifier::external_body]
pub(crate) fn scalar_sub(a: Scalar, b: Scalar) -> (r: Scalar)
    ensures
        r == sub_bits(a, b),
{
    let x = rustc_apfloat::ieee::Single::from_bits(a as u128);
    let y = rustc_apfloat::ieee::Single::from_bits(b as u128);
    (x - y).value.to_bits() as u32
}

/// Relies on rustc_apfloat's IEEE-754 single-precision multiplication (its
/// `Mul` impl rounds to nearest, ties to even).
#[verifier::external_body]
pub(crate) fn scalar_mul(a: Scalar, b: Scalar) -> (r: Scalar)
    ensures
        r == mul_bits(a, b),
{
    let x = rustc_apfloat::ieee::Single::from_bits(a as u128);
    let y = rustc_apfloat::ieee::Single::from_bits(b as u128);
    (x * y).value.to_bits() as u32
}

/// Relies on rustc_apfloat's IEEE-754 single-precision division (its `Div`
/// impl rounds to nearest, ties to even).
#[verifier::external_body]
pub(crate) fn scalar_div(a: Scalar, b: Scalar) -> (r: Scalar)
    ensures
        r == div_bits(a, b),
{
    let x = rustc_apfloat::ieee::Single::from_bits(a as u128);
    let y = rustc_apfloat::ieee::Single::from_bits(b as u128);
    (x / y).value.to_bits() as u32
}

/// Relies on rustc_apfloat's IEEE-754 single-precision negation (its `Neg`
/// impl, an exact sign flip).
#[verifier::external_body]
pub(crate) fn scalar_neg(x: Scalar) -> (r: Scalar)
    ensures
        r == neg_bits(x),
{
    (-rustc_apfloat::ieee::Single::from_bits(x as u128)).to_bits() as u32
}

/// Relies on libm's `expf`: the single-precision exponential of the number
/// the bit pattern encodes, a function of that number alone.
#[verifier::external_body]
pub(crate) fn scalar_exp(x: Scalar) -> (r: Scalar)
    ensures
        r == exp_bits(x),
{
    ieee754::Ieee754::bits(libm::expf(ieee754::Ieee754::from_bits(x)))
}

/// Relies on rustc_apfloat's integer-to-single conversion `from_u128_r`,
/// rounding to nearest, ties to even.
#[verifier::external_body]
pub(crate) fn scalar_of_uint(n: u64) -> (r: Scalar)
    ensures
        r == from_uint_bits(n),
{
    let v = rustc_apfloat::ieee::Single::from_u128_r(n as u128, rustc_apfloat::Round::NearestTiesToEven);
    v.value.to_bits() as u32
}

/// The bit pattern of the logistic function `1 / (1 + e^-x)` applied to the
/// number `x` encodes, with each step rounded as single-precision arithmetic
/// rounds it.
pub open spec fn sigmoid_bits(x: u32) -> u32 {
    div_bits(F_ONE, add_bits(F_ONE, exp_bits(neg_bits(x))))
}

/// The logistic sigmoid, the network's only activation function.
pub fn sigmoid(num: Scalar) -> (r: Scalar)
    ensures
        r == sigmoid_bits(num),
{
    scalar_div(F_ONE, scalar_add(F_ONE, scalar_exp(scalar_neg(num))))
}

} // verus!
