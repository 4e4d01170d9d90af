//! Floating-point arithmetic on IEEE-754 double-precision bit patterns.
//!
//! The rest of the crate stores a floating-point number as its 64-bit
//! pattern and never performs float arithmetic itself: every operation
//! goes through one of the trusted wrappers below, which delegate to
//! software implementations of IEEE-754 arithmetic (`rustc_apfloat` for
//! the rounded operations and decimal conversion, `softfp` for the
//! square root). Each operation's result is a function of the operand
//! bits alone, so it is named by an uninterpreted spec function.

use rustc_apfloat::ieee::Double;
use rustc_apfloat::Float;
use vstd::prelude::*;

verus! {

/// The bit pattern a decimal literal denotes, or `None` where the
/// decimal parser rejects the text.
pub uninterp spec fn float_of_dec(s: Seq<char>) -> Option<u64>;

/// The bit pattern of the double nearest to a 64-bit signed integer.
pub uninterp spec fn float_of_int(i: i64) -> u64;

/// The bit pattern of the rounded (ties-to-even) sum of two doubles.
pub uninterp spec fn add_bits(a: u64, b: u64) -> u64;

/// The bit pattern of the rounded difference of two doubles.
pub uninterp spec fn sub_bits(a: u64, b: u64) -> u64;

/// The bit pattern of the rounded product of two doubles.
pub uninterp spec fn mul_bits(a: u64, b: u64) -> u64;

/// The bit pattern of the rounded quotient of two doubles.
pub uninterp spec fn div_bits(a: u64, b: u64) -> u64;

/// The bit pattern of the truncating remainder (C `fmod`) of two doubles.
pub uninterp spec fn rem_bits(a: u64, b: u64) -> u64;

/// The bit pattern of the rounded principal square root of a double.
pub uninterp spec fn sqrt_bits(a: u64) -> u64;

/// Relies on rustc_apfloat's `Double` `FromStr` impl: correctly rounded
/// (ties-to-even) decimal-to-double conversion, a function of the text alone.
#[verifier::external_body]
pub(crate) fn parse_float(s: &str) -> (r: Option<u64>)
    ensures
        r == float_of_dec(s@),
{
    match s.parse::<Double>() {
        Ok(d) => Some(d.to_bits() as u64),
        Err(_) => None,
    }
}

/// Relies on rustc_apfloat's `Double::from_i128`: correctly rounded
/// integer-to-double conversion.
#[verifier::external_body]
pub(crate) fn int_to_float(i: i64) -> (r: u64)
    ensures
        r == float_of_int(i),
{
    Double::from_i128(i as i128).value.to_bits() as u64
}

/// Relies on rustc_apfloat's `Add` impl for `Double` (ties-to-even).
#[verifier::external_body]
pub(crate) fn float_add(a: u64, b: u64) -> (r: u64)
    ensures
        r == add_bits(a, b),
{
    (Double::from_bits(a as u128) + Double::from_bits(b as u128)).value.to_bits() as u64
}

/// Relies on rustc_apfloat's `Sub` impl for `Double` (ties-to-even).
#[verifier::external_body]
pub(crate) fn float_sub(a: u64, b: u64) -> (r: u64)
    ensures
        r == sub_bits(a, b),
{
    (Double::from_bits(a as u128) - Double::from_bits(b as u128)).value.to_bits() as u64
}

/// Relies on rustc_apfloat's `Mul` impl for `Double` (ties-to-even).
#[verifier::external_body]
pub(crate) fn float_mul(a: u64, b: u64) -> (r: u64)
    ensures
        r == mul_bits(a, b),
{
    (Double::from_bits(a as u128) * Double::from_bits(b as u128)).value.to_bits() as u64
}

/// Relies on rustc_apfloat's `Div` impl for `Double` (ties-to-even).
#[verifier::external_body]
pub(crate) fn float_div(a: u64, b: u64) -> (r: u64)
    ensures
        r == div_bits(a, b),
{
    (Double::from_bits(a as u128) / Double::from_bits(b as u128)).value.to_bits() as u64
}

/// Relies on rustc_apfloat's `Rem` impl for `Double`, which is C `fmod`.
#[verifier::external_body]
pub(crate) fn float_rem(a: u64, b: u64) -> (r: u64)
    ensures
        r == rem_bits(a, b),
{
    (Double::from_bits(a as u128) % Double::from_bits(b as u128)).value.to_bits() as u64
}

/// softfp's rounding-direction selector, declared so it can pass
/// through the registration below; nothing inside it is relied on.
#[verifier::external_type_specification]
#[verifier::external_body]
pub struct ExRoundingMode(softfp::RoundingMode);

/// softfp's exception-flag set, declared for the same reason.
#[verifier::external_type_specification]
#[verifier::external_body]
pub struct ExExceptionFlags(softfp::ExceptionFlags);

/// The IEEE-754 default rounding direction, `softfp::RoundingMode::TiesToEven`;
/// registered with softfp before each square root.
#[verifier::external_body]
fn ties_to_even() -> softfp::RoundingMode {
    softfp::RoundingMode::TiesToEven
}

/// Discards softfp's exception flags, which this crate does not consume.
#[verifier::external_body]
fn ignore_flags(_flags: softfp::ExceptionFlags) {
}

/// Relies on softfp's `Fp::square_root`: correctly rounded square root.
/// The two registration calls configure softfp with the IEEE-754 default
/// rounding (ties to even) and discard exception flags.
#[verifier::external_body]
pub(crate) fn float_sqrt(a: u64) -> (r: u64)
    ensures
        r == sqrt_bits(a),
{
    softfp::register_get_rounding_mode(ties_to_even);
    softfp::register_set_exception_flags(ignore_flags);
    softfp::F64::new(a).square_root().0
}

} // verus!
