//! Arithmetic on 32-bit float bit patterns.
//!
//! Every numeric value in this crate is the bit pattern of an IEEE 754
//! binary32 float, carried as a `u32`.  The rounding arithmetic itself is
//! done by `rustc_apfloat`, a bit-exact software implementation of IEEE 754,
//! through small trusted wrappers; each wrapper's result is named by an
//! uninterpreted spec function, since the operation is a pure function of
//! the operand bit patterns.  Sign, zero and NaN tests are plain bit tests
//! and are implemented here directly.

use vstd::prelude::*;
use rustc_apfloat::Float;

verus! {

/// Bit pattern of the binary32 float `0.0`.
pub const ZERO_BITS: u32 = 0x0000_0000;

/// Bit pattern of the binary32 float `1.0`.
pub const ONE_BITS: u32 = 0x3F80_0000;

/// Bit pattern of the binary32 float `-1.0`.
pub const NEG_ONE_BITS: u32 = 0xBF80_0000;

/// Bit pattern of the binary32 float `2.0`.
pub const TWO_BITS: u32 = 0x4000_0000;

/// Bit pattern of the binary32 float `10.0`.
pub const TEN_BITS: u32 = 0x4120_0000;

/// Bit pattern of the binary32 float nearest to Euler's number.
pub const E_BITS: u32 = 0x402D_F854;

/// Bit pattern of the default derivative step `0.001`.
pub const DX_BITS: u32 = 0x3A83_126F;

/// A binary32 value compares equal to `0.0` exactly when every bit except
/// the sign bit is clear, which covers `+0.0` and `-0.0` and nothing else.
pub open spec fn spec_is_zero_f32(bits: u32) -> bool {
    bits & 0x7FFF_FFFF == 0
}

/// A binary32 value is a NaN exactly when its exponent bits are all set and
/// its significand is not zero.
pub open spec fn spec_is_nan_f32(bits: u32) -> bool {
    bits & 0x7F80_0000 == 0x7F80_0000 && bits & 0x007F_FFFF != 0
}

/// A binary32 value compares `<= 0.0` exactly when it is a zero of either
/// sign, or its sign bit is set and it is not a NaN.
pub open spec fn spec_le_zero_f32(bits: u32) -> bool {
    spec_is_zero_f32(bits) || (bits & 0x8000_0000 != 0 && !spec_is_nan_f32(bits))
}

/// The absolute value of a binary32 float clears the sign bit and changes
/// nothing else.
pub open spec fn spec_abs_f32(bits: u32) -> u32 {
    bits & 0x7FFF_FFFF
}

/// Whether the value compares equal to `0.0`.
pub fn is_zero_f32(bits: u32) -> (r: bool)
    ensures
        r == spec_is_zero_f32(bits),
{
    bits & 0x7FFF_FFFF == 0
}

/// Whether the value is a NaN.
pub fn is_nan_f32(bits: u32) -> (r: bool)
    ensures
        r == spec_is_nan_f32(bits),
{
    bits & 0x7F80_0000 == 0x7F80_0000 && bits & 0x007F_FFFF != 0
}

/// Whether the value compares `<= 0.0`.
pub fn le_zero_f32(bits: u32) -> (r: bool)
    ensures
        r == spec_le_zero_f32(bits),
{
    is_zero_f32(bits) || (bits & 0x8000_0000 != 0 && !is_nan_f32(bits))
}

/// The absolute value, by clearing the sign bit.
pub fn abs_f32(bits: u32) -> (r: u32)
    ensures
        r == spec_abs_f32(bits),
{
    bits & 0x7FFF_FFFF
}

/// The bit-level result of binary32 addition, rounded to nearest, ties to even.
pub uninterp spec fn add_bits(a: u32, b: u32) -> u32;

/// The bit-level result of binary32 subtraction, rounded to nearest, ties to even.
pub uninterp spec fn sub_bits(a: u32, b: u32) -> u32;

/// The bit-level result of binary32 multiplication, rounded to nearest, ties to even.
pub uninterp spec fn mul_bits(a: u32, b: u32) -> u32;

/// The bit-level result of binary32 division, rounded to nearest, ties to even.
pub uninterp spec fn div_bits(a: u32, b: u32) -> u32;

/// Relies on `rustc_apfloat::ieee::Single::add_r` with round to nearest, ties
/// to even: the IEEE 754 binary32 sum, a function of the operand bit patterns.
#[verifier::external_body]
pub(crate) fn add_f32(a: u32, b: u32) -> (r: u32)
    ensures
        r == add_bits(a, b),
{
    (rustc_apfloat::ieee::Single::from_bits(a as u128)
        + rustc_apfloat::ieee::Single::from_bits(b as u128)).value.to_bits() as u32
}

/// Relies on `rustc_apfloat::ieee::Single::sub_r` with round to nearest, ties
/// to even: the IEEE 754 binary32 difference, a function of the operand bit patterns.
#[verifier::external_body]
pub(crate) fn sub_f32(a: u32, b: u32) -> (r: u32)
    ensures
        r == sub_bits(a, b),
{
    (rustc_apfloat::ieee::Single::from_bits(a as u128)
        - rustc_apfloat::ieee::Single::from_bits(b as u128)).value.to_bits() as u32
}

/// Relies on `rustc_apfloat::ieee::Single::mul_r` with round to nearest, ties
/// to even: the IEEE 754 binary32 product, a function of the operand bit patterns.
#[verifier::external_body]
pub(crate) fn mul_f32(a: u32, b: u32) -> (r: u32)
    ensures
        r == mul_bits(a, b),
{
    (rustc_apfloat::ieee::Single::from_bits(a as u128)
        * rustc_apfloat::ieee::Single::from_bits(b as u128)).value.to_bits() as u32
}

/// Relies on `rustc_apfloat::ieee::Single::div_r` with round to nearest, ties
/// to even: the IEEE 754 binary32 quotient, a function of the operand bit patterns.
#[verifier::external_body]
pub(crate) fn div_f32(a: u32, b: u32) -> (r: u32)
    ensures
        r == div_bits(a, b),
{
    (rustc_apfloat::ieee::Single::from_bits(a as u128)
        / rustc_apfloat::ieee::Single::from_bits(b as u128)).value.to_bits() as u32
}

/// Whether every character of `s` is a decimal digit.
pub open spec fn all_digits(s: Seq<char>) -> bool {
    forall|i: int| 0 <= i < s.len() ==> spec_is_digit(s[i])
}

/// Whether `c` is a decimal digit.
pub open spec fn spec_is_digit(c: char) -> bool {
    '0' <= c && c <= '9'
}

/// The shape of a numeric literal: a nonempty run of digits, optionally
/// followed by a point and another nonempty run of digits.
pub open spec fn is_decimal_literal(s: Seq<char>) -> bool {
    ||| (s.len() > 0 && all_digits(s))
    ||| (exists|k: int|
        1 <= k < s.len() - 1 && s[k] == '.' && all_digits(s.subrange(0, k)) && all_digits(
            s.subrange(k + 1, s.len() as int),
        ))
}

/// The binary32 value of a decimal literal, rounded to nearest, ties to even.
pub uninterp spec fn bits_of_decimal(s: Seq<char>) -> u32;

/// Relies on `rustc_apfloat::ieee::Single::from_str_r` with round to nearest,
/// ties to even: the correctly rounded binary32 value of a decimal literal,
/// a function of the text alone.  A literal of digits and at most one inner
/// point is always accepted by `from_str_r`.
#[verifier::external_body]
pub(crate) fn decimal_to_bits(s: &str) -> (r: u32)
    requires
        is_decimal_literal(s@),
    ensures
        r == bits_of_decimal(s@),
{
    match s.parse::<rustc_apfloat::ieee::Single>() {
        Ok(v) => v.to_bits() as u32,
        Err(_) => 0,
    }
}

/// The decimal rendering of a binary32 value.
pub uninterp spec fn decimal_of_bits(b: u32) -> Seq<char>;

/// Relies on the `Display` impl of `rustc_apfloat::ieee::Single`: a decimal
/// rendering determined by the bit pattern alone.
#[verifier::external_body]
pub(crate) fn bits_to_decimal(b: u32) -> (r: String)
    ensures
        r@ == decimal_of_bits(b),
{
    format!("{}", rustc_apfloat::ieee::Single::from_bits(b as u128))
}

/// A transcendental operation that this library does not compute itself.
///
/// Parsing with constant folding and evaluation are resumable: when one of
/// these operations is needed and no answer has been supplied yet, the
/// library hands the call back to its caller, who computes it with whatever
/// float implementation it trusts and retries with the answer appended to
/// the answer list.  Both operands are binary32 bit patterns; for
/// [`MathCall::Log`] the first operand is the base.
#[derive(Debug, Clone, Copy, PartialEq, Eq, Structural)]
pub enum MathCall {
    Pow(u32, u32),
    Log(u32, u32),
    Sin(u32),
    Cos(u32),
    Tan(u32),
}

} // verus!
