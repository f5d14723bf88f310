//! Amplitude codes: IEEE-754 binary32 values carried by their bit patterns.
//!
//! The library stores every amplitude as the `u32` bit pattern of a binary32
//! number. The arithmetic on such codes is done in software by
//! `rustc_apfloat`, whose operations are pure functions of the operand bit
//! patterns; each operation used here sits behind a trusted wrapper whose
//! result is named by an uninterpreted spec function, so that every contract
//! built on top of them is exact relative to those names.

use vstd::prelude::*;

use rustc_apfloat::Float;
use rustc_apfloat::ieee::Single;

verus! {

/// Bit pattern of the binary32 value 0.0.
pub const CODE_ZERO: u32 = 0x0000_0000;
/// Bit pattern of the binary32 value 1.0.
pub const CODE_ONE: u32 = 0x3F80_0000;
/// Bit pattern of the binary32 value nearest to 2*pi.
pub const CODE_TWO_PI: u32 = 0x40C9_0FDB;
/// Bit pattern of the binary32 value nearest to 1/(2*pi).
pub const CODE_INV_TWO_PI: u32 = 0x3E22_F983;

pub uninterp spec fn add_codes(a: u32, b: u32) -> u32;

/// Relies on `rustc_apfloat::ieee::Single` addition (`add_r`, rounding to
/// nearest even): the binary32 sum is a function of the operand bit patterns
/// alone.
#[verifier::external_body]
pub(crate) fn add_code(a: u32, b: u32) -> (r: u32)
    ensures
        r == add_codes(a, b),
{
    (Single::from_bits(a as u128) + Single::from_bits(b as u128)).value.to_bits() as u32
}

pub uninterp spec fn sub_codes(a: u32, b: u32) -> u32;

/// Relies on `rustc_apfloat::ieee::Single` subtraction (`sub_r`, rounding to
/// nearest even): a function of the operand bit patterns alone.
#[verifier::external_body]
pub(crate) fn sub_code(a: u32, b: u32) -> (r: u32)
    ensures
        r == sub_codes(a, b),
{
    (Single::from_bits(a as u128) - Single::from_bits(b as u128)).value.to_bits() as u32
}

pub uninterp spec fn mul_codes(a: u32, b: u32) -> u32;

/// Relies on `rustc_apfloat::ieee::Single` multiplication (`mul_r`, rounding
/// to nearest even): a function of the operand bit patterns alone.
#[verifier::external_body]
pub(crate) fn mul_code(a: u32, b: u32) -> (r: u32)
    ensures
        r == mul_codes(a, b),
{
    (Single::from_bits(a as u128) * Single::from_bits(b as u128)).value.to_bits() as u32
}

pub uninterp spec fn div_codes(a: u32, b: u32) -> u32;

/// Relies on `rustc_apfloat::ieee::Single` division (`div_r`, rounding to
/// nearest even): a function of the operand bit patterns alone.
#[verifier::external_body]
pub(crate) fn div_code(a: u32, b: u32) -> (r: u32)
    ensures
        r == div_codes(a, b),
{
    (Single::from_bits(a as u128) / Single::from_bits(b as u128)).value.to_bits() as u32
}

pub uninterp spec fn codes_lt(a: u32, b: u32) -> bool;

/// Relies on `PartialOrd for rustc_apfloat::ieee::Single`: the IEEE-754
/// ordered comparison, false whenever either operand is a NaN.
#[verifier::external_body]
pub(crate) fn code_lt(a: u32, b: u32) -> (r: bool)
    ensures
        r == codes_lt(a, b),
{
    Single::from_bits(a as u128) < Single::from_bits(b as u128)
}

pub uninterp spec fn code_of_usize(n: usize) -> u32;

/// Relies on `rustc_apfloat::Float::from_u128`: unsigned integer to binary32,
/// rounding to nearest even.
#[verifier::external_body]
pub(crate) fn usize_to_code(n: usize) -> (r: u32)
    ensures
        r == code_of_usize(n),
{
    Single::from_u128(n as u128).value.to_bits() as u32
}

pub uninterp spec fn code_of_i64(n: i64) -> u32;

/// Relies on `rustc_apfloat::Float::from_i128`: signed integer to binary32,
/// rounding to nearest even.
#[verifier::external_body]
pub(crate) fn i64_to_code(n: i64) -> (r: u32)
    ensures
        r == code_of_i64(n),
{
    Single::from_i128(n as i128).value.to_bits() as u32
}

pub uninterp spec fn usize_of_code(c: u32) -> usize;

/// Relies on `rustc_apfloat::Float::to_u128` (64-bit width, rounding toward
/// zero): saturates out-of-range values and turns a NaN into zero.
#[verifier::external_body]
pub(crate) fn code_to_usize(c: u32) -> (r: usize)
    ensures
        r == usize_of_code(c),
{
    Single::from_bits(c as u128).to_u128(64).value as usize
}

pub uninterp spec fn round_of_code(c: u32) -> i64;

/// Relies on `rustc_apfloat::Float::to_i128_r` (64-bit width, rounding to
/// nearest even): saturates out-of-range values and turns a NaN into zero.
#[verifier::external_body]
pub(crate) fn code_round_i64(c: u32) -> (r: i64)
    ensures
        r == round_of_code(c),
{
    let mut exact = false;
    Single::from_bits(c as u128).to_i128_r(64, rustc_apfloat::Round::NearestTiesToEven, &mut exact).value
        as i64
}

/// The sample index of a time given in seconds (as an amplitude code): the
/// binary32 product of the time and the sample rate, rounded to the nearest
/// integer and clamped to the index range; a negative or NaN time gives 0.
pub open spec fn sec_index(sec: u32, rate: u32) -> int {
    let k = round_of_code(mul_codes(sec, code_of_usize(rate as usize)));
    if k < 0 {
        0
    } else if k as int > usize::MAX as int {
        usize::MAX as int
    } else {
        k as int
    }
}

/// Converts a time in seconds to a sample index.
pub fn sec_to_index(sec: u32, rate: u32) -> (r: usize)
    ensures
        r as int == sec_index(sec, rate),
{
    let k = code_round_i64(mul_code(sec, usize_to_code(rate as usize)));
    if k < 0 {
        0
    } else if (k as u64) > (usize::MAX as u64) {
        usize::MAX
    } else {
        k as usize
    }
}

/// Coefficient for the first power in the sine polynomial (binary32 bits).
pub const CODE_SIN_C1: u32 = 0x3F7F_FFF9;
/// Coefficient for the third power in the sine polynomial (binary32 bits).
pub const CODE_SIN_C3: u32 = 0xBE2A_AA5E;
/// Coefficient for the fifth power in the sine polynomial (binary32 bits).
pub const CODE_SIN_C5: u32 = 0x3C08_84A2;
/// Coefficient for the seventh power in the sine polynomial (binary32 bits).
pub const CODE_SIN_C7: u32 = 0xB94F_B565;
/// Coefficient for the ninth power in the sine polynomial (binary32 bits).
pub const CODE_SIN_C9: u32 = 0x3635_2CC0;
/// Coefficient for the eleventh power in the sine polynomial (binary32 bits).
pub const CODE_SIN_C11: u32 = 0xB2AE_E916;

/// The odd minimax polynomial for sine on [-pi, pi], evaluated by Horner's
/// rule over the amplitude-code operations.
pub open spec fn sin_poly_of(r: u32) -> u32 {
    let r2 = mul_codes(r, r);
    let acc = add_codes(mul_codes(CODE_SIN_C11, r2), CODE_SIN_C9);
    let acc = add_codes(mul_codes(acc, r2), CODE_SIN_C7);
    let acc = add_codes(mul_codes(acc, r2), CODE_SIN_C5);
    let acc = add_codes(mul_codes(acc, r2), CODE_SIN_C3);
    let acc = add_codes(mul_codes(acc, r2), CODE_SIN_C1);
    mul_codes(r, acc)
}

/// Sine of a binary32 value given by its code: the argument is reduced by the
/// nearest multiple of 2*pi, then the polynomial [`sin_poly_of`] is applied.
pub open spec fn sin_code_of(x: u32) -> u32 {
    let k = round_of_code(mul_codes(x, CODE_INV_TWO_PI));
    let r = sub_codes(x, mul_codes(code_of_i64(k), CODE_TWO_PI));
    sin_poly_of(r)
}

/// Sine of an amplitude code.
///
/// As with a libm `sin`, the approximation error is unspecified; the result
/// is still a pure function of the argument, pinned by [`sin_code_of`].
pub fn sin_code(x: u32) -> (r: u32)
    ensures
        r == sin_code_of(x),
{
    let k = code_round_i64(mul_code(x, CODE_INV_TWO_PI));
    let red = sub_code(x, mul_code(i64_to_code(k), CODE_TWO_PI));
    let r2 = mul_code(red, red);
    let acc = add_code(mul_code(CODE_SIN_C11, r2), CODE_SIN_C9);
    let acc = add_code(mul_code(acc, r2), CODE_SIN_C7);
    let acc = add_code(mul_code(acc, r2), CODE_SIN_C5);
    let acc = add_code(mul_code(acc, r2), CODE_SIN_C3);
    let acc = add_code(mul_code(acc, r2), CODE_SIN_C1);
    mul_code(red, acc)
}

} // verus!
