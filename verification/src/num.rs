//! Arithmetic and ordering on language numbers.
//!
//! A language number is a 64-bit IEEE-754 value carried as its bit pattern in
//! a `u64`. What a given operation returns on given bit patterns is named by
//! an uninterpreted spec function; the executable side of each name is a thin
//! wrapper over `rustc_apfloat`, whose `ieee::Double` type implements exactly
//! the IEEE-754 binary64 operations (round to nearest, ties to even) that the
//! hardware `f64` type would perform.

use rustc_apfloat::Float;
use vstd::prelude::*;

verus! {

/// The IEEE-754 binary64 sum of the numbers with bit patterns `a` and `b`.
pub uninterp spec fn num_add(a: u64, b: u64) -> u64;

/// The IEEE-754 binary64 difference of the numbers with bit patterns `a` and `b`.
pub uninterp spec fn num_sub(a: u64, b: u64) -> u64;

/// The IEEE-754 binary64 product of the numbers with bit patterns `a` and `b`.
pub uninterp spec fn num_mul(a: u64, b: u64) -> u64;

/// The IEEE-754 binary64 quotient of the numbers with bit patterns `a` and `b`.
pub uninterp spec fn num_div(a: u64, b: u64) -> u64;

/// Whether the number with bit pattern `a` is IEEE-754 less than the one with `b`.
pub uninterp spec fn num_lt(a: u64, b: u64) -> bool;

/// Whether the number with bit pattern `a` is IEEE-754 less than or equal to the one with `b`.
pub uninterp spec fn num_le(a: u64, b: u64) -> bool;

/// Whether the number with bit pattern `a` is IEEE-754 greater than the one with `b`.
pub uninterp spec fn num_gt(a: u64, b: u64) -> bool;

/// Whether the number with bit pattern `a` is IEEE-754 greater than or equal to the one with `b`.
pub uninterp spec fn num_ge(a: u64, b: u64) -> bool;

/// Whether the numbers with bit patterns `a` and `b` are IEEE-754 equal
/// (distinct from bit equality: NaN equals nothing, and the two zeros are equal).
pub uninterp spec fn num_eq(a: u64, b: u64) -> bool;

/// The bit pattern of the IEEE-754 binary64 value of a decimal digit string,
/// rounded to nearest, ties to even — the value `str::parse::<f64>` yields.
pub uninterp spec fn num_of_decimal(s: Seq<char>) -> u64;

/// Relies on `rustc_apfloat::ieee::Double`: `from_bits`, the `Add` impl
/// (IEEE-754 binary64 addition, round to nearest-even), and `to_bits`.
#[verifier::external_body]
pub(crate) fn exec_num_add(a: u64, b: u64) -> (r: u64)
    ensures
        r == num_add(a, b),
{
    let x = rustc_apfloat::ieee::Double::from_bits(a as u128);
    let y = rustc_apfloat::ieee::Double::from_bits(b as u128);
    (x + y).value.to_bits() as u64
}

/// Relies on `rustc_apfloat::ieee::Double`: `from_bits`, the `Sub` impl
/// (IEEE-754 binary64 subtraction, round to nearest-even), and `to_bits`.
#[verifier::external_body]
pub(crate) fn exec_num_sub(a: u64, b: u64) -> (r: u64)
    ensures
        r == num_sub(a, b),
{
    let x = rustc_apfloat::ieee::Double::from_bits(a as u128);
    let y = rustc_apfloat::ieee::Double::from_bits(b as u128);
    (x - y).value.to_bits() as u64
}

/// Relies on `rustc_apfloat::ieee::Double`: `from_bits`, the `Mul` impl
/// (IEEE-754 binary64 multiplication, round to nearest-even), and `to_bits`.
#[verifier::external_body]
pub(crate) fn exec_num_mul(a: u64, b: u64) -> (r: u64)
    ensures
        r == num_mul(a, b),
{
    let x = rustc_apfloat::ieee::Double::from_bits(a as u128);
    let y = rustc_apfloat::ieee::Double::from_bits(b as u128);
    (x * y).value.to_bits() as u64
}

/// Relies on `rustc_apfloat::ieee::Double`: `from_bits`, the `Div` impl
/// (IEEE-754 binary64 division, round to nearest-even), and `to_bits`.
#[verifier::external_body]
pub(crate) fn exec_num_div(a: u64, b: u64) -> (r: u64)
    ensures
        r == num_div(a, b),
{
    let x = rustc_apfloat::ieee::Double::from_bits(a as u128);
    let y = rustc_apfloat::ieee::Double::from_bits(b as u128);
    (x / y).value.to_bits() as u64
}

/// Relies on `rustc_apfloat::ieee::Double`: `from_bits` and the `PartialOrd`
/// impl, whose `lt` is the IEEE-754 less-than comparison.
#[verifier::external_body]
pub(crate) fn exec_num_lt(a: u64, b: u64) -> (r: bool)
    ensures
        r == num_lt(a, b),
{
    let x = rustc_apfloat::ieee::Double::from_bits(a as u128);
    let y = rustc_apfloat::ieee::Double::from_bits(b as u128);
    x < y
}

/// Relies on `rustc_apfloat::ieee::Double`: `from_bits` and the `PartialOrd`
/// impl, whose `le` is the IEEE-754 less-than-or-equal comparison.
#[verifier::external_body]
pub(crate) fn exec_num_le(a: u64, b: u64) -> (r: bool)
    ensures
        r == num_le(a, b),
{
    let x = rustc_apfloat::ieee::Double::from_bits(a as u128);
    let y = rustc_apfloat::ieee::Double::from_bits(b as u128);
    x <= y
}

/// Relies on `rustc_apfloat::ieee::Double`: `from_bits` and the `PartialOrd`
/// impl, whose `gt` is the IEEE-754 greater-than comparison.
#[verifier::external_body]
pub(crate) fn exec_num_gt(a: u64, b: u64) -> (r: bool)
    ensures
        r == num_gt(a, b),
{
    let x = rustc_apfloat::ieee::Double::from_bits(a as u128);
    let y = rustc_apfloat::ieee::Double::from_bits(b as u128);
    x > y
}

/// Relies on `rustc_apfloat::ieee::Double`: `from_bits` and the `PartialOrd`
/// impl, whose `ge` is the IEEE-754 greater-than-or-equal comparison.
#[verifier::external_body]
pub(crate) fn exec_num_ge(a: u64, b: u64) -> (r: bool)
    ensures
        r == num_ge(a, b),
{
    let x = rustc_apfloat::ieee::Double::from_bits(a as u128);
    let y = rustc_apfloat::ieee::Double::from_bits(b as u128);
    x >= y
}

/// Relies on `rustc_apfloat::ieee::Double`: `from_bits` and the `PartialEq`
/// impl, which compares by `partial_cmp` and so is the IEEE-754 equality
/// (NaN equals nothing, the two zeros are equal).
#[verifier::external_body]
pub(crate) fn exec_num_eq(a: u64, b: u64) -> (r: bool)
    ensures
        r == num_eq(a, b),
{
    let x = rustc_apfloat::ieee::Double::from_bits(a as u128);
    let y = rustc_apfloat::ieee::Double::from_bits(b as u128);
    x == y
}

/// Relies on `rustc_apfloat::ieee::Double::from_str` (through `str::parse`),
/// the correctly rounded decimal-to-binary64 conversion, round to nearest-even
/// — the same conversion `str::parse::<f64>` performs; it cannot fail on a
/// non-empty string of decimal digits, and `to_bits`.
#[verifier::external_body]
pub(crate) fn exec_num_of_decimal(digits: &Vec<char>) -> (r: u64)
    requires
        digits@.len() > 0,
        forall|i: int| 0 <= i < digits@.len() ==> '0' <= #[trigger] digits@[i] <= '9',
    ensures
        r == num_of_decimal(digits@),
{
    let text: String = digits.iter().collect();
    match text.parse::<rustc_apfloat::ieee::Double>() {
        Ok(d) => d.to_bits() as u64,
        Err(_) => 0,
    }
}

} // verus!
