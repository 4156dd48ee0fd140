//! The numeric kernel: IEEE-754 double-precision numbers carried as raw
//! 64-bit patterns, with arithmetic, comparison, parsing and rendering
//! performed by `rustc_apfloat`'s software implementation of binary64.
//!
//! Each operation is a pure function of the bit patterns involved, so each
//! result is given a name that the contracts of the evaluator speak of.
use vstd::prelude::*;
use rustc_apfloat::Float;

verus! {

/// The bit pattern of the IEEE-754 binary64 sum of the numbers with bit
/// patterns `a` and `b`, rounding to nearest, ties to even.
pub uninterp spec fn add_bits(a: u64, b: u64) -> u64;

/// The bit pattern of the IEEE-754 binary64 difference `a - b`, rounding to
/// nearest, ties to even.
pub uninterp spec fn sub_bits(a: u64, b: u64) -> u64;

/// IEEE-754 equality of the numbers with bit patterns `a` and `b`
/// (`NaN` equals nothing; positive and negative zero are equal).
pub uninterp spec fn eq_bits(a: u64, b: u64) -> bool;

/// IEEE-754 `a < b` (false whenever either side is `NaN`).
pub uninterp spec fn lt_bits(a: u64, b: u64) -> bool;

/// IEEE-754 `a <= b` (false whenever either side is `NaN`).
pub uninterp spec fn le_bits(a: u64, b: u64) -> bool;

/// IEEE-754 `a > b` (false whenever either side is `NaN`).
pub uninterp spec fn gt_bits(a: u64, b: u64) -> bool;

/// IEEE-754 `a >= b` (false whenever either side is `NaN`).
pub uninterp spec fn ge_bits(a: u64, b: u64) -> bool;

/// The bit pattern of the binary64 number that the token spells, or `None`
/// where the token is not a floating-point literal.
pub uninterp spec fn float_of_token(s: Seq<char>) -> Option<u64>;

/// The decimal rendering of the number with bit pattern `bits`.
pub uninterp spec fn render_of(bits: u64) -> Seq<char>;

/// Relies on `rustc_apfloat::ieee::Double`'s `Add` (round to nearest, ties
/// to even): IEEE-754 binary64 addition as a pure function of the two bit
/// patterns.
#[verifier::external_body]
pub(crate) fn num_add(a: u64, b: u64) -> (r: u64)
    ensures
        r == add_bits(a, b),
{
    let x = rustc_apfloat::ieee::Double::from_bits(a as u128);
    let y = rustc_apfloat::ieee::Double::from_bits(b as u128);
    (x + y).value.to_bits() as u64
}

/// Relies on `rustc_apfloat::ieee::Double`'s `Sub` (round to nearest, ties
/// to even): IEEE-754 binary64 subtraction as a pure function of the two
/// bit patterns.
#[verifier::external_body]
pub(crate) fn num_sub(a: u64, b: u64) -> (r: u64)
    ensures
        r == sub_bits(a, b),
{
    let x = rustc_apfloat::ieee::Double::from_bits(a as u128);
    let y = rustc_apfloat::ieee::Double::from_bits(b as u128);
    (x - y).value.to_bits() as u64
}

/// Relies on `PartialEq` for `rustc_apfloat::ieee::Double`: IEEE-754
/// equality, under which `NaN` equals nothing and the two zeros are equal.
#[verifier::external_body]
pub(crate) fn num_eq(a: u64, b: u64) -> (r: bool)
    ensures
        r == eq_bits(a, b),
{
    let x = rustc_apfloat::ieee::Double::from_bits(a as u128);
    let y = rustc_apfloat::ieee::Double::from_bits(b as u128);
    x == y
}

/// Relies on `PartialOrd::lt` for `rustc_apfloat::ieee::Double`: IEEE-754
/// ordering, under which any comparison against `NaN` is false.
#[verifier::external_body]
pub(crate) fn num_lt(a: u64, b: u64) -> (r: bool)
    ensures
        r == lt_bits(a, b),
{
    let x = rustc_apfloat::ieee::Double::from_bits(a as u128);
    let y = rustc_apfloat::ieee::Double::from_bits(b as u128);
    x < y
}

/// Relies on `PartialOrd::le` for `rustc_apfloat::ieee::Double`: IEEE-754
/// ordering, under which any comparison against `NaN` is false.
#[verifier::external_body]
pub(crate) fn num_le(a: u64, b: u64) -> (r: bool)
    ensures
        r == le_bits(a, b),
{
    let x = rustc_apfloat::ieee::Double::from_bits(a as u128);
    let y = rustc_apfloat::ieee::Double::from_bits(b as u128);
    x <= y
}

/// Relies on `PartialOrd::gt` for `rustc_apfloat::ieee::Double`: IEEE-754
/// ordering, under which any comparison against `NaN` is false.
#[verifier::external_body]
pub(crate) fn num_gt(a: u64, b: u64) -> (r: bool)
    ensures
        r == gt_bits(a, b),
{
    let x = rustc_apfloat::ieee::Double::from_bits(a as u128);
    let y = rustc_apfloat::ieee::Double::from_bits(b as u128);
    x > y
}

/// Relies on `PartialOrd::ge` for `rustc_apfloat::ieee::Double`: IEEE-754
/// ordering, under which any comparison against `NaN` is false.
#[verifier::external_body]
pub(crate) fn num_ge(a: u64, b: u64) -> (r: bool)
    ensures
        r == ge_bits(a, b),
{
    let x = rustc_apfloat::ieee::Double::from_bits(a as u128);
    let y = rustc_apfloat::ieee::Double::from_bits(b as u128);
    x >= y
}

/// Relies on `FromStr` for `rustc_apfloat::ieee::Double`: parses a
/// floating-point literal (decimal, hexadecimal, an infinity or a `NaN`
/// spelling), returning an error value on any other string; the result
/// depends on the characters alone.
#[verifier::external_body]
pub(crate) fn num_from_token(s: &str) -> (r: Option<u64>)
    ensures
        r == float_of_token(s@),
{
    match s.parse::<rustc_apfloat::ieee::Double>() {
        Ok(d) => Some(d.to_bits() as u64),
        Err(_) => None,
    }
}

/// Relies on `Display` for `rustc_apfloat::ieee::Double`: a decimal
/// rendering with enough digits to round-trip, a pure function of the bit
/// pattern.
#[verifier::external_body]
pub(crate) fn num_render(bits: u64) -> (r: String)
    ensures
        r@ == render_of(bits),
{
    format!("{}", rustc_apfloat::ieee::Double::from_bits(bits as u128))
}

} // verus!
