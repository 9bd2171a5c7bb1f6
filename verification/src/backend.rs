//! Trusted bindings to the arithmetic backends.
//!
//! The four IEEE 754 rational operations, the correctly rounded decimal
//! conversions in both directions, and the power function cannot be written
//! here directly; they are delegated to outside arbitrary-precision
//! libraries that work on plain bit patterns and digit strings.  Each
//! binding gives the outside call a name; everything the interpreter then
//! does with the named result is verified.
use rustc_apfloat::Float;
use vstd::prelude::*;

verus! {

/// The bits of the IEEE 754 double sum of two doubles given as bits.
pub uninterp spec fn add_bits(a: u64, b: u64) -> u64;

/// The bits of the IEEE 754 double difference of two doubles given as bits.
pub uninterp spec fn sub_bits(a: u64, b: u64) -> u64;

/// The bits of the IEEE 754 double product of two doubles given as bits.
pub uninterp spec fn mul_bits(a: u64, b: u64) -> u64;

/// The bits of the IEEE 754 double quotient of two doubles given as bits.
pub uninterp spec fn div_bits(a: u64, b: u64) -> u64;

/// Relies on rustc_apfloat's IEEE 754 binary64 addition
/// (round to nearest, ties to even), acting on the raw bit patterns.
#[verifier::external_body]
pub fn num_add(a: u64, b: u64) -> (r: u64)
    ensures
        r == add_bits(a, b),
{
    let x = rustc_apfloat::ieee::Double::from_bits(a as u128);
    let y = rustc_apfloat::ieee::Double::from_bits(b as u128);
    (x + y).value.to_bits() as u64
}

/// Relies on rustc_apfloat's IEEE 754 binary64 subtraction
/// (round to nearest, ties to even), acting on the raw bit patterns.
#[verifier::external_body]
pub fn num_sub(a: u64, b: u64) -> (r: u64)
    ensures
        r == sub_bits(a, b),
{
    let x = rustc_apfloat::ieee::Double::from_bits(a as u128);
    let y = rustc_apfloat::ieee::Double::from_bits(b as u128);
    (x - y).value.to_bits() as u64
}

/// Relies on rustc_apfloat's IEEE 754 binary64 multiplication
/// (round to nearest, ties to even), acting on the raw bit patterns.
#[verifier::external_body]
pub fn num_mul(a: u64, b: u64) -> (r: u64)
    ensures
        r == mul_bits(a, b),
{
    let x = rustc_apfloat::ieee::Double::from_bits(a as u128);
    let y = rustc_apfloat::ieee::Double::from_bits(b as u128);
    (x * y).value.to_bits() as u64
}

/// Relies on rustc_apfloat's IEEE 754 binary64 division
/// (round to nearest, ties to even), acting on the raw bit patterns.
#[verifier::external_body]
pub fn num_div(a: u64, b: u64) -> (r: u64)
    ensures
        r == div_bits(a, b),
{
    let x = rustc_apfloat::ieee::Double::from_bits(a as u128);
    let y = rustc_apfloat::ieee::Double::from_bits(b as u128);
    (x / y).value.to_bits() as u64
}

/// The bits of the double nearest to the decimal number written in `s`
/// (unsigned digits with an optional `e` exponent), and 0 for any other text.
pub uninterp spec fn decimal_bits(s: Seq<char>) -> u64;

/// Relies on rustc_apfloat's correctly rounded decimal-to-binary64
/// conversion (`Double::from_str`, round to nearest, ties to even).
#[verifier::external_body]
pub fn parse_decimal(s: &str) -> (r: u64)
    ensures
        r == decimal_bits(s@),
{
    match s.parse::<rustc_apfloat::ieee::Double>() {
        Ok(d) => d.to_bits() as u64,
        Err(_) => 0,
    }
}

/// The decimal rendering of a finite double given as bits: the shortest
/// digit string that converts back to the same value, in rustc_apfloat's
/// positional or scientific form.
pub uninterp spec fn decimal_chars(bits: u64) -> Seq<char>;

/// Relies on rustc_apfloat's decimal formatting of IEEE 754 binary64
/// values (the `Display` implementation, shortest round-tripping digits).
#[verifier::external_body]
pub fn format_decimal(bits: u64) -> (r: String)
    ensures
        r@ == decimal_chars(bits),
{
    format!("{}", rustc_apfloat::ieee::Double::from_bits(bits as u128))
}

/// The power `b^n` computed by the arbitrary-precision backend at 64-bit
/// precision, for finite positive `b` and finite nonzero `n` given as
/// normalized mantissa words and binary exponents (the value of a pair
/// `(m, e)` is `m * 2^(e - 64)`; `nneg` is the sign of `n`).  The result is
/// a classification tag (0 a positive value, 1 overflow to infinity,
/// 2 underflow to zero, 3 undefined), a mantissa word, an exponent, and
/// whether the mantissa was rounded.
pub uninterp spec fn pow_parts(bm: u64, be: i32, nm: u64, ne: i32, nneg: bool) -> (u8, u64, i32, bool);

/// Relies on astro-float's `BigFloat::pow` (64-bit precision, round to
/// nearest, ties to even) and its raw mantissa/exponent representation.
#[verifier::external_body]
pub fn pow_core(bm: u64, be: i32, nm: u64, ne: i32, nneg: bool) -> (r: (u8, u64, i32, bool))
    ensures
        r == pow_parts(bm, be, nm, ne, nneg),
{
    let base = astro_float::BigFloat::from_words(&[bm], astro_float::Sign::Pos, be);
    let nsign = if nneg { astro_float::Sign::Neg } else { astro_float::Sign::Pos };
    let expo = astro_float::BigFloat::from_words(&[nm], nsign, ne);
    let mut cc = astro_float::Consts::new().expect("constants cache");
    let p = base.pow(&expo, 64, astro_float::RoundingMode::ToEven, &mut cc);
    if p.is_inf() {
        (1, 0, 0, false)
    } else if p.is_zero() {
        (2, 0, 0, false)
    } else {
        match p.as_raw_parts() {
            Some((words, _n, _sign, e, inexact)) => (0, words[words.len() - 1], e, inexact),
            None => (3, 0, 0, false),
        }
    }
}

/// Relies on std's `String::push`: appends one character at the end.
#[verifier::external_body]
pub fn push_char(s: &mut String, c: char)
    ensures
        final(s)@ == old(s)@.push(c),
{
    s.push(c);
}

} // verus!
