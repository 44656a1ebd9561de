//! Complex numbers for the renderer.
//!
//! The renderer works on double-precision complex numbers, which Verus does
//! not reason about. They are carried through the library as opaque
//! `num::complex::Complex64` values; every arithmetic step is a small trusted
//! wrapper around one operation of the `num` crate (or of `f64` itself), and
//! the value each one returns is given a name by an uninterpreted spec
//! function. All IEEE-754 double arithmetic is a pure function of its
//! operands, so each name is well defined. The verified code never looks
//! inside a complex value: everything the contracts say is said through these
//! names.
//!
//! A real number `x` is carried as the complex value `x + 0i` (its
//! "real carrier"), so that scalars, too, can cross the trusted boundary
//! without the library ever holding a bare double.
use vstd::prelude::*;

verus! {

#[verifier::external_type_specification]
#[verifier::external_body]
#[verifier::reject_recursive_types(T)]
pub struct ExComplex<T>(num::complex::Complex<T>);

/// The complex value `n + 0i`, with `n` converted to a double.
pub uninterp spec fn complex_of_usize(n: usize) -> num::complex::Complex64;

/// The complex sum `a + b`.
pub uninterp spec fn complex_sum(a: num::complex::Complex64, b: num::complex::Complex64) -> num::complex::Complex64;

/// The complex difference `a - b`.
pub uninterp spec fn complex_difference(a: num::complex::Complex64, b: num::complex::Complex64) -> num::complex::Complex64;

/// The complex product `a * b`.
pub uninterp spec fn complex_product(a: num::complex::Complex64, b: num::complex::Complex64) -> num::complex::Complex64;

/// Both components of `a` multiplied by the real component of `s`.
pub uninterp spec fn complex_scaled(a: num::complex::Complex64, s: num::complex::Complex64) -> num::complex::Complex64;

/// Both components of `a` divided by the real component of `s`.
pub uninterp spec fn complex_unscaled(a: num::complex::Complex64, s: num::complex::Complex64) -> num::complex::Complex64;

/// The real carrier of the real component of `a`.
pub uninterp spec fn real_component(a: num::complex::Complex64) -> num::complex::Complex64;

/// The real carrier of the imaginary component of `a`.
pub uninterp spec fn imag_component(a: num::complex::Complex64) -> num::complex::Complex64;

/// The complex value whose real component is the real component of `re`
/// and whose imaginary component is the real component of `im`.
pub uninterp spec fn complex_from_components(re: num::complex::Complex64, im: num::complex::Complex64) -> num::complex::Complex64;

/// The real carrier of the squared norm of `a`.
pub uninterp spec fn norm_sqr_carrier(a: num::complex::Complex64) -> num::complex::Complex64;

/// Whether the real component of `a` is greater than the real component
/// of `b` under the `f64` order.
pub uninterp spec fn real_gt(a: num::complex::Complex64, b: num::complex::Complex64) -> bool;

/// The complex value parsed from the two strings: `re + im*i` where both
/// components are read as doubles, or nothing if either fails to parse.
pub uninterp spec fn complex_of_decimal_pair(re: Seq<char>, im: Seq<char>) -> Option<num::complex::Complex64>;

/// Relies on num's `FromPrimitive for Complex<f64>`: `from_usize(n)` is
/// `Some(Complex::new(n as f64, 0.0))` for every `n`, so the unwrap cannot
/// fail and the result is a function of `n` alone.
#[verifier::external_body]
pub(crate) fn c_of_usize(n: usize) -> (r: num::complex::Complex64)
    ensures
        r == complex_of_usize(n),
{
    num::traits::FromPrimitive::from_usize(n).unwrap()
}

/// Relies on num's `Add for Complex<f64>`: componentwise IEEE-754 addition,
/// a function of the two operands alone.
#[verifier::external_body]
pub(crate) fn c_sum(a: num::complex::Complex64, b: num::complex::Complex64) -> (r: num::complex::Complex64)
    ensures
        r == complex_sum(a, b),
{
    a + b
}

/// Relies on num's `Sub for Complex<f64>`: componentwise IEEE-754
/// subtraction, a function of the two operands alone.
#[verifier::external_body]
pub(crate) fn c_difference(a: num::complex::Complex64, b: num::complex::Complex64) -> (r: num::complex::Complex64)
    ensures
        r == complex_difference(a, b),
{
    a - b
}

/// Relies on num's `Mul for Complex<f64>`: the complex product in IEEE-754
/// double arithmetic, a function of the two operands alone.
#[verifier::external_body]
pub(crate) fn c_product(a: num::complex::Complex64, b: num::complex::Complex64) -> (r: num::complex::Complex64)
    ensures
        r == complex_product(a, b),
{
    a * b
}

/// Relies on num's `Complex::scale`: multiplies both components of `a` by
/// the scalar passed, here the real component of `s`.
#[verifier::external_body]
pub(crate) fn c_scaled(a: num::complex::Complex64, s: num::complex::Complex64) -> (r: num::complex::Complex64)
    ensures
        r == complex_scaled(a, s),
{
    a.scale(s.re)
}

/// Relies on num's `Complex::unscale`: divides both components of `a` by
/// the scalar passed, here the real component of `s`.
#[verifier::external_body]
pub(crate) fn c_unscaled(a: num::complex::Complex64, s: num::complex::Complex64) -> (r: num::complex::Complex64)
    ensures
        r == complex_unscaled(a, s),
{
    a.unscale(s.re)
}

/// Relies on num's `From<f64> for Complex<f64>`: builds the real carrier of
/// the real component of `a`.
#[verifier::external_body]
pub(crate) fn c_real_component(a: num::complex::Complex64) -> (r: num::complex::Complex64)
    ensures
        r == real_component(a),
{
    num::complex::Complex64::from(a.re)
}

/// Relies on num's `From<f64> for Complex<f64>`: builds the real carrier of
/// the imaginary component of `a`.
#[verifier::external_body]
pub(crate) fn c_imag_component(a: num::complex::Complex64) -> (r: num::complex::Complex64)
    ensures
        r == imag_component(a),
{
    num::complex::Complex64::from(a.im)
}

/// Relies on num's `Complex::new`: pairs the real components of the two
/// carriers into one complex value.
#[verifier::external_body]
pub(crate) fn c_from_components(re: num::complex::Complex64, im: num::complex::Complex64) -> (r: num::complex::Complex64)
    ensures
        r == complex_from_components(re, im),
{
    num::complex::Complex64::new(re.re, im.re)
}

/// Relies on num's `Complex::norm_sqr` (`re*re + im*im` in doubles) and on
/// `From<f64> for Complex<f64>` to carry the result.
#[verifier::external_body]
pub(crate) fn c_norm_sqr(a: num::complex::Complex64) -> (r: num::complex::Complex64)
    ensures
        r == norm_sqr_carrier(a),
{
    num::complex::Complex64::from(a.norm_sqr())
}

/// Relies on `f64`'s `PartialOrd`: IEEE-754 `>` on the real components, a
/// function of the two operands alone.
#[verifier::external_body]
pub(crate) fn c_real_gt(a: num::complex::Complex64, b: num::complex::Complex64) -> (r: bool)
    ensures
        r == real_gt(a, b),
{
    a.re > b.re
}

/// Relies on `f64`'s `FromStr` (each string read as a double, a function of
/// the characters alone) and on num's `Complex::new` to pair the results.
#[verifier::external_body]
pub(crate) fn c_of_decimal_pair(re_text: &str, im_text: &str) -> (r: Option<num::complex::Complex64>)
    ensures
        r == complex_of_decimal_pair(re_text@, im_text@),
{
    match (re_text.parse(), im_text.parse()) {
        (Ok(re), Ok(im)) => Some(num::complex::Complex64::new(re, im)),
        _ => None,
    }
}

/// Relies on `num_cpus::get`, documented to return at least 1. The count
/// depends on the machine, so nothing more is stated of it.
#[verifier::external_body]
pub(crate) fn worker_count() -> (n: usize)
    ensures
        n >= 1,
{
    num_cpus::get()
}

} // verus!
