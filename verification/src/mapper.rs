//! The coordinate mapper: from a pixel position to a point of the complex
//! plane, by linear interpolation between the two viewport corners.
//!
//! The double arithmetic is carried out step by step through the named
//! operations of `crate::complex`, so the contract pins the exact sequence
//! of IEEE-754 operations:
//!
//! ```text
//! plane_width  = bottom_right.re - top_left.re
//! plane_height = top_left.im - bottom_right.im
//! result.re = top_left.re + column * plane_width  / width
//! result.im = top_left.im - row    * plane_height / height
//! ```
use vstd::prelude::*;

use crate::complex::{
    c_difference, c_from_components, c_imag_component, c_of_usize, c_real_component, c_scaled,
    c_sum, c_unscaled, complex_difference, complex_from_components, complex_of_usize,
    complex_scaled, complex_sum, complex_unscaled, imag_component, real_component,
};

verus! {

/// The plane point of the pixel `(column, row)` of an image of `bounds`
/// pixels showing the viewport with the given corners: each double
/// operation of the interpolation formula, in order.
pub open spec fn point_at(
    bounds: (usize, usize),
    pixel: (usize, usize),
    top_left: num::complex::Complex64,
    bottom_right: num::complex::Complex64,
) -> num::complex::Complex64 {
    let plane_width = complex_difference(real_component(bottom_right), real_component(top_left));
    let plane_height = complex_difference(imag_component(top_left), imag_component(bottom_right));
    let re = complex_sum(
        real_component(top_left),
        complex_unscaled(complex_scaled(complex_of_usize(pixel.0), plane_width), complex_of_usize(bounds.0)),
    );
    let im = complex_difference(
        imag_component(top_left),
        complex_unscaled(complex_scaled(complex_of_usize(pixel.1), plane_height), complex_of_usize(bounds.1)),
    );
    complex_from_components(re, im)
}

/// Map the pixel `(column, row)` of an image of `bounds` pixels to its point
/// of the complex plane, under the viewport with the given corners. Band
/// corners use the inclusive endpoints `column == width` and `row == height`.
pub fn pixel_to_point(
    bounds: (usize, usize),
    pixel: (usize, usize),
    top_left: num::complex::Complex64,
    bottom_right: num::complex::Complex64,
) -> (r: num::complex::Complex64)
    requires
        bounds.0 >= 1,
        bounds.1 >= 1,
        pixel.0 <= bounds.0,
        pixel.1 <= bounds.1,
    ensures
        r == point_at(bounds, pixel, top_left, bottom_right),
{
    let plane_width = c_difference(c_real_component(bottom_right), c_real_component(top_left));
    let plane_height = c_difference(c_imag_component(top_left), c_imag_component(bottom_right));
    let re = c_sum(
        c_real_component(top_left),
        c_unscaled(c_scaled(c_of_usize(pixel.0), plane_width), c_of_usize(bounds.0)),
    );
    let im = c_difference(
        c_imag_component(top_left),
        c_unscaled(c_scaled(c_of_usize(pixel.1), plane_height), c_of_usize(bounds.1)),
    );
    c_from_components(re, im)
}

} // verus!
