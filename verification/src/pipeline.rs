//! The whole rendering pipeline over the program's argument list: read the
//! output filename, the resolution, the two viewport corners and the
//! strategy flag, then render the full pixel buffer. Writing the buffer to a
//! file is the caller's affair; every failure is an error value that says
//! which argument was at fault.
use vstd::prelude::*;

use crate::parse::{
    parse_complex, parse_complex_spec, parse_usize_pair, parse_usize_pair_spec,
};
use crate::render::{
    banded_frame, render_multi_threaded, render_single_threaded, rendered_frame, zero_buffer,
};

verus! {

use vstd::string::StringExecFns;

/// A fully rendered image: the filename it is destined for, its resolution,
/// and one intensity byte per pixel in row-major order.
pub struct RenderedImage {
    pub filename: String,
    pub width: usize,
    pub height: usize,
    pub pixels: Vec<u8>,
}

/// Why a render request was refused, by the argument at fault.
#[derive(Clone, Copy, PartialEq, Eq, Structural, Debug)]
pub enum RenderError {
    /// Fewer than five arguments were given.
    MissingArguments,
    /// The resolution argument is not a pair of decimal numerals.
    BadResolution,
    /// The top-left corner argument did not split at a comma or parse.
    BadTopLeft,
    /// The bottom-right corner argument did not split at a comma or parse.
    BadBottomRight,
    /// The pixel count of the resolution does not fit in memory's index
    /// range.
    ImageTooLarge,
    /// The banded path cannot split a zero-width image into bands.
    UnsplittableImage,
}

/// Whether the trailing argument selects the one-pass strategy.
pub open spec fn wants_single_thread(args: Seq<String>) -> bool {
    args.len() >= 1 && args[args.len() - 1]@ == "-st"@
}

/// Run the whole pipeline over the program's arguments: `args[1]` the output
/// filename, `args[2]` the resolution as `"<width>x<height>"`, `args[3]` and
/// `args[4]` the viewport corners as `"<re>,<im>"`, and a trailing `-st`
/// selecting the one-pass strategy over the banded one. On success the
/// returned image holds the byte of every pixel; each error names the first
/// argument at fault.
#[verifier::rlimit(30)]
#[verifier::spinoff_prover]
pub fn generate_mandelbrot_image(args: &Vec<String>) -> (r: Result<RenderedImage, RenderError>)
    ensures
        match r {
            Result::Err(e) => match e {
                RenderError::MissingArguments => args@.len() < 5,
                RenderError::BadResolution => args@.len() >= 5 && parse_usize_pair_spec(
                    args@[2]@,
                    'x',
                ) is None,
                RenderError::BadTopLeft => args@.len() >= 5 && parse_usize_pair_spec(
                    args@[2]@,
                    'x',
                ) is Some && parse_complex_spec(args@[3]@) is None,
                RenderError::BadBottomRight => args@.len() >= 5 && parse_usize_pair_spec(
                    args@[2]@,
                    'x',
                ) is Some && parse_complex_spec(args@[3]@) is Some && parse_complex_spec(
                    args@[4]@,
                ) is None,
                RenderError::ImageTooLarge => args@.len() >= 5 && parse_complex_spec(
                    args@[3]@,
                ) is Some && parse_complex_spec(args@[4]@) is Some && match parse_usize_pair_spec(
                    args@[2]@,
                    'x',
                ) {
                    Some(bounds) => bounds.0 * bounds.1 > usize::MAX,
                    None => false,
                },
                RenderError::UnsplittableImage => args@.len() >= 5 && !wants_single_thread(args@)
                    && parse_complex_spec(args@[3]@) is Some && parse_complex_spec(
                    args@[4]@,
                ) is Some && match parse_usize_pair_spec(args@[2]@, 'x') {
                    Some(bounds) => bounds.0 * bounds.1 <= usize::MAX && bounds.0 == 0,
                    None => false,
                },
            },
            Result::Ok(image) => match (
                parse_usize_pair_spec(args@[2]@, 'x'),
                parse_complex_spec(args@[3]@),
                parse_complex_spec(args@[4]@),
            ) {
                (Some(bounds), Some(top_left), Some(bottom_right)) => {
                    &&& args@.len() >= 5
                    &&& bounds.0 * bounds.1 <= usize::MAX
                    &&& image.filename@ == args@[1]@
                    &&& image.width == bounds.0
                    &&& image.height == bounds.1
                    &&& image.pixels@.len() == bounds.0 * bounds.1
                    &&& (wants_single_thread(args@) ==> rendered_frame(
                        image.pixels@,
                        bounds,
                        top_left,
                        bottom_right,
                    ))
                    &&& (!wants_single_thread(args@) ==> exists|workers: usize|
                        workers >= 1 && #[trigger] banded_frame(
                            image.pixels@,
                            bounds,
                            top_left,
                            bottom_right,
                            workers,
                        ))
                },
                _ => false,
            },
        },
{
    if args.len() < 5 {
        return Result::Err(RenderError::MissingArguments);
    }
    let flag = String::from_str("-st");
    let single = args[args.len() - 1].eq(&flag);
    let bounds = match parse_usize_pair(args[2].as_str(), 'x') {
        Some(b) => b,
        None => {
            return Result::Err(RenderError::BadResolution);
        },
    };
    let top_left = match parse_complex(args[3].as_str()) {
        Some(c) => c,
        None => {
            return Result::Err(RenderError::BadTopLeft);
        },
    };
    let bottom_right = match parse_complex(args[4].as_str()) {
        Some(c) => c,
        None => {
            return Result::Err(RenderError::BadBottomRight);
        },
    };
    let pixel_count = match bounds.0.checked_mul(bounds.1) {
        Some(n) => n,
        None => {
            return Result::Err(RenderError::ImageTooLarge);
        },
    };
    let mut pixels = zero_buffer(pixel_count);
    if single {
        render_single_threaded(&mut pixels, bounds, top_left, bottom_right);
    } else {
        if bounds.0 == 0 {
            return Result::Err(RenderError::UnsplittableImage);
        }
        render_multi_threaded(&mut pixels, bounds, top_left, bottom_right);
    }
    let filename = args[1].clone();
    Result::Ok(RenderedImage { filename, width: bounds.0, height: bounds.1, pixels })
}

} // verus!
