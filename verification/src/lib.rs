//! A verified escape-time fractal renderer.
//!
//! The library maps pixels of a raster image to points of the complex plane,
//! classifies each point by how quickly the quadratic orbit `z ← z² + c`
//! escapes, and fills a byte buffer with one grayscale intensity per pixel,
//! either in one pass or band by band so that independent workers can each
//! own a disjoint slice of the image. Double-precision values are carried as
//! opaque `num::complex::Complex64` values (see `complex`); everything around
//! them — loops, indices, parsing, the band partition — is verified.
pub mod complex;
pub mod escape;
pub mod mapper;
pub mod parse;
pub mod pipeline;
pub mod render;

pub use escape::escape_time;
pub use mapper::pixel_to_point;
pub use parse::{parse_complex, parse_pair, parse_usize, parse_usize_pair};
pub use pipeline::{generate_mandelbrot_image, RenderError, RenderedImage};
pub use render::{band_partition, render, render_parallel, render_single_threaded,
    render_multi_threaded};
