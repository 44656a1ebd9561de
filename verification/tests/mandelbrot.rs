use mandelbrot::{
    band_partition, escape_time, generate_mandelbrot_image, parse_complex, parse_pair,
    parse_usize, parse_usize_pair, pixel_to_point, render, render_multi_threaded,
    render_parallel, render_single_threaded, RenderError,
};
use num::Complex;

#[test]
fn test_parse_pair() {
    assert_eq!(parse_pair::<i32>("", ','), None);
    assert_eq!(parse_pair::<i32>("10", ','), None);
    assert_eq!(parse_pair::<i32>(",10", ','), None);
    assert_eq!(parse_pair::<i32>("10,20", ','), Some((10, 20)));
    assert_eq!(parse_pair::<i32>("10,20xy", ','), None);
    assert_eq!(parse_pair::<f64>("0.5x", 'x'), None);
    assert_eq!(parse_pair::<f64>("0.5x1.5", 'x'), Some((0.5, 1.5)));
}

#[test]
fn test_parse_complex() {
    assert_eq!(
        parse_complex("1.25,-0.0625"),
        Some(Complex {
            re: 1.25,
            im: -0.0625
        })
    );
    assert_eq!(parse_complex(",-0.0625"), None);
}

#[test]
fn test_pixel_to_point() {
    assert_eq!(
        pixel_to_point(
            (100, 200),
            (25, 175),
            Complex { re: -1.0, im: 1.0 },
            Complex { re: 1.0, im: -1.0 }
        ),
        Complex {
            re: -0.5,
            im: -0.75
        }
    );
}

#[test]
fn test_parse_usize_numerals() {
    assert_eq!(parse_usize("10"), Some(10));
    assert_eq!(parse_usize("+7"), Some(7));
    assert_eq!(parse_usize("010"), Some(10));
    assert_eq!(parse_usize("0"), Some(0));
    assert_eq!(parse_usize(""), None);
    assert_eq!(parse_usize("+"), None);
    assert_eq!(parse_usize("-3"), None);
    assert_eq!(parse_usize("1a"), None);
    assert_eq!(parse_usize(" 1"), None);
    assert_eq!(parse_usize("18446744073709551615"), Some(usize::MAX));
    assert_eq!(parse_usize("18446744073709551616"), None);
}

#[test]
fn test_parse_usize_pair() {
    assert_eq!(parse_usize_pair("10,20", ','), Some((10, 20)));
    assert_eq!(parse_usize_pair("400x300", 'x'), Some((400, 300)));
    assert_eq!(parse_usize_pair("400x", 'x'), None);
    assert_eq!(parse_usize_pair("x300", 'x'), None);
    assert_eq!(parse_usize_pair("400300", 'x'), None);
}

#[test]
fn test_mapper_corners() {
    let top_left = Complex { re: -1.0, im: 1.0 };
    let bottom_right = Complex { re: 1.0, im: -1.0 };
    let bounds = (100, 200);
    assert_eq!(
        pixel_to_point(bounds, (0, 0), top_left, bottom_right),
        top_left
    );
    assert_eq!(
        pixel_to_point(bounds, (100, 0), top_left, bottom_right),
        Complex { re: 1.0, im: 1.0 }
    );
    assert_eq!(
        pixel_to_point(bounds, (0, 200), top_left, bottom_right),
        Complex { re: -1.0, im: -1.0 }
    );
    assert_eq!(
        pixel_to_point(bounds, (100, 200), top_left, bottom_right),
        bottom_right
    );
}

#[test]
fn test_escape_boundary() {
    // the first step past the threshold: z_0 = 0 stays inside, z_1 = c has
    // squared norm 9
    assert_eq!(escape_time(Complex { re: 3.0, im: 0.0 }, 255), Some(1));
    // the origin never escapes
    assert_eq!(escape_time(Complex { re: 0.0, im: 0.0 }, 255), None);
    // a zero iteration limit classifies nothing
    assert_eq!(escape_time(Complex { re: 3.0, im: 0.0 }, 0), None);
}

#[test]
fn test_band_partition_exact_cover() {
    // rows per band is the ceiling of height / workers
    assert_eq!(band_partition(16, 5), vec![(0, 4), (4, 4), (8, 4), (12, 4)]);
    // when the workers divide the rows evenly, every band is equal and all
    // workers are used
    assert_eq!(band_partition(16, 4), vec![(0, 4), (4, 4), (8, 4), (12, 4)]);
    assert_eq!(band_partition(12, 3), vec![(0, 4), (4, 4), (8, 4)]);
    assert_eq!(band_partition(7, 3), vec![(0, 3), (3, 3), (6, 1)]);
    assert_eq!(band_partition(3, 10), vec![(0, 1), (1, 1), (2, 1)]);
    assert_eq!(band_partition(5, 1), vec![(0, 5)]);
    assert_eq!(band_partition(0, 4), vec![]);
    for height in 0..40usize {
        for workers in 1..20usize {
            let bands = band_partition(height, workers);
            assert!(bands.len() <= workers);
            let mut next = 0;
            for &(start, count) in &bands {
                assert_eq!(start, next);
                assert!(count >= 1);
                next = start + count;
            }
            assert_eq!(next, height);
        }
    }
}

#[test]
fn test_render_fills_every_pixel() {
    // a viewport far from the set: every point escapes one step after its
    // first orbit member, so every pixel holds 255 - 1
    let top_left = Complex { re: 10.0, im: 5.0 };
    let bottom_right = Complex { re: 12.0, im: 3.0 };
    let mut from_sevens = vec![7u8; 24];
    render(&mut from_sevens, (6, 4), top_left, bottom_right);
    let mut from_zeros = vec![0u8; 24];
    render(&mut from_zeros, (6, 4), top_left, bottom_right);
    assert_eq!(from_sevens, from_zeros);
    assert!(from_sevens.iter().all(|&b| b == 254));
}

#[test]
fn test_banded_render_matches_single_pass() {
    // a dyadic viewport, so the banded corner arithmetic is exact and the
    // two strategies must agree byte for byte for every worker count
    let bounds = (16, 16);
    let top_left = Complex { re: -2.0, im: 1.0 };
    let bottom_right = Complex { re: 2.0, im: -1.0 };
    let mut single = vec![0u8; 256];
    render(&mut single, bounds, top_left, bottom_right);
    assert!(single.iter().any(|&b| b == 0));
    assert!(single.iter().any(|&b| b != 0));
    for workers in 1..=16usize {
        let mut banded = vec![0u8; 256];
        render_parallel(&mut banded, bounds, top_left, bottom_right, workers);
        assert_eq!(banded, single);
    }
    let mut threaded = vec![0u8; 256];
    render_multi_threaded(&mut threaded, bounds, top_left, bottom_right);
    assert_eq!(threaded, single);
    let mut one_pass = vec![0u8; 256];
    render_single_threaded(&mut one_pass, bounds, top_left, bottom_right);
    assert_eq!(one_pass, single);
}

#[test]
fn test_render_single_pixel_degenerate_viewport() {
    // a one-pixel image whose corners coincide must produce exactly one byte
    let corner = Complex { re: 0.25, im: 0.75 };
    let mut pixels = vec![0u8; 1];
    render(&mut pixels, (1, 1), corner, corner);
    assert_eq!(pixels.len(), 1);
    let point = pixel_to_point((1, 1), (0, 0), corner, corner);
    let expected = match escape_time(point, 255) {
        None => 0,
        Some(count) => 255 - count as u8,
    };
    assert_eq!(pixels[0], expected);
}

fn args_of(parts: &[&str]) -> Vec<String> {
    parts.iter().map(|s| s.to_string()).collect()
}

#[test]
fn test_generate_mandelbrot_image_single_threaded() {
    let args = args_of(&["prog", "out.png", "8x8", "-1,1", "1,-1", "-st"]);
    let image = generate_mandelbrot_image(&args).unwrap();
    assert_eq!(image.filename, "out.png");
    assert_eq!(image.width, 8);
    assert_eq!(image.height, 8);
    let mut expected = vec![0u8; 64];
    render(
        &mut expected,
        (8, 8),
        Complex { re: -1.0, im: 1.0 },
        Complex { re: 1.0, im: -1.0 },
    );
    assert_eq!(image.pixels, expected);
}

#[test]
fn test_generate_mandelbrot_image_multi_threaded() {
    // dyadic viewport: the banded output agrees with the one-pass output
    // whatever worker count the machine offers
    let args = args_of(&["prog", "out.png", "16x16", "-2,1", "2,-1"]);
    let image = generate_mandelbrot_image(&args).unwrap();
    assert_eq!(image.pixels.len(), 256);
    let mut expected = vec![0u8; 256];
    render(
        &mut expected,
        (16, 16),
        Complex { re: -2.0, im: 1.0 },
        Complex { re: 2.0, im: -1.0 },
    );
    assert_eq!(image.pixels, expected);
}

#[test]
fn test_generate_mandelbrot_image_errors() {
    assert!(matches!(
        generate_mandelbrot_image(&args_of(&["prog", "out.png", "8x8"])),
        Err(RenderError::MissingArguments)
    ));
    assert!(matches!(
        generate_mandelbrot_image(&args_of(&["prog", "out.png", "8y8", "-1,1", "1,-1"])),
        Err(RenderError::BadResolution)
    ));
    assert!(matches!(
        generate_mandelbrot_image(&args_of(&["prog", "out.png", "8x8", "-1;1", "1,-1"])),
        Err(RenderError::BadTopLeft)
    ));
    assert!(matches!(
        generate_mandelbrot_image(&args_of(&["prog", "out.png", "8x8", "-1,1", "one,-1"])),
        Err(RenderError::BadBottomRight)
    ));
    assert!(matches!(
        generate_mandelbrot_image(&args_of(&[
            "prog",
            "out.png",
            "4294967296x4294967296",
            "-1,1",
            "1,-1"
        ])),
        Err(RenderError::ImageTooLarge)
    ));
    assert!(matches!(
        generate_mandelbrot_image(&args_of(&["prog", "out.png", "0x5", "-1,1", "1,-1"])),
        Err(RenderError::UnsplittableImage)
    ));
    // the one-pass strategy renders a zero-width image without complaint
    let empty = generate_mandelbrot_image(&args_of(&[
        "prog", "out.png", "0x5", "-1,1", "1,-1", "-st",
    ]))
    .unwrap();
    assert_eq!(empty.pixels.len(), 0);
}
