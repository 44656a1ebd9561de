//! Rendering a pixel buffer, in one pass or split into horizontal bands.
//!
//! `render` walks a buffer in row-major order and writes, for every pixel,
//! the intensity of the escape classification of its plane point. The banded
//! path cuts the image into contiguous runs of rows, derives each band's
//! sub-viewport from the full resolution and viewport, and renders each band
//! as an image of its own; the bands are disjoint and cover the buffer
//! exactly, so independent workers can each own one.
use vstd::prelude::*;

use vstd::arithmetic::div_mod::{
    lemma_fundamental_div_mod, lemma_fundamental_div_mod_converse_div,
};
use vstd::arithmetic::mul::{
    lemma_mul_inequality, lemma_mul_is_commutative, lemma_mul_is_distributive_add,
    lemma_mul_is_distributive_add_other_way,
};

use crate::escape::{escape_time, first_escape};
use crate::mapper::{pixel_to_point, point_at};

verus! {

/// The fixed iteration limit of a render: escape steps lie below it, so each
/// maps to a distinct positive byte intensity.
pub const ESCAPE_LIMIT: usize = 255;

/// The byte intensity of an escape classification: 0 for an orbit that never
/// escaped, `255 - n` for an escape at step `n` (the faster the brighter).
pub open spec fn intensity(e: Option<nat>) -> u8 {
    match e {
        Option::None => 0u8,
        Option::Some(n) => (255 - n) as u8,
    }
}

/// The byte rendered for the pixel `(column, row)`: the intensity of the
/// escape classification of its plane point.
pub open spec fn pixel_byte(
    bounds: (usize, usize),
    pixel: (usize, usize),
    top_left: num::complex::Complex64,
    bottom_right: num::complex::Complex64,
) -> u8 {
    intensity(first_escape(point_at(bounds, pixel, top_left, bottom_right), ESCAPE_LIMIT as nat))
}

/// The byte rendered for the flat buffer index `i`, row-major.
pub open spec fn pixel_byte_at(
    bounds: (usize, usize),
    i: int,
    top_left: num::complex::Complex64,
    bottom_right: num::complex::Complex64,
) -> u8 {
    pixel_byte(
        bounds,
        ((i % (bounds.0 as int)) as usize, (i / (bounds.0 as int)) as usize),
        top_left,
        bottom_right,
    )
}

/// Whether `buf` holds, at every pixel index, the byte of a one-pass render
/// of the viewport: full coverage, with every pixel's value pinned.
pub open spec fn rendered_frame(
    buf: Seq<u8>,
    bounds: (usize, usize),
    top_left: num::complex::Complex64,
    bottom_right: num::complex::Complex64,
) -> bool {
    forall|row: usize, col: usize|
        row < bounds.1 && col < bounds.0 ==> buf[row as int * bounds.0 as int + col as int]
            == #[trigger] pixel_byte(bounds, (col, row), top_left, bottom_right)
}

/// Render the whole buffer in one pass: afterwards every index of `pixels`
/// holds the byte of its pixel, in row-major order.
pub fn render(
    pixels: &mut Vec<u8>,
    bounds: (usize, usize),
    top_left: num::complex::Complex64,
    bottom_right: num::complex::Complex64,
)
    requires
        old(pixels).len() == bounds.0 * bounds.1,
    ensures
        final(pixels).len() == old(pixels).len(),
        rendered_frame(final(pixels)@, bounds, top_left, bottom_right),
{
    let width = bounds.0;
    let height = bounds.1;
    let mut row: usize = 0;
    while row < height
        invariant
            width == bounds.0,
            height == bounds.1,
            pixels.len() == bounds.0 * bounds.1,
            row <= height,
            forall|i: int|
                0 <= i < (row as int) * (width as int) ==> #[trigger] pixels@[i] == pixel_byte_at(
                    bounds,
                    i,
                    top_left,
                    bottom_right,
                ),
        decreases height - row,
    {
        let mut col: usize = 0;
        while col < width
            invariant
                width == bounds.0,
                height == bounds.1,
                pixels.len() == bounds.0 * bounds.1,
                row < height,
                col <= width,
                forall|i: int|
                    0 <= i < (row as int) * (width as int) + col ==> #[trigger] pixels@[i]
                        == pixel_byte_at(bounds, i, top_left, bottom_right),
            decreases width - col,
        {
            let point = pixel_to_point(bounds, (col, row), top_left, bottom_right);
            let byte: u8 = match escape_time(point, ESCAPE_LIMIT) {
                None => 0u8,
                Some(count) => (255 - count) as u8,
            };
            proof {
                assert(row as int * width as int + (col as int) < (width as int) * (height
                    as int)) by (nonlinear_arith)
                    requires
                        row < height,
                        col < width,
                ;
            }
            let index = row * width + col;
            pixels[index] = byte;
            proof {
                lemma_fundamental_div_mod_converse_div(
                    index as int,
                    width as int,
                    row as int,
                    col as int,
                );
                vstd::arithmetic::div_mod::lemma_fundamental_div_mod_converse_mod(
                    index as int,
                    width as int,
                    row as int,
                    col as int,
                );
                assert(pixels@[index as int] == pixel_byte_at(
                    bounds,
                    index as int,
                    top_left,
                    bottom_right,
                ));
            }
            col += 1;
        }
        proof {
            lemma_mul_is_distributive_add_other_way(width as int, row as int, 1);
            assert((row as int + 1) * (width as int) == row as int * width as int + width as int);
        }
        row += 1;
    }
    proof {
        assert forall|r: usize, c: usize| r < bounds.1 && c < bounds.0 implies pixels@[r as int
            * bounds.0 as int + c as int] == #[trigger] pixel_byte(
            bounds,
            (c, r),
            top_left,
            bottom_right,
        ) by {
            let i = r as int * bounds.0 as int + c as int;
            lemma_mul_inequality(r as int + 1, bounds.1 as int, bounds.0 as int);
            lemma_mul_is_distributive_add_other_way(bounds.0 as int, r as int, 1);
            assert(i < (height as int) * (width as int));
            lemma_fundamental_div_mod_converse_div(i, bounds.0 as int, r as int, c as int);
            vstd::arithmetic::div_mod::lemma_fundamental_div_mod_converse_mod(
                i,
                bounds.0 as int,
                r as int,
                c as int,
            );
        }
    }
}

/// Rows per band of the partition: the row count divided by the worker
/// count, rounded up. Every band but the last has exactly this many rows;
/// the last absorbs the shortfall when the division is inexact.
pub open spec fn spec_rows_per_band(height: usize, workers: usize) -> int {
    (height as int + workers as int - 1) / workers as int
}

proof fn lemma_ceil_div(height: int, workers: int)
    requires
        workers >= 1,
        height >= 0,
    ensures
        (height + workers - 1) / workers == height / workers + if height % workers == 0 {
            0int
        } else {
            1int
        },
        workers * ((height + workers - 1) / workers) >= height,
        0 <= (height + workers - 1) / workers <= height,
        height >= 1 ==> (height + workers - 1) / workers >= 1,
{
    let quotient = height / workers;
    let remainder = height % workers;
    lemma_fundamental_div_mod(height, workers);
    vstd::arithmetic::div_mod::lemma_mod_bound(height, workers);
    vstd::arithmetic::div_mod::lemma_div_pos_is_pos(height, workers);
    lemma_mul_is_commutative(workers, quotient);
    lemma_mul_inequality(1, workers, quotient);
    if remainder == 0 {
        lemma_fundamental_div_mod_converse_div(
            height + workers - 1,
            workers,
            quotient,
            workers - 1,
        );
    } else {
        lemma_mul_is_distributive_add_other_way(workers, quotient, 1);
        lemma_mul_is_distributive_add(workers, quotient, 1);
        lemma_fundamental_div_mod_converse_div(
            height + workers - 1,
            workers,
            quotient + 1,
            remainder - 1,
        );
    }
    if height >= 1 && remainder == 0 && quotient == 0 {
        // an exact division with a zero quotient would leave no rows at all
        assert(height == workers * quotient + remainder);
        assert(workers * 0 == 0) by (nonlinear_arith);
        assert(false);
    }
}

proof fn lemma_full_bands_cover(height: int, workers: int, len0: int)
    requires
        workers >= 1,
        height >= 0,
        len0 >= 0,
        len0 + 1 >= workers,
    ensures
        (len0 + 1) * ((height + workers - 1) / workers) >= height,
{
    let rpb = (height + workers - 1) / workers;
    lemma_ceil_div(height, workers);
    lemma_mul_inequality(workers, len0 + 1, rpb);
}

/// Exactly the bands that `band_partition` hands back for `height` rows and
/// `workers` workers: each start and count is pinned, so identical inputs
/// give identical bands. Every band but the last holds `spec_rows_per_band`
/// rows, band `k` starts at row `k * spec_rows_per_band`, every band is
/// nonempty and ends within the image, and the last ends exactly at
/// `height`: together, the bands are contiguous, disjoint, and cover
/// `[0, height)` with no gap.
pub open spec fn is_band_partition(
    bands: Seq<(usize, usize)>,
    height: usize,
    workers: usize,
) -> bool {
    let rpb = spec_rows_per_band(height, workers);
    &&& bands.len() <= workers
    &&& (bands.len() >= 1 <==> height > 0)
    &&& forall|k: int| 0 <= k < bands.len() ==> (#[trigger] bands[k]).0 == k * rpb
    &&& forall|k: int| 0 <= k < bands.len() ==> 1 <= (#[trigger] bands[k]).1 <= rpb
    &&& forall|k: int| 0 <= k < bands.len() - 1 ==> (#[trigger] bands[k]).1 == rpb
    &&& forall|k: int| 0 <= k < bands.len() ==> (#[trigger] bands[k]).0 + bands[k].1 <= height
    &&& (bands.len() >= 1 ==> bands[bands.len() - 1].0 + bands[bands.len() - 1].1 == height)
}

/// Partition `height` rows into contiguous bands of `spec_rows_per_band`
/// rows each, the last possibly shorter: an exact cover of `[0, height)` by
/// at most `workers` disjoint runs, each given as `(start row, row count)`.
pub fn band_partition(height: usize, workers: usize) -> (bands: Vec<(usize, usize)>)
    requires
        workers >= 1,
    ensures
        is_band_partition(bands@, height, workers),
{
    proof {
        lemma_ceil_div(height as int, workers as int);
    }
    let quotient = height / workers;
    let remainder = height % workers;
    let rows_per_band = if remainder == 0 {
        quotient
    } else {
        quotient + 1
    };
    let ghost rpb = spec_rows_per_band(height, workers);
    let mut bands: Vec<(usize, usize)> = Vec::new();
    let mut top: usize = 0;
    while top < height
        invariant
            workers >= 1,
            rows_per_band == rpb,
            rpb == spec_rows_per_band(height, workers),
            height > 0 ==> rpb >= 1,
            top <= height,
            bands@.len() <= workers,
            top < height ==> bands@.len() < workers,
            top < height ==> top == bands@.len() * rpb,
            bands@.len() == 0 ==> top == 0,
            bands@.len() >= 1 ==> bands@[bands@.len() - 1].0 + bands@[bands@.len() - 1].1 == top,
            forall|k: int| 0 <= k < bands@.len() ==> (#[trigger] bands@[k]).0 == k * rpb,
            forall|k: int| 0 <= k < bands@.len() ==> 1 <= (#[trigger] bands@[k]).1 <= rpb,
            forall|k: int| 0 <= k < bands@.len() - 1 ==> (#[trigger] bands@[k]).1 == rpb,
            forall|k: int| 0 <= k < bands@.len() ==> (#[trigger] bands@[k]).0 + bands@[k].1 <= top,
        decreases height - top,
    {
        let remaining = height - top;
        let count = if remaining < rows_per_band {
            remaining
        } else {
            rows_per_band
        };
        let ghost len0 = bands@.len() as int;
        bands.push((top, count));
        proof {
            lemma_mul_is_distributive_add_other_way(rpb, len0, 1);
            assert((len0 + 1) * rpb == len0 * rpb + rpb);
            if len0 >= 1 {
                lemma_mul_is_distributive_add_other_way(rpb, len0 - 1, 1);
                assert(len0 * rpb == (len0 - 1) * rpb + rpb);
            }
            if top + count < height {
                // the band was full, so the full bands now cover (len0+1)*rpb
                // rows; were their count to reach the worker count, they
                // would cover more rows than the image has
                if len0 + 1 >= workers {
                    lemma_full_bands_cover(height as int, workers as int, len0);
                }
            }
        }
        top = top + count;
    }
    bands
}

/// The byte the banded path writes at pixel `(column, row)`: the band
/// holding `row` is rendered as an image of its own height, under the
/// sub-viewport cut from the full resolution and viewport at the band's
/// corner pixels.
pub open spec fn banded_byte(
    bounds: (usize, usize),
    top_left: num::complex::Complex64,
    bottom_right: num::complex::Complex64,
    workers: usize,
    col: usize,
    row: usize,
) -> u8 {
    let rpb = spec_rows_per_band(bounds.1, workers);
    let top = (row as int / rpb) * rpb;
    let band_height = if bounds.1 as int - top < rpb {
        bounds.1 as int - top
    } else {
        rpb
    };
    let band_top_left = point_at(bounds, (0usize, top as usize), top_left, bottom_right);
    let band_bottom_right = point_at(
        bounds,
        (bounds.0, (top + band_height) as usize),
        top_left,
        bottom_right,
    );
    pixel_byte(
        (bounds.0, band_height as usize),
        (col, (row as int - top) as usize),
        band_top_left,
        band_bottom_right,
    )
}

/// The banded byte for the flat buffer index `i`, row-major.
pub open spec fn banded_byte_at(
    bounds: (usize, usize),
    top_left: num::complex::Complex64,
    bottom_right: num::complex::Complex64,
    workers: usize,
    i: int,
) -> u8 {
    banded_byte(
        bounds,
        top_left,
        bottom_right,
        workers,
        (i % (bounds.0 as int)) as usize,
        (i / (bounds.0 as int)) as usize,
    )
}

/// Whether `buf` holds, at every pixel index, the byte of the banded render
/// with the given worker count.
pub open spec fn banded_frame(
    buf: Seq<u8>,
    bounds: (usize, usize),
    top_left: num::complex::Complex64,
    bottom_right: num::complex::Complex64,
    workers: usize,
) -> bool {
    forall|row: usize, col: usize|
        row < bounds.1 && col < bounds.0 ==> buf[row as int * bounds.0 as int + col as int]
            == #[trigger] banded_byte(bounds, top_left, bottom_right, workers, col, row)
}

fn copy_band(pixels: &mut Vec<u8>, base: usize, band_buf: &Vec<u8>)
    requires
        base + band_buf@.len() <= old(pixels).len(),
    ensures
        final(pixels).len() == old(pixels).len(),
        forall|i: int| 0 <= i < base ==> final(pixels)@[i] == old(pixels)@[i],
        forall|j: int| 0 <= j < band_buf@.len() ==> final(pixels)@[base + j] == band_buf@[j],
        forall|i: int|
            base + band_buf@.len() <= i < old(pixels).len() ==> final(pixels)@[i] == old(
                pixels,
            )@[i],
{
    let mut j: usize = 0;
    while j < band_buf.len()
        invariant
            base + band_buf@.len() <= pixels.len(),
            pixels.len() == old(pixels).len(),
            j <= band_buf@.len(),
            forall|i: int| 0 <= i < base ==> pixels@[i] == old(pixels)@[i],
            forall|j2: int| 0 <= j2 < j ==> pixels@[base + j2] == band_buf@[j2],
            forall|i: int|
                base + band_buf@.len() <= i < old(pixels).len() ==> pixels@[i] == old(pixels)@[i],
        decreases band_buf@.len() - j,
    {
        let byte = band_buf[j];
        pixels[base + j] = byte;
        j += 1;
    }
}

/// The row boundary up to which the bands before band `b` reach: the start
/// of band `b`, or the whole image once every band is done.
pub open spec fn rows_before_band(bands: Seq<(usize, usize)>, b: int, height: usize) -> int {
    if b < bands.len() {
        bands[b].0 as int
    } else {
        height as int
    }
}

proof fn lemma_band_stitch(
    buf: Seq<u8>,
    band_buf: Seq<u8>,
    bands: Seq<(usize, usize)>,
    bounds: (usize, usize),
    top_left: num::complex::Complex64,
    bottom_right: num::complex::Complex64,
    workers: usize,
    b: int,
)
    requires
        workers >= 1,
        bounds.0 >= 1,
        0 <= b < bands.len(),
        is_band_partition(bands, bounds.1, workers),
        band_buf.len() == bounds.0 * bands[b].1,
        rendered_frame(
            band_buf,
            (bounds.0, bands[b].1),
            point_at(bounds, (0usize, bands[b].0), top_left, bottom_right),
            point_at(
                bounds,
                (bounds.0, (bands[b].0 + bands[b].1) as usize),
                top_left,
                bottom_right,
            ),
        ),
        forall|i: int|
            0 <= i < rows_before_band(bands, b, bounds.1) * bounds.0 ==> buf[i]
                == #[trigger] banded_byte_at(bounds, top_left, bottom_right, workers, i),
        forall|j: int|
            0 <= j < band_buf.len() ==> buf[bands[b].0 * bounds.0 + j] == band_buf[j],
    ensures
        forall|i: int|
            0 <= i < rows_before_band(bands, b + 1, bounds.1) * bounds.0 ==> buf[i]
                == #[trigger] banded_byte_at(bounds, top_left, bottom_right, workers, i),
{
    let width = bounds.0 as int;
    let height = bounds.1 as int;
    let rpb = spec_rows_per_band(bounds.1, workers);
    let top = bands[b].0 as int;
    let bh = bands[b].1 as int;
    let base = top * width;
    let covered = rows_before_band(bands, b + 1, bounds.1);
    lemma_mul_is_distributive_add_other_way(rpb, b, 1);
    if b + 1 < bands.len() {
        assert(bands[b + 1].0 == (b + 1) * rpb);
        assert(bands[b + 1].0 + bands[b + 1].1 <= bounds.1 && 1 <= bands[b + 1].1);
    }
    assert(covered == top + bh);
    lemma_mul_is_distributive_add_other_way(width, top, bh);
    assert(covered * width == base + bh * width);
    lemma_mul_is_commutative(bh, width);
    assert(band_buf.len() == bh * width);
    assert forall|i: int|
        0 <= i < rows_before_band(bands, b + 1, bounds.1) * bounds.0 implies buf[i]
        == #[trigger] banded_byte_at(bounds, top_left, bottom_right, workers, i) by {
        if i >= base {
            let j = i - base;
            assert(buf[i] == band_buf[j]);
            let lr = j / width;
            let c = j % width;
            lemma_fundamental_div_mod(j, width);
            vstd::arithmetic::div_mod::lemma_mod_bound(j, width);
            if lr >= bh {
                lemma_mul_inequality(bh, lr, width);
                lemma_mul_is_commutative(lr, width);
                assert(false);
            }
            lemma_mul_is_commutative(width, lr);
            assert(j == lr * width + c);
            assert(band_buf[lr * width + c] == pixel_byte(
                (bounds.0, bands[b].1),
                ((c as usize), (lr as usize)),
                point_at(bounds, (0usize, bands[b].0), top_left, bottom_right),
                point_at(
                    bounds,
                    (bounds.0, (bands[b].0 + bands[b].1) as usize),
                    top_left,
                    bottom_right,
                ),
            ));
            let r = top + lr;
            lemma_mul_is_distributive_add_other_way(width, top, lr);
            assert(i == r * width + c);
            lemma_fundamental_div_mod_converse_div(i, width, r, c);
            vstd::arithmetic::div_mod::lemma_fundamental_div_mod_converse_mod(i, width, r, c);
            lemma_fundamental_div_mod_converse_div(r, rpb, b, lr);
            assert((r / rpb) * rpb == top);
        }
    }
}

/// Render the buffer band by band: partition the rows over `workers` bands,
/// derive each band's sub-viewport from the full resolution and viewport,
/// and render each band as an image of its own height into its disjoint
/// slice of the buffer. Afterwards every index holds its banded byte.
pub fn render_parallel(
    pixels: &mut Vec<u8>,
    bounds: (usize, usize),
    top_left: num::complex::Complex64,
    bottom_right: num::complex::Complex64,
    workers: usize,
)
    requires
        workers >= 1,
        old(pixels).len() == bounds.0 * bounds.1,
        bounds.0 >= 1,
    ensures
        final(pixels).len() == old(pixels).len(),
        banded_frame(final(pixels)@, bounds, top_left, bottom_right, workers),
{
    let width = bounds.0;
    let height = bounds.1;
    let bands = band_partition(height, workers);
    let ghost rpb = spec_rows_per_band(height, workers);
    proof {
        if bands@.len() >= 1 {
            assert(bands@[0].0 == 0 * rpb);
        }
        assert(rows_before_band(bands@, 0, height) == 0) by {
            if bands@.len() == 0 {
                assert(height == 0);
            }
        }
    }
    let mut b: usize = 0;
    while b < bands.len()
        invariant
            width == bounds.0,
            height == bounds.1,
            workers >= 1,
            width >= 1,
            pixels.len() == bounds.0 * bounds.1,
            rpb == spec_rows_per_band(height, workers),
            is_band_partition(bands@, height, workers),
            b <= bands@.len(),
            forall|i: int|
                0 <= i < rows_before_band(bands@, b as int, height) * width ==> #[trigger] pixels@[i]
                    == banded_byte_at(bounds, top_left, bottom_right, workers, i),
        decreases bands@.len() - b,
    {
        let band = bands[b];
        let top = band.0;
        let band_height = band.1;
        proof {
            assert(height >= 1);
            lemma_mul_inequality(top as int + band_height as int, height as int, width as int);
            lemma_mul_is_distributive_add_other_way(width as int, top as int, band_height as int);
            assert((height as int) * (width as int) == bounds.0 * bounds.1) by (nonlinear_arith)
                requires
                    width == bounds.0,
                    height == bounds.1,
            ;
            assert(top as int * (width as int) + (band_height as int) * (width as int) <= bounds.0
                * bounds.1);
            lemma_mul_is_commutative(band_height as int, width as int);
            lemma_mul_is_commutative(top as int, width as int);
        }
        let band_top_left = pixel_to_point(bounds, (0, top), top_left, bottom_right);
        let band_bottom_right = pixel_to_point(
            bounds,
            (width, top + band_height),
            top_left,
            bottom_right,
        );
        let band_len = width * band_height;
        let mut band_buf = zero_buffer(band_len);
        render(&mut band_buf, (width, band_height), band_top_left, band_bottom_right);
        let base = top * width;
        copy_band(pixels, base, &band_buf);
        proof {
            lemma_band_stitch(
                pixels@,
                band_buf@,
                bands@,
                bounds,
                top_left,
                bottom_right,
                workers,
                b as int,
            );
        }
        b += 1;
    }
    proof {
        assert forall|row: usize, col: usize| row < bounds.1 && col < bounds.0 implies pixels@[row
            as int * bounds.0 as int + col as int] == #[trigger] banded_byte(
            bounds,
            top_left,
            bottom_right,
            workers,
            col,
            row,
        ) by {
            let i = row as int * bounds.0 as int + col as int;
            lemma_mul_inequality(row as int + 1, bounds.1 as int, bounds.0 as int);
            lemma_mul_is_distributive_add_other_way(bounds.0 as int, row as int, 1);
            assert(i < (height as int) * (width as int));
            lemma_mul_is_commutative(height as int, width as int);
            lemma_fundamental_div_mod_converse_div(i, bounds.0 as int, row as int, col as int);
            vstd::arithmetic::div_mod::lemma_fundamental_div_mod_converse_mod(
                i,
                bounds.0 as int,
                row as int,
                col as int,
            );
        }
    }
}

/// Render the buffer in one pass over all rows. The one-pass and the banded
/// path are interchangeable caller policies; this is the one-pass entry.
pub fn render_single_threaded(
    pixels: &mut Vec<u8>,
    bounds: (usize, usize),
    top_left: num::complex::Complex64,
    bottom_right: num::complex::Complex64,
)
    requires
        old(pixels).len() == bounds.0 * bounds.1,
    ensures
        final(pixels).len() == old(pixels).len(),
        rendered_frame(final(pixels)@, bounds, top_left, bottom_right),
{
    render(pixels, bounds, top_left, bottom_right);
}

/// Render the buffer band by band, one band per worker the machine offers.
/// The worker count depends on the machine, so the contract promises the
/// banded frame for some worker count of at least one.
pub fn render_multi_threaded(
    pixels: &mut Vec<u8>,
    bounds: (usize, usize),
    top_left: num::complex::Complex64,
    bottom_right: num::complex::Complex64,
)
    requires
        old(pixels).len() == bounds.0 * bounds.1,
        bounds.0 >= 1,
    ensures
        final(pixels).len() == old(pixels).len(),
        exists|workers: usize|
            workers >= 1 && #[trigger] banded_frame(
                final(pixels)@,
                bounds,
                top_left,
                bottom_right,
                workers,
            ),
{
    let workers = crate::complex::worker_count();
    render_parallel(pixels, bounds, top_left, bottom_right, workers);
}

/// Whether `row` lies in `band`: at or past its start, before its end.
pub open spec fn band_contains(band: (usize, usize), row: usize) -> bool {
    band.0 <= row < band.0 + band.1
}

/// Whether some band of `bands` holds `row`.
pub open spec fn some_band_contains(bands: Seq<(usize, usize)>, row: usize) -> bool {
    exists|k: int| 0 <= k < bands.len() && #[trigger] band_contains(bands[k], row)
}

/// The band partition is an exact cover of the image's rows: there are at
/// most `workers` bands, every row below `height` lies in some band, and no
/// row lies in two bands.
pub proof fn lemma_band_partition_exact_cover(
    bands: Seq<(usize, usize)>,
    height: usize,
    workers: usize,
)
    requires
        workers >= 1,
        is_band_partition(bands, height, workers),
    ensures
        bands.len() <= workers,
        forall|row: usize| row < height ==> #[trigger] some_band_contains(bands, row),
        forall|k1: int, k2: int, row: usize|
            0 <= k1 < bands.len() && 0 <= k2 < bands.len() && k1 != k2 ==> !(#[trigger] band_contains(
                bands[k1],
                row,
            ) && #[trigger] band_contains(bands[k2], row)),
{
    let rpb = spec_rows_per_band(height, workers);
    let len = bands.len() as int;
    assert forall|row: usize| row < height implies #[trigger] some_band_contains(bands, row) by {
        let k = row as int / rpb;
        lemma_fundamental_div_mod(row as int, rpb);
        vstd::arithmetic::div_mod::lemma_mod_bound(row as int, rpb);
        lemma_mul_is_commutative(rpb, k);
        assert(row as int == k * rpb + row as int % rpb);
        // the row lies below the end of the last band, which is len * rpb at
        // most, so its band index lies below len
        lemma_mul_is_distributive_add_other_way(rpb, len - 1, 1);
        assert(bands[len - 1].0 == (len - 1) * rpb);
        assert(height <= len * rpb);
        if k >= len {
            lemma_mul_inequality(len, k, rpb);
            assert(false);
        }
        if k < len - 1 {
            assert(bands[k].1 == rpb);
        }
        assert(band_contains(bands[k], row));
    }
    assert forall|k1: int, k2: int, row: usize|
        0 <= k1 < bands.len() && 0 <= k2 < bands.len() && k1 != k2 implies !(#[trigger] band_contains(
        bands[k1],
        row,
    ) && #[trigger] band_contains(bands[k2], row)) by {
        if band_contains(bands[k1], row) && band_contains(bands[k2], row) {
            let a = if k1 < k2 {
                k1
            } else {
                k2
            };
            let z = if k1 < k2 {
                k2
            } else {
                k1
            };
            // the earlier band ends at or before the later band's start
            lemma_mul_is_distributive_add_other_way(rpb, a, 1);
            lemma_mul_inequality(a + 1, z, rpb);
            assert(bands[a].0 + bands[a].1 <= (a + 1) * rpb);
            assert((a + 1) * rpb <= z * rpb);
            assert(false);
        }
    }
}

pub(crate) fn zero_buffer(n: usize) -> (v: Vec<u8>)
    ensures
        v@.len() == n,
{
    let mut v: Vec<u8> = Vec::new();
    while v.len() < n
        invariant
            v@.len() <= n,
        decreases n - v.len(),
    {
        v.push(0u8);
    }
    v
}

} // verus!
