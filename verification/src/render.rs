//! The band renderer and the grayscale intensity policy.
//!
//! A pixel's intensity is `0` (black) when its orbit never escapes within
//! the budget of `255` iterations, and `255 - i` when it escapes at loop
//! pass `i`: the faster a point escapes, the darker the pixel, while
//! points that barely escape come out near white.

use vstd::prelude::*;
use crate::escape::escape_time;
use crate::escape::spec_escape_time;
use crate::fixed::Complex;
use crate::geometry::bounds_wf;
use crate::geometry::map_spec;
use crate::geometry::pixel_to_point;

verus! {

/// The iteration budget of the evaluator: one pass per gray level above
/// black.
pub const LIMIT: u32 = 255;

/// A full render request: the grid dimensions and the two corner points
/// of the viewport.
pub type Options = ((usize, usize), Complex, Complex);

/// The request's grid is well formed and its corners are in range.
pub open spec fn options_wf(options: Options) -> bool {
    bounds_wf(options.0) && options.1.in_range() && options.2.in_range()
}

/// The gray level of a plane point: `0` for an orbit that stays bounded,
/// otherwise `255 - i` for an escape at pass `i`.
pub open spec fn intensity_spec(c: (int, int)) -> u8 {
    match spec_escape_time(c, LIMIT as nat) {
        None => 0u8,
        Some(i) => (255 - i) as u8,
    }
}

/// The gray level of one pixel of the full image.
pub open spec fn pixel_spec(
    bounds: (usize, usize),
    ul: (int, int),
    lr: (int, int),
    row: int,
    col: int,
) -> u8 {
    intensity_spec(map_spec(bounds, (col, row), ul, lr))
}

/// The whole image, row-major: byte `k` is pixel `(k % width, k / width)`.
pub open spec fn image_spec(bounds: (usize, usize), ul: (int, int), lr: (int, int)) -> Seq<u8> {
    Seq::new(
        (bounds.0 * bounds.1) as nat,
        |k: int| pixel_spec(bounds, ul, lr, k / (bounds.0 as int), k % (bounds.0 as int)),
    )
}

/// The bytes of one row band of the image: rows `top` up to
/// `top + height`, each of the full width.
pub open spec fn band_spec(
    bounds: (usize, usize),
    ul: (int, int),
    lr: (int, int),
    top: int,
    height: int,
) -> Seq<u8> {
    Seq::new(
        (height * bounds.0) as nat,
        |k: int| pixel_spec(bounds, ul, lr, top + k / (bounds.0 as int), k % (bounds.0 as int)),
    )
}

/// The gray level of the plane point `point`.
pub fn pixel_value(point: Complex) -> (r: u8)
    requires
        point.in_range(),
    ensures
        r == intensity_spec(point.s()),
{
    match escape_time(point, LIMIT) {
        None => 0,
        Some(count) => 255 - (count as u8),
    }
}

/// Splitting a row-major index: `(top * w + k) / w == top + k / w` and
/// the column is unchanged.
pub proof fn lemma_index_split(k: int, top: int, w: int)
    requires
        w >= 1,
        0 <= k,
        0 <= top,
    ensures
        (top * w + k) / w == top + k / w,
        (top * w + k) % w == k % w,
{
    vstd::arithmetic::div_mod::lemma_fundamental_div_mod(k, w);
    vstd::arithmetic::div_mod::lemma_mod_bound(k, w);
    let q = k / w;
    let r = k % w;
    assert(top * w + k == (top + q) * w + r) by (nonlinear_arith)
        requires
            k == w * q + r,
    ;
    vstd::arithmetic::div_mod::lemma_fundamental_div_mod_converse(top * w + k, w, top + q, r);
}

/// A band is exactly the matching segment of the full image.
pub proof fn lemma_band_is_segment(
    bounds: (usize, usize),
    ul: (int, int),
    lr: (int, int),
    top: int,
    height: int,
)
    requires
        bounds_wf(bounds),
        0 <= top,
        0 <= height,
        top + height <= bounds.1,
    ensures
        band_spec(bounds, ul, lr, top, height) == image_spec(bounds, ul, lr).subrange(
            top * bounds.0,
            (top + height) * bounds.0,
        ),
{
    let w = bounds.0 as int;
    let h = bounds.1 as int;
    assert(0 <= top * w && (top + height) * w <= h * w && top * w + height * w == (top + height)
        * w && h * w == w * h) by (nonlinear_arith)
        requires
            0 <= top,
            0 <= height,
            top + height <= h,
            w >= 1,
    ;
    let b = band_spec(bounds, ul, lr, top, height);
    let s = image_spec(bounds, ul, lr).subrange(top * w, (top + height) * w);
    assert forall|k: int| 0 <= k < height * w implies b[k] == s[k] by {
        lemma_index_split(k, top, w);
        assert(s[k] == image_spec(bounds, ul, lr)[top * w + k]);
    }
    assert(b =~= s);
}

/// The band renderer: the bytes of rows `[band_top, band_top + band_height)`
/// of the image, row-major. Every byte is the intensity of its own pixel,
/// so disjoint bands compute disjoint image segments.
pub fn render_band(
    bounds: (usize, usize),
    upper_left: Complex,
    lower_right: Complex,
    band_top: usize,
    band_height: usize,
) -> (out: Vec<u8>)
    requires
        bounds_wf(bounds),
        upper_left.in_range(),
        lower_right.in_range(),
        band_top + band_height <= bounds.1,
    ensures
        out@ == band_spec(
            bounds,
            upper_left.s(),
            lower_right.s(),
            band_top as int,
            band_height as int,
        ),
{
    let ghost gband = band_spec(
        bounds,
        upper_left.s(),
        lower_right.s(),
        band_top as int,
        band_height as int,
    );
    let w = bounds.0;
    proof {
        assert(band_height * w <= 32768 * 32768) by (nonlinear_arith)
            requires
                0 <= band_height <= 32768,
                0 <= w <= 32768,
        ;
    }
    let mut out: Vec<u8> = Vec::new();
    let mut row: usize = 0;
    while row < band_height
        invariant
            bounds_wf(bounds),
            upper_left.in_range(),
            lower_right.in_range(),
            band_top + band_height <= bounds.1,
            w == bounds.0,
            row <= band_height,
            band_height * w <= 32768 * 32768,
            gband == band_spec(
                bounds,
                upper_left.s(),
                lower_right.s(),
                band_top as int,
                band_height as int,
            ),
            out@.len() == row * w,
            forall|k: int| 0 <= k < out@.len() ==> out@[k] == gband[k],
        decreases band_height - row,
    {
        let mut col: usize = 0;
        proof {
            assert(row * w + w <= band_height * w) by (nonlinear_arith)
                requires
                    row < band_height,
                    w >= 1,
            ;
        }
        while col < w
            invariant
                bounds_wf(bounds),
                upper_left.in_range(),
                lower_right.in_range(),
                band_top + band_height <= bounds.1,
                w == bounds.0,
                row < band_height,
                col <= w,
                band_height * w <= 32768 * 32768,
                row * w + w <= band_height * w,
                gband == band_spec(
                    bounds,
                    upper_left.s(),
                    lower_right.s(),
                    band_top as int,
                    band_height as int,
                ),
                out@.len() == row * w + col,
                forall|k: int| 0 <= k < out@.len() ==> out@[k] == gband[k],
            decreases w - col,
        {
            let point = pixel_to_point(bounds, (col, band_top + row), upper_left, lower_right);
            let v = pixel_value(point);
            proof {
                let k = row * w + col;
                vstd::arithmetic::div_mod::lemma_fundamental_div_mod_converse(
                    k,
                    w as int,
                    row as int,
                    col as int,
                );
                assert(gband[k] == v);
            }
            out.push(v);
            col = col + 1;
        }
        proof {
            assert((row + 1) * w == row * w + w) by (nonlinear_arith);
        }
        row = row + 1;
    }
    proof {
        assert(out@ =~= gband);
    }
    out
}

/// The single-threaded reference renderer: fills a full-image buffer in
/// place, one pixel at a time.
pub fn render(
    pixels: &mut Vec<u8>,
    bounds: (usize, usize),
    upper_left: Complex,
    lower_right: Complex,
)
    requires
        bounds_wf(bounds),
        upper_left.in_range(),
        lower_right.in_range(),
        old(pixels)@.len() == bounds.0 * bounds.1,
    ensures
        final(pixels)@ == image_spec(bounds, upper_left.s(), lower_right.s()),
{
    let mut fresh = render_band(bounds, upper_left, lower_right, 0, bounds.1);
    proof {
        lemma_band_is_segment(bounds, upper_left.s(), lower_right.s(), 0, bounds.1 as int);
        let img = image_spec(bounds, upper_left.s(), lower_right.s());
        vstd::arithmetic::mul::lemma_mul_basics(bounds.0 as int);
        assert(bounds.1 * bounds.0 == bounds.0 * bounds.1) by (nonlinear_arith);
        assert(img.subrange(0, bounds.1 * bounds.0) =~= img);
    }
    pixels.clear();
    pixels.append(&mut fresh);
}

} // verus!
