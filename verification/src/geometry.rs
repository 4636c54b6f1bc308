//! The geometric mapper: pixel coordinates to plane points.
//!
//! The viewport rectangle is spread evenly over the pixel grid: column
//! steps cover the real span, row steps the imaginary span, and rows grow
//! downward while the imaginary part falls.

use vstd::prelude::*;
use crate::fixed::Complex;
use crate::fixed::FACTOR_BOUND;
use crate::fixed::MAX_COORD;
use crate::fixed::div_tz;
use crate::fixed::lemma_div_tz_bound;
use crate::fixed::mul_div_tz;

verus! {

/// Largest pixel dimension the renderer accepts on either axis.
pub const MAX_DIM: usize = 32768;

/// Both grid dimensions are positive and within [`MAX_DIM`].
pub open spec fn bounds_wf(bounds: (usize, usize)) -> bool {
    1 <= bounds.0 <= MAX_DIM && 1 <= bounds.1 <= MAX_DIM
}

/// Raw real part of the plane point of pixel column `col`.
pub open spec fn map_re(bounds: (usize, usize), col: int, ul: (int, int), lr: (int, int)) -> int {
    ul.0 + div_tz(col * (lr.0 - ul.0), bounds.0 as int)
}

/// Raw imaginary part of the plane point of pixel row `row`.
pub open spec fn map_im(bounds: (usize, usize), row: int, ul: (int, int), lr: (int, int)) -> int {
    ul.1 - div_tz(row * (ul.1 - lr.1), bounds.1 as int)
}

/// The plane point of pixel `(column, row)`.
pub open spec fn map_spec(
    bounds: (usize, usize),
    pixel: (int, int),
    ul: (int, int),
    lr: (int, int),
) -> (int, int) {
    (map_re(bounds, pixel.0, ul, lr), map_im(bounds, pixel.1, ul, lr))
}

/// The pixel offset along one axis: `(pos * span) / dim`, truncated
/// toward zero, with magnitude never above `span`'s.
fn axis_offset(pos: usize, span: i64, dim: usize) -> (r: i64)
    requires
        1 <= dim <= MAX_DIM,
        pos <= dim,
        -2 * MAX_COORD <= span <= 2 * MAX_COORD,
    ensures
        r == div_tz(pos * span, dim as int),
        -2 * MAX_COORD <= r <= 2 * MAX_COORD,
        span >= 0 ==> 0 <= r <= span,
        span <= 0 ==> span <= r <= 0,
{
    assert(2 * MAX_COORD == FACTOR_BOUND);
    let off: i64 = mul_div_tz(pos as i64, span, dim as u64);
    proof {
        let p = pos * span;
        let d = dim as int;
        if span >= 0 {
            assert(0 <= p <= d * span) by (nonlinear_arith)
                requires
                    p == pos * span,
                    0 <= pos <= d,
                    span >= 0,
            ;
            lemma_div_tz_bound(p, d, d * span);
            vstd::arithmetic::div_mod::lemma_div_multiples_vanish(span as int, d);
        } else {
            assert(d * span <= p <= 0 && -(d * -span) <= p && 0 <= d * -span) by (nonlinear_arith)
                requires
                    p == pos * span,
                    0 <= pos <= d,
                    span < 0,
            ;
            lemma_div_tz_bound(p, d, d * (-span as int));
            vstd::arithmetic::div_mod::lemma_div_multiples_vanish(-span as int, d);
        }
    }
    off
}

/// The geometric mapper: the plane point of pixel `(column, row)` under
/// the linear map that spreads the viewport rectangle over the grid.
/// Rows grow downward while the imaginary part falls. A pixel index may
/// equal the grid dimension, naming the far edge of the rectangle.
pub fn pixel_to_point(
    bounds: (usize, usize),
    pixel: (usize, usize),
    upper_left: Complex,
    lower_right: Complex,
) -> (r: Complex)
    requires
        bounds_wf(bounds),
        pixel.0 <= bounds.0,
        pixel.1 <= bounds.1,
        upper_left.in_range(),
        lower_right.in_range(),
    ensures
        r.s() == map_spec(bounds, (pixel.0 as int, pixel.1 as int), upper_left.s(), lower_right.s()),
        r.in_range(),
{
    let span_re: i64 = lower_right.re - upper_left.re;
    let span_im: i64 = upper_left.im - lower_right.im;
    let off_re: i64 = axis_offset(pixel.0, span_re, bounds.0);
    let off_im: i64 = axis_offset(pixel.1, span_im, bounds.1);
    Complex { re: upper_left.re + off_re, im: upper_left.im - off_im }
}

/// Every pixel of the grid (edges included) is mapped into the closed
/// rectangle spanned by the two corner points.
pub proof fn lemma_map_in_rectangle(
    bounds: (usize, usize),
    pixel: (int, int),
    ul: (int, int),
    lr: (int, int),
)
    requires
        bounds_wf(bounds),
        0 <= pixel.0 <= bounds.0,
        0 <= pixel.1 <= bounds.1,
        ul.0 <= lr.0,
        lr.1 <= ul.1,
    ensures
        ul.0 <= map_spec(bounds, pixel, ul, lr).0 <= lr.0,
        lr.1 <= map_spec(bounds, pixel, ul, lr).1 <= ul.1,
{
    let w = bounds.0 as int;
    let h = bounds.1 as int;
    let pre = pixel.0 * (lr.0 - ul.0);
    let pim = pixel.1 * (ul.1 - lr.1);
    assert(0 <= pre <= w * (lr.0 - ul.0) && 0 <= w * (lr.0 - ul.0)) by (nonlinear_arith)
        requires
            pre == pixel.0 * (lr.0 - ul.0),
            0 <= pixel.0 <= w,
            lr.0 - ul.0 >= 0,
    ;
    assert(0 <= pim <= h * (ul.1 - lr.1) && 0 <= h * (ul.1 - lr.1)) by (nonlinear_arith)
        requires
            pim == pixel.1 * (ul.1 - lr.1),
            0 <= pixel.1 <= h,
            ul.1 - lr.1 >= 0,
    ;
    lemma_div_tz_bound(pre, w, w * (lr.0 - ul.0));
    vstd::arithmetic::div_mod::lemma_div_multiples_vanish(lr.0 - ul.0, w);
    lemma_div_tz_bound(pim, h, h * (ul.1 - lr.1));
    vstd::arithmetic::div_mod::lemma_div_multiples_vanish(ul.1 - lr.1, h);
}

/// The two grid corners land exactly on the viewport corners: pixel
/// `(0, 0)` on `upper_left`, pixel `(width, height)` on `lower_right`.
pub proof fn lemma_map_corners(bounds: (usize, usize), ul: (int, int), lr: (int, int))
    requires
        bounds_wf(bounds),
    ensures
        map_spec(bounds, (0, 0), ul, lr) == ul,
        map_spec(bounds, (bounds.0 as int, bounds.1 as int), ul, lr) == lr,
{
    let w = bounds.0 as int;
    let h = bounds.1 as int;
    vstd::arithmetic::mul::lemma_mul_basics(lr.0 - ul.0);
    vstd::arithmetic::mul::lemma_mul_basics(ul.1 - lr.1);
    vstd::arithmetic::div_mod::lemma_div_of0(w);
    vstd::arithmetic::div_mod::lemma_div_of0(h);
    assert(map_spec(bounds, (0, 0), ul, lr).0 == ul.0);
    assert(map_spec(bounds, (0, 0), ul, lr).1 == ul.1);
    assert(map_spec(bounds, (0, 0), ul, lr) == ul);
    lemma_edge_hits_corner(w, ul.0, lr.0);
    lemma_edge_hits_corner(h, lr.1, ul.1);
    assert(map_spec(bounds, (w, h), ul, lr).0 == lr.0);
    assert(map_spec(bounds, (w, h), ul, lr).1 == ul.1 - (ul.1 - lr.1));
    assert(map_spec(bounds, (w, h), ul, lr) == lr);
}

/// Helper: the offset of the far edge is the whole span, exactly.
proof fn lemma_edge_hits_corner(d: int, a: int, b: int)
    requires
        d >= 1,
    ensures
        div_tz(d * (b - a), d) == b - a,
{
    vstd::arithmetic::div_mod::lemma_div_multiples_vanish(b - a, d);
    if d * (b - a) < 0 {
        assert(-(d * (b - a)) == d * (a - b)) by (nonlinear_arith);
        vstd::arithmetic::div_mod::lemma_div_multiples_vanish(a - b, d);
    }
}

/// How close the last pixel column comes to the right edge: its real
/// part misses `lower_right.re` by less than one column step plus one
/// raw unit. Scaled by the width, with `span` the real extent of the
/// viewport: `width * (lr.re - re(width - 1)) < span + width`.
pub proof fn lemma_last_column_near_edge(bounds: (usize, usize), ul: (int, int), lr: (int, int))
    requires
        bounds_wf(bounds),
        ul.0 <= lr.0,
    ensures
        0 <= lr.0 - map_re(bounds, bounds.0 - 1, ul, lr),
        bounds.0 * (lr.0 - map_re(bounds, bounds.0 - 1, ul, lr)) < (lr.0 - ul.0) + bounds.0,
{
    let w = bounds.0 as int;
    let span = lr.0 - ul.0;
    let p = (w - 1) * span;
    assert(0 <= p <= w * span && 0 <= w * span) by (nonlinear_arith)
        requires
            p == (w - 1) * span,
            w >= 1,
            span >= 0,
    ;
    lemma_div_tz_bound(p, w, w * span);
    vstd::arithmetic::div_mod::lemma_div_multiples_vanish(span, w);
    let q = p / w;
    vstd::arithmetic::div_mod::lemma_fundamental_div_mod(p, w);
    vstd::arithmetic::div_mod::lemma_mod_bound(p, w);
    let r = p % w;
    assert(p == w * q + r);
    assert(w * span - p == span) by (nonlinear_arith)
        requires
            p == (w - 1) * span,
    ;
    assert(w * (span - q) == w * span - w * q) by (nonlinear_arith);
    assert(w * (span - q) == span + r);
    assert(map_re(bounds, w - 1, ul, lr) == ul.0 + q);
    assert(w * (lr.0 - (ul.0 + q)) == w * (span - q)) by (nonlinear_arith)
        requires
            span == lr.0 - ul.0,
    ;
}

} // verus!
