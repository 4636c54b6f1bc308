//! The parallel dispatcher.
//!
//! The image is split into consecutive row bands, one per unit of
//! parallelism, each band rendered by its own task into its own buffer;
//! the buffers are then joined in band order. The partition is fixed up
//! front and every byte of the result is pinned to [`image_spec`], so the
//! task count can never change the image. Static striping is a deliberate
//! simplicity tradeoff: per-pixel cost varies, but not enough to need
//! work stealing.

use vstd::prelude::*;
use crate::fixed::Complex;
use crate::geometry::MAX_DIM;
use crate::geometry::bounds_wf;
use crate::render::Options;
use crate::render::band_spec;
use crate::render::image_spec;
use crate::render::lemma_band_is_segment;
use crate::render::options_wf;
use crate::render::render_band;

verus! {

/// One row band of the image: rows `[top, top + height)`.
#[derive(Clone, Copy, PartialEq, Eq, Structural, Debug)]
pub struct Band {
    pub top: usize,
    pub height: usize,
}

/// The ceiling-biased rows-per-band policy: the grid height divided by
/// the task count, plus one.
pub open spec fn rows_per_band(height: int, tasks: int) -> int {
    height / tasks + 1
}

/// Splits `height` rows into consecutive bands of `rows_per_band` rows,
/// the last band truncated to what remains. The bands cover the row
/// range exactly: the first starts at row zero, each next band starts
/// where the previous one ended, and the last ends at `height`.
pub fn plan_bands(height: usize, tasks: usize) -> (bands: Vec<Band>)
    requires
        1 <= height <= MAX_DIM,
        1 <= tasks,
    ensures
        bands@.len() >= 1,
        bands@[0].top == 0,
        forall|i: int|
            0 <= i < bands@.len() ==> 1 <= (#[trigger] bands@[i]).height <= rows_per_band(
                height as int,
                tasks as int,
            ),
        forall|i: int|
            0 <= i < bands@.len() ==> (#[trigger] bands@[i]).top + bands@[i].height <= height,
        forall|i: int|
            0 <= i < bands@.len() - 1 ==> (#[trigger] bands@[i + 1]).top == bands@[i].top
                + bands@[i].height,
        forall|i: int|
            0 <= i < bands@.len() - 1 ==> (#[trigger] bands@[i]).height == rows_per_band(
                height as int,
                tasks as int,
            ),
        bands@[bands@.len() - 1].top + bands@[bands@.len() - 1].height == height,
{
    let rpb: usize = height / tasks + 1;
    let mut bands: Vec<Band> = Vec::new();
    let mut top: usize = 0;
    while top < height
        invariant
            1 <= height <= MAX_DIM,
            rpb == rows_per_band(height as int, tasks as int),
            1 <= rpb,
            top <= height,
            (top == 0) == (bands@.len() == 0),
            bands@.len() >= 1 ==> bands@[0].top == 0,
            bands@.len() >= 1 ==> bands@[bands@.len() - 1].top + bands@[bands@.len() - 1].height
                == top,
            forall|i: int| 0 <= i < bands@.len() ==> 1 <= (#[trigger] bands@[i]).height <= rpb,
            forall|i: int|
                0 <= i < bands@.len() ==> (#[trigger] bands@[i]).top + bands@[i].height <= height,
            forall|i: int|
                0 <= i < bands@.len() - 1 ==> (#[trigger] bands@[i + 1]).top == bands@[i].top
                    + bands@[i].height,
            forall|i: int|
                0 <= i < bands@.len() - 1 ==> (#[trigger] bands@[i]).height == rpb,
            bands@.len() >= 1 && top < height ==> bands@[bands@.len() - 1].height == rpb,
        decreases height - top,
    {
        let remaining = height - top;
        let bh = if remaining < rpb {
            remaining
        } else {
            rpb
        };
        bands.push(Band { top, height: bh });
        top = top + bh;
    }
    bands
}

/// Trusted task pool. Relies on `crossbeam::scope` and
/// `ScopedJoinHandle::join`: the scope runs every spawned closure to
/// completion before it returns, and `join` hands back the closure's
/// return value. Each closure only calls [`render_band`] on its own
/// band, so each returned buffer is that band's bytes, as
/// `render_band`'s contract states.
#[verifier::external_body]
fn run_bands(
    bounds: (usize, usize),
    upper_left: Complex,
    lower_right: Complex,
    bands: &Vec<Band>,
) -> (parts: Vec<Vec<u8>>)
    requires
        bounds_wf(bounds),
        upper_left.in_range(),
        lower_right.in_range(),
        forall|i: int|
            0 <= i < bands@.len() ==> (#[trigger] bands@[i]).top + bands@[i].height <= bounds.1,
    ensures
        parts@.len() == bands@.len(),
        forall|i: int|
            0 <= i < bands@.len() ==> (#[trigger] parts@[i])@ == band_spec(
                bounds,
                upper_left.s(),
                lower_right.s(),
                bands@[i].top as int,
                bands@[i].height as int,
            ),
{
    crossbeam::scope(|sc| {
        let handles: Vec<_> = bands.iter().map(|band| {
            let b = *band;
            sc.spawn(move |_| render_band(bounds, upper_left, lower_right, b.top, b.height))
        }).collect();
        handles.into_iter().map(|h| h.join().unwrap()).collect()
    }).unwrap()
}

/// Trusted parallelism probe. Relies on `num_cpus::get`: the number of
/// logical processors available to the process, documented to be at
/// least one.
#[verifier::external_body]
fn available_tasks() -> (r: usize)
    ensures
        1 <= r,
{
    num_cpus::get()
}

/// Appends a copy of `src`'s bytes to `dst`.
fn append_bytes(dst: &mut Vec<u8>, src: &Vec<u8>)
    ensures
        final(dst)@ == old(dst)@ + src@,
{
    let mut j: usize = 0;
    while j < src.len()
        invariant
            j <= src@.len(),
            dst@ == old(dst)@ + src@.take(j as int),
        decreases src@.len() - j,
    {
        let b = src[j];
        proof {
            assert(src@.take(j + 1) =~= src@.take(j as int).push(src@[j as int]));
            assert((old(dst)@ + src@.take(j as int)).push(src@[j as int]) =~= old(dst)@ + src@.take(
                j + 1,
            ));
        }
        dst.push(b);
        j = j + 1;
    }
    proof {
        assert(src@.take(src@.len() as int) =~= src@);
    }
}

/// Renders the image with an explicit task count: plans the bands,
/// renders them as concurrent tasks, and joins their buffers in band
/// order. The result is the row-major grayscale image of the options,
/// whatever the task count.
pub fn generate_pixels_with_tasks(options: Options, tasks: usize) -> (pixels: Vec<u8>)
    requires
        options_wf(options),
        1 <= tasks,
    ensures
        pixels@ == image_spec(options.0, options.1.s(), options.2.s()),
{
    let (bounds, upper_left, lower_right) = options;
    let w = bounds.0;
    let bands = plan_bands(bounds.1, tasks);
    let parts = run_bands(bounds, upper_left, lower_right, &bands);
    let ghost img = image_spec(bounds, upper_left.s(), lower_right.s());
    let mut pixels: Vec<u8> = Vec::new();
    let mut i: usize = 0;
    proof {
        vstd::arithmetic::mul::lemma_mul_basics(w as int);
        assert(pixels@ =~= img.subrange(0, 0));
    }
    while i < parts.len()
        invariant
            bounds_wf(bounds),
            upper_left.in_range(),
            lower_right.in_range(),
            w == bounds.0,
            i <= parts@.len(),
            parts@.len() == bands@.len(),
            bands@.len() >= 1,
            bands@[0].top == 0,
            forall|k: int|
                0 <= k < bands@.len() ==> (#[trigger] bands@[k]).top + bands@[k].height
                    <= bounds.1,
            forall|k: int|
                0 <= k < bands@.len() - 1 ==> (#[trigger] bands@[k + 1]).top == bands@[k].top
                    + bands@[k].height,
            bands@[bands@.len() - 1].top + bands@[bands@.len() - 1].height == bounds.1,
            forall|k: int|
                0 <= k < bands@.len() ==> (#[trigger] parts@[k])@ == band_spec(
                    bounds,
                    upper_left.s(),
                    lower_right.s(),
                    bands@[k].top as int,
                    bands@[k].height as int,
                ),
            img == image_spec(bounds, upper_left.s(), lower_right.s()),
            i < bands@.len() ==> pixels@ == img.subrange(0, bands@[i as int].top * w),
            i == bands@.len() ==> pixels@ == img.subrange(0, bounds.1 * w),
        decreases parts@.len() - i,
    {
        let ghost top = bands@[i as int].top as int;
        let ghost bh = bands@[i as int].height as int;
        proof {
            lemma_band_is_segment(bounds, upper_left.s(), lower_right.s(), top, bh);
        }
        append_bytes(&mut pixels, &parts[i]);
        proof {
            let wi = w as int;
            assert(0 <= top * wi && (top + bh) * wi <= bounds.1 * wi && top * wi + bh * wi == (top
                + bh) * wi && bounds.1 * wi == wi * bounds.1) by (nonlinear_arith)
                requires
                    0 <= top,
                    0 <= bh,
                    top + bh <= bounds.1,
                    wi >= 1,
            ;
            assert(pixels@ =~= img.subrange(0, (top + bh) * wi));
            if i + 1 < bands@.len() {
                assert(bands@[i as int + 1].top == top + bh);
            } else {
                assert(top + bh == bounds.1);
            }
        }
        i = i + 1;
    }
    proof {
        let wi = w as int;
        assert(bounds.1 * wi == wi * bounds.1) by (nonlinear_arith);
        assert(img.subrange(0, bounds.1 * wi) =~= img);
    }
    pixels
}

/// The parallel dispatcher: renders the image with one task per
/// available processor. The result does not depend on how many that is.
pub fn generate_pixels(options: Options) -> (pixels: Vec<u8>)
    requires
        options_wf(options),
    ensures
        pixels@ == image_spec(options.0, options.1.s(), options.2.s()),
{
    let tasks = available_tasks();
    generate_pixels_with_tasks(options, tasks)
}

/// Bands earlier in the plan lie strictly below later ones: row ranges
/// never overlap.
proof fn lemma_tops_ordered(bands: Seq<Band>, i: int, j: int)
    requires
        forall|k: int|
            0 <= k < bands.len() - 1 ==> (#[trigger] bands[k + 1]).top == bands[k].top
                + bands[k].height,
        0 <= i < j < bands.len(),
    ensures
        bands[i].top + bands[i].height <= bands[j].top,
    decreases j - i,
{
    assert(bands[i + 1].top == bands[i].top + bands[i].height);
    if i + 1 < j {
        lemma_tops_ordered(bands, i + 1, j);
    }
}

/// Some band of the plan contains `row`.
pub open spec fn covered_by(bands: Seq<Band>, row: int) -> bool {
    exists|i: int|
        0 <= i < bands.len() && (#[trigger] bands[i]).top <= row < bands[i].top + bands[i].height
}

/// Every row below `height` falls in some band of a chained plan.
proof fn lemma_bands_cover(bands: Seq<Band>, height: int, row: int)
    requires
        bands.len() >= 1,
        bands[0].top == 0,
        forall|k: int|
            0 <= k < bands.len() - 1 ==> (#[trigger] bands[k + 1]).top == bands[k].top
                + bands[k].height,
        bands[bands.len() - 1].top + bands[bands.len() - 1].height == height,
        0 <= row < height,
    ensures
        covered_by(bands, row),
    decreases bands.len(),
{
    let last = bands.len() - 1;
    if bands[last].top <= row {
        assert(bands[last].top <= row < bands[last].top + bands[last].height);
        assert(covered_by(bands, row));
    } else {
        let front = bands.drop_last();
        assert(bands.len() >= 2);
        assert(forall|k: int|
            0 <= k < front.len() - 1 ==> (#[trigger] front[k + 1]).top == front[k].top
                + front[k].height);
        assert(bands[(bands.len() - 2) + 1].top == bands[bands.len() - 2].top + bands[bands.len()
            - 2].height);
        assert(front[front.len() - 1].top + front[front.len() - 1].height == bands[last].top);
        lemma_bands_cover(front, bands[last].top as int, row);
        let i = choose|i: int|
            0 <= i < front.len() && (#[trigger] front[i]).top <= row < front[i].top
                + front[i].height;
        assert(bands[i].top <= row < bands[i].top + bands[i].height);
        assert(covered_by(bands, row));
    }
}

/// A chained band plan partitions the row range `[0, height)` exactly:
/// every row lies in at least one band, and the row ranges of two
/// distinct bands are disjoint — so every row lies in exactly one band.
/// This holds for any plan whose bands start at zero, chain end to
/// start, and end at `height`, as [`plan_bands`] guarantees for any
/// height and any task count, dividing or not.
pub proof fn lemma_bands_partition(bands: Seq<Band>, height: int)
    requires
        bands.len() >= 1,
        bands[0].top == 0,
        forall|k: int|
            0 <= k < bands.len() - 1 ==> (#[trigger] bands[k + 1]).top == bands[k].top
                + bands[k].height,
        bands[bands.len() - 1].top + bands[bands.len() - 1].height == height,
    ensures
        forall|row: int| 0 <= row < height ==> #[trigger] covered_by(bands, row),
        forall|i: int, j: int|
            0 <= i < j < bands.len() ==> (#[trigger] bands[i]).top + bands[i].height
                <= (#[trigger] bands[j]).top,
{
    assert forall|row: int| 0 <= row < height implies #[trigger] covered_by(bands, row) by {
        lemma_bands_cover(bands, height, row);
    }
    assert forall|i: int, j: int| 0 <= i < j < bands.len() implies (#[trigger] bands[i]).top
        + bands[i].height <= (#[trigger] bands[j]).top by {
        lemma_tops_ordered(bands, i, j);
    }
}

/// Rendering is deterministic: any two buffers rendered from the same
/// options — in sequence, in parallel, or with different task counts —
/// are byte-identical, since every renderer's contract pins its buffer
/// to [`image_spec`] of the options alone.
pub proof fn lemma_render_deterministic(options: Options, b1: Seq<u8>, b2: Seq<u8>)
    requires
        b1 == image_spec(options.0, options.1.s(), options.2.s()),
        b2 == image_spec(options.0, options.1.s(), options.2.s()),
    ensures
        b1 == b2,
{
}

} // verus!
