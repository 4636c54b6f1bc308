use mandelbrot::dispatch::plan_bands;
use mandelbrot::escape::escape_time;
use mandelbrot::fixed::Complex;
use mandelbrot::fixed::SCALE;
use mandelbrot::geometry::pixel_to_point;
use mandelbrot::parse::parse_pair;
use mandelbrot::render::pixel_value;

#[test]
fn far_point_escapes_at_once() {
    // |c| > 2: the very first orbit step is already outside the disk.
    let c = Complex { re: 3 * SCALE, im: 0 };
    assert_eq!(escape_time(c, 255), Some(0));
    assert_eq!(pixel_value(c), 255);
}

#[test]
fn origin_never_escapes() {
    let c = Complex { re: 0, im: 0 };
    assert_eq!(escape_time(c, 255), None);
    assert_eq!(escape_time(c, 1), None);
    assert_eq!(pixel_value(c), 0);
}

#[test]
fn point_escaping_late_is_light_gray() {
    // c = (-1.0, 1.0) stays in the disk for two passes and leaves at the
    // third, so the evaluator reports pass index 2.
    let c = Complex { re: -SCALE, im: SCALE };
    assert_eq!(escape_time(c, 255), Some(2));
    assert_eq!(pixel_value(c), 253);
}

#[test]
fn mapper_hits_corners_exactly() {
    let ul = Complex { re: -SCALE, im: SCALE };
    let lr = Complex { re: SCALE, im: -SCALE };
    assert_eq!(pixel_to_point((100, 100), (0, 0), ul, lr), ul);
    assert_eq!(pixel_to_point((100, 100), (100, 100), ul, lr), lr);
}

#[test]
fn mapper_interpolates_linearly() {
    let ul = Complex { re: -SCALE, im: SCALE };
    let lr = Complex { re: SCALE, im: -SCALE };
    let p = pixel_to_point((100, 100), (25, 75), ul, lr);
    assert_eq!(p, Complex { re: -SCALE / 2, im: -SCALE / 2 });
    let q = pixel_to_point((100, 100), (50, 50), ul, lr);
    assert_eq!(q, Complex { re: 0, im: 0 });
}

#[test]
fn bands_tile_the_row_range() {
    // 10 rows over 3 tasks: 10 / 3 + 1 = 4 rows per band.
    let bands = plan_bands(10, 3);
    let pairs: Vec<(usize, usize)> = bands.iter().map(|b| (b.top, b.height)).collect();
    assert_eq!(pairs, vec![(0, 4), (4, 4), (8, 2)]);
}

#[test]
fn bands_when_tasks_divide_evenly() {
    // 4 rows over 4 tasks: 4 / 4 + 1 = 2 rows per band.
    let bands = plan_bands(4, 4);
    let pairs: Vec<(usize, usize)> = bands.iter().map(|b| (b.top, b.height)).collect();
    assert_eq!(pairs, vec![(0, 2), (2, 2)]);
}

#[test]
fn bands_when_tasks_exceed_height() {
    let bands = plan_bands(3, 10);
    let pairs: Vec<(usize, usize)> = bands.iter().map(|b| (b.top, b.height)).collect();
    assert_eq!(pairs, vec![(0, 1), (1, 1), (2, 1)]);
}

#[test]
fn parse_pair_reads_dimensions() {
    assert_eq!(parse_pair("1000x750", b'x'), Some((1000, 750)));
    assert_eq!(parse_pair("1x1", b'x'), Some((1, 1)));
    assert_eq!(parse_pair("007x1", b'x'), Some((7, 1)));
    assert_eq!(parse_pair("10,20", b','), Some((10, 20)));
}

#[test]
fn parse_pair_rejects_bad_input() {
    assert_eq!(parse_pair("", b'x'), None);
    assert_eq!(parse_pair("10", b'x'), None);
    assert_eq!(parse_pair("10x", b'x'), None);
    assert_eq!(parse_pair("x10", b'x'), None);
    assert_eq!(parse_pair("10x2a", b'x'), None);
    assert_eq!(parse_pair("-3x5", b'x'), None);
    assert_eq!(parse_pair("99999999999999999999999x2", b'x'), None);
}

#[test]
fn parse_pair_splits_at_first_separator() {
    // "4x5x6": the first 'x' splits, leaving "5x6" unparsable.
    assert_eq!(parse_pair("4x5x6", b'x'), None);
}
