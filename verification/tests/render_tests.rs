use mandelbrot::dispatch::generate_pixels;
use mandelbrot::dispatch::generate_pixels_with_tasks;
use mandelbrot::fixed::Complex;
use mandelbrot::fixed::MAX_COORD;
use mandelbrot::fixed::SCALE;
use mandelbrot::render::render;

// The viewport (-1.0, 1.0) .. (1.0, -1.0) in fixed point.
fn unit_viewport() -> (Complex, Complex) {
    (Complex { re: -SCALE, im: SCALE }, Complex { re: SCALE, im: -SCALE })
}

#[test]
fn hundred_square_center_is_black() {
    let (ul, lr) = unit_viewport();
    let pixels = generate_pixels(((100, 100), ul, lr));
    assert_eq!(pixels.len(), 10000);
    // Pixel (50, 50) maps to the origin, which never escapes.
    assert_eq!(pixels[50 * 100 + 50], 0);
}

#[test]
fn hundred_square_corner_is_near_white() {
    let (ul, lr) = unit_viewport();
    let pixels = generate_pixels(((100, 100), ul, lr));
    // Pixel (0, 0) maps to (-1.0, 1.0), which escapes at pass 2.
    assert_eq!(pixels[0], 253);
}

#[test]
fn single_pixel_grid() {
    let (ul, lr) = unit_viewport();
    let pixels = generate_pixels(((1, 1), ul, lr));
    assert_eq!(pixels.len(), 1);
    // The single pixel maps to the upper-left corner (-1.0, 1.0) exactly,
    // which escapes at pass 2, hence gray level 255 - 2.
    assert_eq!(pixels[0], 253);
}

#[test]
fn rendering_twice_is_identical() {
    let ul = Complex { re: -2 * SCALE, im: SCALE };
    let lr = Complex { re: SCALE / 2, im: -SCALE };
    let a = generate_pixels(((64, 48), ul, lr));
    let b = generate_pixels(((64, 48), ul, lr));
    assert_eq!(a, b);
}

#[test]
fn task_count_does_not_change_the_image() {
    let ul = Complex { re: -2 * SCALE, im: SCALE };
    let lr = Complex { re: SCALE / 2, im: -SCALE };
    let options = ((40, 30), ul, lr);
    let mut reference = vec![0u8; 40 * 30];
    render(&mut reference, (40, 30), ul, lr);
    let one = generate_pixels_with_tasks(options, 1);
    let two = generate_pixels_with_tasks(options, 2);
    let many = generate_pixels_with_tasks(options, 100);
    assert_eq!(one, reference);
    assert_eq!(two, reference);
    assert_eq!(many, reference);
}

#[test]
fn extreme_viewport_is_harmless() {
    // A degenerate (zero-area) viewport and the largest legal corners
    // both render without failing.
    let p = Complex { re: SCALE, im: SCALE };
    let flat = generate_pixels(((8, 8), p, p));
    assert_eq!(flat.len(), 64);
    let far_ul = Complex { re: -MAX_COORD, im: MAX_COORD };
    let far_lr = Complex { re: MAX_COORD, im: -MAX_COORD };
    let wide = generate_pixels(((4, 4), far_ul, far_lr));
    assert_eq!(wide.len(), 16);
}
