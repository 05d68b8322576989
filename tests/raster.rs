use mandelbrot::escape::EscapeTracker;
use mandelbrot::raster::{intensity, pixel_count, pixel_index, render_escapes, ITERATION_LIMIT};
use num::Complex;

fn point_of(
    bounds: (usize, usize),
    pixel: (usize, usize),
    upper_left: Complex<f64>,
    lower_right: Complex<f64>,
) -> Complex<f64> {
    let width = lower_right.re - upper_left.re;
    let height = upper_left.im - lower_right.im;
    Complex {
        re: upper_left.re + pixel.0 as f64 * width / bounds.0 as f64,
        im: upper_left.im - pixel.1 as f64 * height / bounds.1 as f64,
    }
}

fn escape_of(c: Complex<f64>, limit: usize) -> Option<usize> {
    let mut tracker = EscapeTracker::new(limit);
    let mut z = Complex { re: 0.0, im: 0.0 };
    while tracker.running() {
        if let Some(k) = tracker.observe(z.norm_sqr() > 4.0) {
            return Some(k);
        }
        z = z * z + c;
    }
    tracker.verdict()
}

#[test]
fn pixel_count_of_bounds() {
    assert_eq!(pixel_count((100, 75)), Some(7500));
    assert_eq!(pixel_count((0, 75)), Some(0));
    assert_eq!(pixel_count((usize::MAX, 2)), None);
}

#[test]
fn pixel_index_is_row_major() {
    assert_eq!(pixel_index((100, 75), (0, 0)), 0);
    assert_eq!(pixel_index((100, 75), (99, 0)), 99);
    assert_eq!(pixel_index((100, 75), (0, 1)), 100);
    assert_eq!(pixel_index((100, 75), (99, 74)), 7499);
}

#[test]
fn intensity_of_escape_results() {
    assert_eq!(intensity(None), 0);
    assert_eq!(intensity(Some(0)), 255);
    assert_eq!(intensity(Some(1)), 254);
    assert_eq!(intensity(Some(254)), 1);
    assert_eq!(intensity(Some(ITERATION_LIMIT)), 0);
}

#[test]
fn render_writes_every_pixel_in_row_major_order() {
    let mut pixels = vec![7u8; 12];
    render_escapes(&mut pixels, (4, 3), |column, row| {
        if column == 3 && row == 2 {
            None
        } else {
            Some(row * 4 + column)
        }
    });
    let expected: Vec<u8> = vec![255, 254, 253, 252, 251, 250, 249, 248, 247, 246, 245, 0];
    assert_eq!(pixels, expected);
}

#[test]
fn render_end_to_end() {
    let bounds = (100, 75);
    let upper_left = Complex { re: -1.20, im: 0.35 };
    let lower_right = Complex { re: -1.0, im: 0.20 };
    let mut pixels = vec![0u8; pixel_count(bounds).unwrap()];
    render_escapes(&mut pixels, bounds, |column, row| {
        escape_of(point_of(bounds, (column, row), upper_left, lower_right), ITERATION_LIMIT)
    });
    assert_eq!(pixels.len(), 7500);
    assert_eq!(pixels[0], intensity(escape_of(upper_left, ITERATION_LIMIT)));
    let last = point_of(bounds, (99, 74), upper_left, lower_right);
    assert_eq!(pixels[7499], intensity(escape_of(last, ITERATION_LIMIT)));
}

#[test]
fn origin_is_bounded_for_every_limit() {
    for limit in 1..=255 {
        assert_eq!(escape_of(Complex { re: 0.0, im: 0.0 }, limit), None);
    }
}

#[test]
fn escaping_point_keeps_its_count() {
    let c = Complex { re: 5.0, im: 5.0 };
    assert_eq!(escape_of(c, 2), Some(1));
    assert_eq!(escape_of(c, 10), Some(1));
    assert_eq!(escape_of(c, ITERATION_LIMIT), Some(1));
    assert_eq!(escape_of(c, 1), None);
}
