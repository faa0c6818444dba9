use mandelbrot::dispatch::{band_corners, render_band, render_bands};
use mandelbrot::bands::{bands, Band};
use mandelbrot::render::{render, render_pixel, ITERATION_LIMIT};
use mandelbrot::shade::shade;
use num::Complex;

fn escape_time(c: Complex<f64>, limit: usize) -> Option<usize> {
    let mut z = Complex { re: 0.0, im: 0.0 };
    for i in 0..limit {
        if z.norm_sqr() > 4.0 {
            return Some(i);
        }
        z = z * z + c;
    }
    None
}

fn pixel_to_point(
    bounds: (usize, usize),
    pixel: (usize, usize),
    upper_left: Complex<f64>,
    lower_right: Complex<f64>,
) -> Complex<f64> {
    let (width, height) = (
        lower_right.re - upper_left.re,
        upper_left.im - lower_right.im,
    );
    Complex {
        re: upper_left.re + pixel.0 as f64 * width / bounds.0 as f64,
        im: upper_left.im - pixel.1 as f64 * height / bounds.1 as f64,
    }
}

fn grid_point(
    _bounds: (usize, usize),
    pixel: (usize, usize),
    upper_left: (usize, usize),
    _lower_right: (usize, usize),
) -> (usize, usize) {
    (upper_left.0 + pixel.0, upper_left.1 + pixel.1)
}

fn grid_escape(point: (usize, usize), limit: usize) -> Option<usize> {
    let count = point.1 * 7 + point.0;
    if count < limit {
        Some(count)
    } else {
        None
    }
}

#[test]
fn shade_is_black_for_none_and_brighter_for_sooner() {
    assert_eq!(shade(None), 0);
    assert_eq!(shade(Some(0)), 255);
    assert_eq!(shade(Some(1)), 254);
    assert_eq!(shade(Some(254)), 1);
    assert_eq!(shade(Some(255)), 0);
    assert_eq!(shade(Some(256)), 255);
}

#[test]
fn the_iteration_limit_fits_a_byte() {
    assert_eq!(ITERATION_LIMIT, 255);
}

#[test]
fn render_pixel_shades_the_escape_count_of_the_pixels_point() {
    assert_eq!(
        render_pixel((7, 5), (3, 2), (0, 0), (7, 5), &grid_point, &grid_escape),
        255 - 17
    );
    assert_eq!(
        render_pixel((7, 50), (3, 40), (0, 0), (7, 50), &grid_point, &grid_escape),
        0
    );
}

#[test]
fn render_writes_every_pixel_row_by_row() {
    let mut pixels = vec![9u8; 35];
    render(&mut pixels, (7, 5), (0, 0), (7, 5), &grid_point, &grid_escape);
    for row in 0..5 {
        for column in 0..7 {
            assert_eq!(pixels[row * 7 + column] as usize, 255 - (row * 7 + column));
        }
    }
}

#[test]
fn render_asks_for_the_limit_of_255() {
    let mut pixels = vec![9u8; 2];
    let limit_seen = |_point: usize, limit: usize| Some(limit - 250);
    let first = |_b: (usize, usize), _p: (usize, usize), ul: usize, _lr: usize| ul;
    render(&mut pixels, (2, 1), 0, 0, &first, &limit_seen);
    assert_eq!(pixels, vec![250, 250]);
}

#[test]
fn render_of_an_empty_image_writes_nothing() {
    let mut pixels: Vec<u8> = Vec::new();
    render(&mut pixels, (0, 5), (0, 0), (0, 5), &grid_point, &grid_escape);
    assert_eq!(pixels, Vec::<u8>::new());
    render(&mut pixels, (5, 0), (0, 0), (5, 0), &grid_point, &grid_escape);
    assert_eq!(pixels, Vec::<u8>::new());
}

#[test]
fn render_of_one_pixel_is_the_escape_time_of_the_upper_left_corner() {
    let corners = [
        (Complex { re: -1.2, im: 0.35 }, Complex { re: -1.0, im: 0.2 }),
        (Complex { re: 0.0, im: 0.0 }, Complex { re: 1.0, im: -1.0 }),
        (Complex { re: 1.0, im: 1.0 }, Complex { re: 2.0, im: 0.0 }),
        (Complex { re: 3.0, im: 0.0 }, Complex { re: 4.0, im: -1.0 }),
    ];
    for (upper_left, lower_right) in corners {
        let mut pixels = vec![9u8; 1];
        render(
            &mut pixels,
            (1, 1),
            upper_left,
            lower_right,
            &pixel_to_point,
            &escape_time,
        );
        assert_eq!(pixels[0], shade(escape_time(upper_left, 255)));
    }
}

#[test]
fn render_of_the_set_is_black_inside_and_bright_outside() {
    let mut pixels = vec![9u8; 16];
    render(
        &mut pixels,
        (4, 4),
        Complex { re: -2.0, im: 2.0 },
        Complex { re: 2.0, im: -2.0 },
        &pixel_to_point,
        &escape_time,
    );
    // the pixel of the origin: the point 0 never escapes
    assert_eq!(pixels[2 * 4 + 2], 0);
    // the pixel of -2 + 2i: its norm is over 2 after one step
    assert_eq!(pixels[0], 254);
    // the pixel of -1: it stays in the cycle 0, -1
    assert_eq!(pixels[2 * 4 + 1], 0);
    // the pixel of 1: 0, 1, 2, 5, and 25 is over 4
    assert_eq!(pixels[2 * 4 + 3], 252);
}

#[test]
fn band_corners_are_the_points_of_the_bands_first_and_past_last_pixel() {
    let corners = band_corners(
        (100, 200),
        Band { top: 50, height: 125 },
        Complex { re: -1.0, im: 1.0 },
        Complex { re: 1.0, im: -1.0 },
        &pixel_to_point,
    );
    assert_eq!(corners.0, Complex { re: -1.0, im: 0.5 });
    assert_eq!(corners.1, Complex { re: 1.0, im: -0.75 });
    let whole = band_corners((7, 5), Band { top: 2, height: 3 }, (0, 0), (7, 5), &grid_point);
    assert_eq!(whole, ((0, 2), (7, 5)));
}

#[test]
fn render_band_renders_the_band_between_its_corners() {
    let mut chunk = vec![9u8; 14];
    render_band(
        &mut chunk,
        (7, 5),
        Band { top: 2, height: 2 },
        (0, 0),
        (7, 5),
        &grid_point,
        &grid_escape,
    );
    for row in 0..2 {
        for column in 0..7 {
            assert_eq!(chunk[row * 7 + column] as usize, 255 - ((row + 2) * 7 + column));
        }
    }
}

#[test]
fn render_bands_gives_the_image_of_a_single_band() {
    for threads in 1..10 {
        for height in 0..30 {
            let mut banded = vec![9u8; 7 * height];
            let mut whole = vec![9u8; 7 * height];
            render_bands(
                &mut banded,
                (7, height),
                threads,
                (0, 0),
                (7, height),
                &grid_point,
                &grid_escape,
            );
            render(&mut whole, (7, height), (0, 0), (7, height), &grid_point, &grid_escape);
            assert_eq!(banded, whole);
        }
    }
}

#[test]
fn render_bands_of_the_set_gives_the_image_of_a_single_band() {
    let upper_left = Complex { re: -2.0, im: 2.0 };
    let lower_right = Complex { re: 2.0, im: -2.0 };
    let mut banded = vec![9u8; 8 * 16];
    let mut whole = vec![9u8; 8 * 16];
    render_bands(
        &mut banded,
        (8, 16),
        8,
        upper_left,
        lower_right,
        &pixel_to_point,
        &escape_time,
    );
    render(&mut whole, (8, 16), upper_left, lower_right, &pixel_to_point, &escape_time);
    assert_eq!(banded, whole);
    assert!(whole.iter().any(|&level| level == 0));
    assert!(whole.iter().any(|&level| level > 200));
}

#[test]
fn render_bands_writes_every_row_of_a_height_that_the_workers_do_not_divide() {
    let mut pixels = vec![9u8; 3 * 201];
    // the point of a pixel is the row of the image that it lies in
    let row_of = |_b: (usize, usize), pixel: (usize, usize), top: usize, _bottom: usize| {
        top + pixel.1
    };
    let count_of = |row: usize, _limit: usize| Some(row);
    render_bands(&mut pixels, (3, 201), 8, 0, 201, &row_of, &count_of);
    for row in 0..201 {
        for column in 0..3 {
            assert_eq!(pixels[row * 3 + column] as usize, 255 - row);
        }
    }
}

#[test]
fn the_workers_bands_put_together_are_the_image() {
    let height = 201;
    let mut whole = vec![9u8; 5 * height];
    render(&mut whole, (5, height), (0, 0), (5, height), &grid_point, &grid_escape);
    let mut pieces: Vec<u8> = Vec::new();
    for band in bands(height, 8) {
        let mut chunk = vec![9u8; 5 * band.height];
        render_band(
            &mut chunk,
            (5, height),
            band,
            (0, 0),
            (5, height),
            &grid_point,
            &grid_escape,
        );
        pieces.extend(chunk);
    }
    assert_eq!(pieces, whole);
}
