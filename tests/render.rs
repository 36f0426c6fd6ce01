use mandelbrot::color::colorize;
use mandelbrot::render::{flatten, plan_bands, render_band};

#[test]
fn colorize_never_escaped_is_black() {
    assert_eq!(colorize(None), [0, 0, 0]);
}

#[test]
fn colorize_escaped_at_once() {
    // energy 255: the blue channel's divisor is 0, and blue is defined as 0
    assert_eq!(colorize(Some(0)), [255, 0, 0]);
}

#[test]
fn colorize_formula_values() {
    assert_eq!(colorize(Some(1)), [254, 254, 254]);
    assert_eq!(colorize(Some(100)), [155, 140, 1]);
    assert_eq!(colorize(Some(200)), [55, 248, 0]);
    assert_eq!(colorize(Some(254)), [1, 254, 0]);
    assert_eq!(colorize(Some(255)), [0, 0, 0]);
}

#[test]
fn colorize_darker_with_more_iterations() {
    let mut previous = colorize(Some(0))[0];
    for count in 1..255usize {
        let red = colorize(Some(count))[0];
        assert!(red < previous);
        previous = red;
    }
}

#[test]
fn render_band_row_major() {
    let mut pixels = vec![[9u8, 9, 9]; 6];
    render_band(&mut pixels, (3, 2), |column, row| Some(column + 10 * row));
    assert_eq!(pixels[0], colorize(Some(0)));
    assert_eq!(pixels[1], colorize(Some(1)));
    assert_eq!(pixels[2], colorize(Some(2)));
    assert_eq!(pixels[3], colorize(Some(10)));
    assert_eq!(pixels[4], colorize(Some(11)));
    assert_eq!(pixels[5], colorize(Some(12)));
}

#[test]
fn render_single_pixel_at_origin_is_black() {
    // the origin never escapes, so its escape test reports no escape
    let mut pixels = vec![[7u8, 7, 7]; 1];
    render_band(&mut pixels, (1, 1), |_, _| None);
    assert_eq!(pixels, vec![[0, 0, 0]]);
}

#[test]
fn render_empty_band() {
    let mut pixels: Vec<[u8; 3]> = Vec::new();
    render_band(&mut pixels, (0, 5), |_, _| Some(3));
    assert!(pixels.is_empty());
}

fn escape(column: usize, row: usize) -> Option<usize> {
    if (column * 7 + row * 3) % 5 == 0 {
        None
    } else {
        Some((column * 31 + row * 17) % 255)
    }
}

#[test]
fn render_twice_same_pixels() {
    let mut first = vec![[0u8, 0, 0]; 20];
    let mut second = vec![[1u8, 2, 3]; 20];
    render_band(&mut first, (5, 4), escape);
    render_band(&mut second, (5, 4), escape);
    assert_eq!(first, second);
}

#[test]
fn render_by_bands_matches_whole() {
    let bounds = (5usize, 4usize);
    let mut whole = vec![[0u8, 0, 0]; 20];
    render_band(&mut whole, bounds, escape);

    let mut banded = vec![[0u8, 0, 0]; 20];
    let bands = plan_bands(bounds);
    for (band, chunk) in bands.iter().zip(banded.chunks_mut(bounds.0)) {
        let top = band.top;
        render_band(chunk, band.bounds, |column, row| escape(column, top + row));
    }
    assert_eq!(whole, banded);
}

#[test]
fn plan_bands_one_per_row() {
    let bands = plan_bands((4, 3));
    assert_eq!(bands.len(), 3);
    for (i, band) in bands.iter().enumerate() {
        assert_eq!(band.top, i);
        assert_eq!(band.start, 4 * i);
        assert_eq!(band.end, 4 * i + 4);
        assert_eq!(band.bounds, (4, 1));
        assert_eq!(band.upper_left, (0, i));
        assert_eq!(band.lower_right, (4, i + 1));
    }
}

#[test]
fn plan_bands_no_rows() {
    assert!(plan_bands((7, 0)).is_empty());
}

#[test]
fn flatten_rgb_order() {
    let pixels = vec![[1u8, 2, 3], [4, 5, 6]];
    assert_eq!(flatten(&pixels), vec![1, 2, 3, 4, 5, 6]);
    let none: Vec<[u8; 3]> = Vec::new();
    assert!(flatten(&none).is_empty());
}
