use hue_reflect::color::Pixel;
use hue_reflect::grid::{split_point, transform_image, transform_pixel, transform_row, Grid};

fn px(r: u8, g: u8, b: u8, a: u8) -> Pixel {
    Pixel { r, g, b, a }
}

fn sample_grid(width: usize, height: usize) -> Grid {
    let mut pixels = Vec::new();
    for y in 0..height {
        for x in 0..width {
            let v = (x * 31 + y * 57) % 256;
            pixels.push(px(v as u8, (255 - v) as u8, (v * 3 % 256) as u8, (y * 40 % 256) as u8));
        }
    }
    Grid { width, height, pixels }
}

#[test]
fn pure_red_about_axis_0_is_unchanged() {
    let out = transform_pixel(px(255, 0, 0, 255), 0);
    assert_eq!(out, px(255, 0, 0, 255));
}

#[test]
fn pure_red_about_axis_90_becomes_cyan() {
    let out = transform_pixel(px(255, 0, 0, 255), 90_000);
    assert_eq!(out, px(0, 255, 255, 255));
}

#[test]
fn pure_black_is_unchanged_about_every_axis() {
    for axis in [0u32, 15_000, 90_000, 135_000, 179_999] {
        let out = transform_pixel(px(0, 0, 0, 128), axis);
        assert_eq!(out, px(0, 0, 0, 128));
    }
}

#[test]
fn achromatic_pixels_are_fixed_points() {
    for v in [0u8, 9, 128, 254, 255] {
        for axis in [0u32, 45_000, 90_000, 179_999] {
            let input = px(v, v, v, 77);
            assert_eq!(transform_pixel(input, axis), input);
        }
    }
}

#[test]
fn alpha_is_preserved_exactly() {
    for a in [0u8, 1, 127, 200, 255] {
        for axis in [0u32, 60_000, 120_000] {
            let out = transform_pixel(px(13, 240, 99, a), axis);
            assert_eq!(out.a, a);
        }
    }
}

#[test]
fn dimensions_are_preserved() {
    let g = sample_grid(3, 2);
    let out = transform_image(&g, 42_000);
    assert_eq!(out.width, 3);
    assert_eq!(out.height, 2);
    assert_eq!(out.pixels.len(), 6);
}

#[test]
fn row_by_row_assembly_matches_the_synchronous_pass() {
    let g = sample_grid(4, 5);
    let axis = 77_000;
    let whole = transform_image(&g, axis);
    // two workers: four rows go to one-row workers, one row remains for the
    // coordinator; assembling the five rows must reproduce the synchronous
    // output byte for byte
    let workers = 2;
    let split = split_point(g.height, workers);
    assert_eq!(split, 4);
    let mut assembled: Vec<Pixel> = Vec::new();
    for y in 0..split {
        assembled.extend(transform_row(&g, axis, y));
    }
    for y in split..g.height {
        assembled.extend(transform_row(&g, axis, y));
    }
    assert_eq!(assembled, whole.pixels);
}

#[test]
fn worker_counts_do_not_change_the_output() {
    let g = sample_grid(3, 7);
    let axis = 133_000;
    let synchronous = transform_image(&g, axis);
    for workers in [1usize, 2, 3, 4, 7, 16] {
        let split = split_point(g.height, workers);
        let mut assembled: Vec<Pixel> = Vec::new();
        // the rows the one-row workers would compute
        for y in 0..split {
            assembled.extend(transform_row(&g, axis, y));
        }
        // the remainder rows the coordinator computes itself
        for y in split..g.height {
            assembled.extend(transform_row(&g, axis, y));
        }
        assert_eq!(assembled, synchronous.pixels);
    }
}

#[test]
fn split_point_partitions_rows() {
    assert_eq!(split_point(10, 4), 8);
    assert_eq!(split_point(10, 0), 0);
    assert_eq!(split_point(0, 3), 0);
    assert_eq!(split_point(7, 7), 7);
    assert_eq!(split_point(5, 8), 0);
    assert_eq!(split_point(9, 3), 9);
}

#[test]
fn transform_image_transforms_every_pixel_in_place() {
    let g = sample_grid(5, 3);
    let axis = 20_000;
    let out = transform_image(&g, axis);
    for i in 0..g.pixels.len() {
        assert_eq!(out.pixels[i], transform_pixel(g.pixels[i], axis));
    }
}
