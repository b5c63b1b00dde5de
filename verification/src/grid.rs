//! The pixel grid and the hue-reflection transform over it.
//!
//! The transform of a pixel is a pure function of that pixel and the axis,
//! so rows may be processed in any order, or concurrently, without changing
//! the result: [`lemma_rows_independent`] states that the rows computed one
//! at a time are exactly the rows of the whole-grid pass. [`split_point`]
//! divides the rows as the worker dispatch wants them: a block of
//! `floor(height / workers) * workers` leading rows, one worker per row, and
//! a trailing remainder for the coordinating thread itself.

use crate::color::{
    chan_mix, hsv_to_rgb, hsv_to_rgb_spec, lemma_achromatic_mix, lemma_rgb_to_hsv_wf, rgb_to_hsv,
    rgb_to_hsv_spec, Hsv, Pixel,
};
use crate::reflect::{hsv_reflect, reflect_hue_num};
use vstd::prelude::*;
use vstd::arithmetic::div_mod::{
    lemma_fundamental_div_mod, lemma_mod_division_less_than_divisor,
};
use vstd::arithmetic::mul::{
    lemma_mul_inequality, lemma_mul_is_commutative, lemma_mul_is_distributive_add_other_way,
    lemma_mul_nonnegative,
};

verus! {

/// A width x height grid of pixels in row-major order.
#[derive(Debug)]
pub struct Grid {
    pub width: usize,
    pub height: usize,
    pub pixels: Vec<Pixel>,
}

/// Well-formedness of a grid: the pixel vector holds exactly one pixel per
/// coordinate.
pub open spec fn grid_wf(g: Grid) -> bool {
    g.pixels@.len() == g.width * g.height
}

/// The pixels of row `y`.
pub open spec fn row_of(g: Grid, y: int) -> Seq<Pixel> {
    g.pixels@.subrange(y * g.width, (y + 1) * g.width)
}

/// The HSV value after mirroring the hue about the axis.
pub open spec fn transform_hsv_spec(h: Hsv, axis_mdeg: int) -> Hsv {
    Hsv {
        hue_num: reflect_hue_num(h.hue_num as int, h.hue_den as int, axis_mdeg) as u32,
        hue_den: (1000 * h.hue_den) as u32,
        sat_num: h.sat_num,
        sat_den: h.sat_den,
        val_num: h.val_num,
        val_den: h.val_den,
    }
}

/// The pixel the transform produces: color converted to HSV, hue mirrored,
/// converted back to RGB, alpha carried through unmodified.
pub open spec fn transform_pixel_spec(p: Pixel, axis_mdeg: int) -> Pixel {
    let h = rgb_to_hsv_spec(p.r as int, p.g as int, p.b as int);
    let hr = transform_hsv_spec(h, axis_mdeg);
    let rgb = hsv_to_rgb_spec(hr);
    Pixel { r: rgb.0 as u8, g: rgb.1 as u8, b: rgb.2 as u8, a: p.a }
}

/// Every pixel of a sequence, transformed.
pub open spec fn transform_pixels(s: Seq<Pixel>, axis_mdeg: int) -> Seq<Pixel> {
    s.map_values(|p: Pixel| transform_pixel_spec(p, axis_mdeg))
}

/// The transform never touches the alpha channel: output alpha equals input
/// alpha, exactly, for every pixel and every axis.
pub proof fn lemma_alpha_preserved(p: Pixel, axis_mdeg: int)
    ensures
        transform_pixel_spec(p, axis_mdeg).a == p.a,
{
}

/// An achromatic pixel — pure black, pure white, any gray — is a fixed point
/// of the transform about every axis: its saturation is 0 (by definition for
/// black, where the naive chroma-over-max formula would divide by zero), so
/// the mirrored hue cannot show, and the pixel comes back unchanged, alpha
/// included.
pub proof fn lemma_achromatic_fixed_point(p: Pixel, axis_mdeg: int)
    requires
        p.r == p.g,
        p.g == p.b,
        0 <= axis_mdeg,
    ensures
        transform_pixel_spec(p, axis_mdeg) == p,
{
    let v = p.r as int;
    lemma_rgb_to_hsv_wf(v, v, v);
    let h = rgb_to_hsv_spec(v, v, v);
    let hr = transform_hsv_spec(h, axis_mdeg);
    lemma_mod_division_less_than_divisor(2 * axis_mdeg, 360000int);
    assert(hr.hue_num < 360000 && hr.hue_den == 1000);
    assert forall|t: int| 0 <= t implies chan_mix(hr, t) == v by {
        lemma_achromatic_mix(hr, v, t);
    }
}

/// Applies the hue reflection to one pixel. The three color channels are
/// replaced by the reflected color; the alpha channel is preserved exactly.
pub fn transform_pixel(p: Pixel, axis_mdeg: u32) -> (out: Pixel)
    requires
        axis_mdeg <= 360000,
    ensures
        out == transform_pixel_spec(p, axis_mdeg as int),
        out.a == p.a,
{
    proof {
        lemma_rgb_to_hsv_wf(p.r as int, p.g as int, p.b as int);
    }
    let h = rgb_to_hsv(&p);
    let hr = hsv_reflect(&h, axis_mdeg);
    let (r, g, b) = hsv_to_rgb(&hr);
    Pixel { r, g, b, a: p.a }
}

/// Transforms one row of the grid, left to right, returning the `width`
/// pixels that belong at row `y` of the output grid.
pub fn transform_row(g: &Grid, axis_mdeg: u32, y: usize) -> (row: Vec<Pixel>)
    requires
        grid_wf(*g),
        axis_mdeg <= 360000,
        y < g.height,
    ensures
        row@ == transform_pixels(row_of(*g, y as int), axis_mdeg as int),
{
    let w = g.width;
    let n = g.pixels.len();
    proof {
        lemma_mul_inequality(y as int + 1, g.height as int, w as int);
        lemma_mul_is_distributive_add_other_way(w as int, y as int, 1);
        lemma_mul_is_commutative(g.height as int, w as int);
    }
    let base: usize = y * w;
    let mut row: Vec<Pixel> = Vec::new();
    let mut x: usize = 0;
    while x < w
        invariant
            x <= w,
            w == g.width,
            base == y * w,
            n == g.pixels@.len(),
            base + w <= n,
            axis_mdeg <= 360000,
            row@.len() == x,
            forall|j: int|
                0 <= j < x ==> row@[j] == transform_pixel_spec(
                    g.pixels@[base + j],
                    axis_mdeg as int,
                ),
        decreases w - x,
    {
        let p = transform_pixel(g.pixels[base + x], axis_mdeg);
        row.push(p);
        x += 1;
    }
    proof {
        assert(row@ =~= transform_pixels(row_of(*g, y as int), axis_mdeg as int));
    }
    row
}

/// Transforms the whole grid in one synchronous pass. This is the single
/// entry point of the pipeline: the output grid has exactly the input's
/// dimensions, and every output pixel is the transform of the input pixel at
/// the same coordinates, alpha preserved.
pub fn transform_image(g: &Grid, axis_mdeg: u32) -> (out: Grid)
    requires
        grid_wf(*g),
        axis_mdeg <= 360000,
    ensures
        out.width == g.width,
        out.height == g.height,
        grid_wf(out),
        out.pixels@ == transform_pixels(g.pixels@, axis_mdeg as int),
{
    let n = g.pixels.len();
    let mut pixels: Vec<Pixel> = Vec::new();
    let mut i: usize = 0;
    while i < n
        invariant
            i <= n,
            n == g.pixels@.len(),
            axis_mdeg <= 360000,
            pixels@.len() == i,
            forall|j: int|
                0 <= j < i ==> pixels@[j] == transform_pixel_spec(
                    g.pixels@[j],
                    axis_mdeg as int,
                ),
        decreases n - i,
    {
        let p = transform_pixel(g.pixels[i], axis_mdeg);
        pixels.push(p);
        i += 1;
    }
    proof {
        assert(pixels@ =~= transform_pixels(g.pixels@, axis_mdeg as int));
    }
    Grid { width: g.width, height: g.height, pixels }
}

/// How many leading rows go to the one-row-per-worker dispatch: the largest
/// multiple of `workers` not exceeding `height`. The `height mod workers`
/// trailing rows are the coordinator's synchronous remainder; a worker count
/// of zero sends everything to the synchronous pass.
pub fn split_point(height: usize, workers: usize) -> (s: usize)
    ensures
        s <= height,
        workers == 0 ==> s == 0,
        workers > 0 ==> s == (height as int / workers as int) * workers,
        workers > 0 ==> height - s == height as int % workers as int,
{
    if workers == 0 {
        0
    } else {
        let q = height / workers;
        proof {
            lemma_fundamental_div_mod(height as int, workers as int);
            lemma_mod_division_less_than_divisor(height as int, workers as int);
            lemma_mul_is_commutative(q as int, workers as int);
        }
        q * workers
    }
}

/// Scheduling independence: the rows of the synchronous whole-grid pass are
/// exactly the rows [`transform_row`] computes one at a time. However the
/// rows are divided among workers — all to one worker, or one row each —
/// assembling the per-row results reproduces the synchronous output pixel
/// for pixel.
pub proof fn lemma_rows_independent(g: Grid, axis_mdeg: int, y: int)
    requires
        grid_wf(g),
        0 <= y < g.height,
    ensures
        transform_pixels(g.pixels@, axis_mdeg).subrange(y * g.width, (y + 1) * g.width)
            == transform_pixels(row_of(g, y), axis_mdeg),
{
    let w = g.width as int;
    let lo = y * w;
    let hi = (y + 1) * w;
    lemma_mul_nonnegative(y, w);
    lemma_mul_is_distributive_add_other_way(w, y, 1);
    lemma_mul_inequality(y + 1, g.height as int, w);
    lemma_mul_is_commutative(g.height as int, w);
    assert(0 <= lo && hi == lo + w && hi <= g.pixels@.len());
    let lhs = transform_pixels(g.pixels@, axis_mdeg).subrange(lo, hi);
    let rhs = transform_pixels(row_of(g, y), axis_mdeg);
    assert forall|i: int| 0 <= i < w implies lhs[i] == rhs[i] by {
        assert(row_of(g, y)[i] == g.pixels@[lo + i]);
        assert(lhs[i] == transform_pixels(g.pixels@, axis_mdeg)[lo + i]);
    }
    assert(lhs =~= rhs);
}

/// The first `k` per-row results, concatenated, are the first `k * width`
/// pixels of the synchronous whole-grid pass.
proof fn lemma_rows_assemble_prefix(g: Grid, axis_mdeg: int, rows: Seq<Seq<Pixel>>, k: int)
    requires
        grid_wf(g),
        rows.len() == g.height,
        forall|y: int|
            0 <= y < g.height ==> rows[y] == transform_pixels(row_of(g, y), axis_mdeg),
        0 <= k <= g.height,
    ensures
        rows.subrange(0, k).flatten() == transform_pixels(g.pixels@, axis_mdeg).subrange(
            0,
            k * g.width,
        ),
    decreases k,
{
    let w = g.width as int;
    let out = transform_pixels(g.pixels@, axis_mdeg);
    lemma_mul_inequality(k, g.height as int, w);
    lemma_mul_is_commutative(g.height as int, w);
    if k == 0 {
        assert(rows.subrange(0, 0) =~= Seq::<Seq<Pixel>>::empty());
        assert(rows.subrange(0, 0).flatten() =~= out.subrange(0, 0));
    } else {
        lemma_rows_assemble_prefix(g, axis_mdeg, rows, k - 1);
        let prefix = rows.subrange(0, k - 1);
        assert(rows.subrange(0, k) =~= prefix.push(rows[k - 1]));
        prefix.lemma_flatten_push(rows[k - 1]);
        lemma_rows_independent(g, axis_mdeg, k - 1);
        lemma_mul_is_distributive_add_other_way(w, k - 1, 1);
        lemma_mul_nonnegative(k - 1, w);
        assert(out.subrange(0, k * w) =~= out.subrange(0, (k - 1) * w) + out.subrange(
            (k - 1) * w,
            k * w,
        ));
    }
}

/// Full scheduling independence: whatever computed the individual rows — one
/// synchronous pass, one worker per row, or anything between — concatenating
/// the per-row results in row order is byte for byte the output of the
/// synchronous whole-grid pass.
pub proof fn lemma_assembled_rows_match(g: Grid, axis_mdeg: int, rows: Seq<Seq<Pixel>>)
    requires
        grid_wf(g),
        rows.len() == g.height,
        forall|y: int|
            0 <= y < g.height ==> rows[y] == transform_pixels(row_of(g, y), axis_mdeg),
    ensures
        rows.flatten() == transform_pixels(g.pixels@, axis_mdeg),
{
    lemma_rows_assemble_prefix(g, axis_mdeg, rows, g.height as int);
    lemma_mul_is_commutative(g.height as int, g.width as int);
    assert(rows.subrange(0, g.height as int) =~= rows);
    assert(transform_pixels(g.pixels@, axis_mdeg).subrange(
        0,
        g.height as int * g.width as int,
    ) =~= transform_pixels(g.pixels@, axis_mdeg));
}

} // verus!
