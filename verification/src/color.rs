//! Bidirectional conversion between 8-bit RGB and an exact HSV
//! representation.
//!
//! HSV components are kept as exact fractions of machine integers instead of
//! floating-point numbers: hue is `hue_num / hue_den` degrees in `[0, 360)`,
//! saturation is `sat_num / sat_den` percent in `[0, 100]`, and value is
//! `val_num / val_den` percent in `[0, 100]`. The fractions produced by
//! `rgb_to_hsv` are exact, so no precision is lost anywhere in the pipeline.

use vstd::prelude::*;
use vstd::arithmetic::div_mod::{
    lemma_div_by_multiple, lemma_div_is_ordered, lemma_div_pos_is_pos,
};

verus! {

/// One pixel: three 8-bit color channels plus an 8-bit alpha channel.
#[derive(Clone, Copy, Debug, PartialEq, Eq, Structural)]
pub struct Pixel {
    pub r: u8,
    pub g: u8,
    pub b: u8,
    pub a: u8,
}

/// An HSV color, held as exact fractions.
///
/// Hue is `hue_num / hue_den` degrees, saturation `sat_num / sat_den`
/// percent, value `val_num / val_den` percent. Well-formed values satisfy
/// [`hsv_wf`].
#[derive(Clone, Copy, Debug, PartialEq, Eq, Structural)]
pub struct Hsv {
    pub hue_num: u32,
    pub hue_den: u32,
    pub sat_num: u32,
    pub sat_den: u32,
    pub val_num: u32,
    pub val_den: u32,
}

/// Largest denominator a well-formed [`Hsv`] may carry; keeps every
/// intermediate product of the conversions inside fixed-width integers.
pub const MAX_DEN: u32 = 1000000;

/// Well-formedness of an [`Hsv`] value: denominators are positive and small
/// enough that conversion arithmetic cannot overflow, hue lies in
/// `[0, 360)` degrees, saturation and value lie in `[0, 100]` percent.
pub open spec fn hsv_wf(h: Hsv) -> bool {
    &&& 1 <= h.hue_den <= MAX_DEN
    &&& h.hue_num < 360 * h.hue_den
    &&& 1 <= h.sat_den <= MAX_DEN
    &&& h.sat_num <= 100 * h.sat_den
    &&& 1 <= h.val_den <= MAX_DEN
    &&& h.val_num <= 100 * h.val_den
}

/// The largest of the three color channels, ties broken in favor of the
/// earlier channel in the order red, green, blue.
pub open spec fn max3(r: int, g: int, b: int) -> int {
    if r >= g && r >= b {
        r
    } else if g >= b {
        g
    } else {
        b
    }
}

/// The smallest of the three color channels.
pub open spec fn min3(r: int, g: int, b: int) -> int {
    if r <= g && r <= b {
        r
    } else if g <= b {
        g
    } else {
        b
    }
}

/// Chroma: the spread between the largest and smallest channel.
pub open spec fn chroma_of(r: int, g: int, b: int) -> int {
    max3(r, g, b) - min3(r, g, b)
}

/// Denominator of the exact hue fraction produced from an RGB triple:
/// the chroma, or 1 for achromatic pixels (whose hue is 0/1).
pub open spec fn hue_den_of(r: int, g: int, b: int) -> int {
    if chroma_of(r, g, b) == 0 {
        1
    } else {
        chroma_of(r, g, b)
    }
}

/// Numerator of the exact hue fraction produced from an RGB triple, already
/// wrapped into `[0, 360 * chroma)`. The sector is chosen by which channel
/// attains the maximum, ties broken in the order red, green, blue; an
/// achromatic pixel gets hue 0.
pub open spec fn hue_num_of(r: int, g: int, b: int) -> int {
    let c = chroma_of(r, g, b);
    if c == 0 {
        0
    } else if r >= g && r >= b {
        if g >= b {
            60 * (g - b)
        } else {
            360 * c - 60 * (b - g)
        }
    } else if g >= b {
        120 * c + 60 * (b - r)
    } else {
        240 * c + 60 * (r - g)
    }
}

/// Numerator of the exact saturation fraction: `100 * chroma / max`, with
/// the division-by-zero case of a pure black pixel defined as saturation 0.
pub open spec fn sat_num_of(r: int, g: int, b: int) -> int {
    if max3(r, g, b) == 0 {
        0
    } else {
        100 * chroma_of(r, g, b)
    }
}

/// Denominator of the exact saturation fraction.
pub open spec fn sat_den_of(r: int, g: int, b: int) -> int {
    if max3(r, g, b) == 0 {
        1
    } else {
        max3(r, g, b)
    }
}

/// The HSV value a given RGB triple converts to.
pub open spec fn rgb_to_hsv_spec(r: int, g: int, b: int) -> Hsv {
    Hsv {
        hue_num: hue_num_of(r, g, b) as u32,
        hue_den: hue_den_of(r, g, b) as u32,
        sat_num: sat_num_of(r, g, b) as u32,
        sat_den: sat_den_of(r, g, b) as u32,
        val_num: (100 * max3(r, g, b)) as u32,
        val_den: 255,
    }
}

/// Converts a pixel's color channels to HSV (the alpha channel does not
/// participate). The result is the exact HSV representation of the input:
/// value is `max/255 * 100`, saturation is `chroma/max * 100` (0 for pure
/// black), and hue is the standard 6-sector angle in `[0, 360)`.
pub fn rgb_to_hsv(p: &Pixel) -> (h: Hsv)
    ensures
        h == rgb_to_hsv_spec(p.r as int, p.g as int, p.b as int),
        hsv_wf(h),
        h.hue_den <= 255,
{
    let r = p.r;
    let g = p.g;
    let b = p.b;
    let max: u8 = if r >= g && r >= b {
        r
    } else if g >= b {
        g
    } else {
        b
    };
    let min: u8 = if r <= g && r <= b {
        r
    } else if g <= b {
        g
    } else {
        b
    };
    let c: u32 = max as u32 - min as u32;
    let hue_num: u32 = if c == 0 {
        0
    } else if r >= g && r >= b {
        if g >= b {
            60 * (g as u32 - b as u32)
        } else {
            360 * c - 60 * (b as u32 - g as u32)
        }
    } else if g >= b {
        120 * c + 60 * (b as u32) - 60 * (r as u32)
    } else {
        240 * c + 60 * (r as u32) - 60 * (g as u32)
    };
    let hue_den: u32 = if c == 0 {
        1
    } else {
        c
    };
    let (sat_num, sat_den): (u32, u32) = if max == 0 {
        (0, 1)
    } else {
        (100 * c, max as u32)
    };
    Hsv {
        hue_num,
        hue_den,
        sat_num,
        sat_den,
        val_num: 100 * (max as u32),
        val_den: 255,
    }
}

/// The conversion from an RGB triple always yields a well-formed [`Hsv`]
/// whose fields are exactly the unbounded fractions of the component spec
/// functions (none of the casts truncates).
pub proof fn lemma_rgb_to_hsv_wf(r: int, g: int, b: int)
    requires
        0 <= r <= 255,
        0 <= g <= 255,
        0 <= b <= 255,
    ensures
        hsv_wf(rgb_to_hsv_spec(r, g, b)),
        rgb_to_hsv_spec(r, g, b).hue_num == hue_num_of(r, g, b),
        rgb_to_hsv_spec(r, g, b).hue_den == hue_den_of(r, g, b),
        rgb_to_hsv_spec(r, g, b).sat_num == sat_num_of(r, g, b),
        rgb_to_hsv_spec(r, g, b).sat_den == sat_den_of(r, g, b),
        rgb_to_hsv_spec(r, g, b).val_num == 100 * max3(r, g, b),
        rgb_to_hsv_spec(r, g, b).val_den == 255,
        rgb_to_hsv_spec(r, g, b).hue_den <= 255,
{
}

/// Numerator of `255 * channel` over the common denominator [`mix_den`],
/// where the channel is `min + t * chroma` for the interpolation fraction
/// `t = t_num / (60 * hue_den)` (`t_num == 0` selects the `min` channel and
/// `t_num == 60 * hue_den` the `max` channel).
pub open spec fn mix_num(h: Hsv, t_num: int) -> int {
    255 * h.val_num * (60 * h.hue_den * (100 * h.sat_den - h.sat_num) + t_num * h.sat_num)
}

/// Common denominator of the channel reconstruction arithmetic.
pub open spec fn mix_den(h: Hsv) -> int {
    10000 * h.sat_den * h.val_den * (60 * h.hue_den)
}

/// The 8-bit value of one reconstructed channel: `255 * (min + t * chroma)`
/// truncated toward zero, computed exactly on integers.
pub open spec fn chan_mix(h: Hsv, t_num: int) -> int {
    mix_num(h, t_num) / mix_den(h)
}

/// The RGB triple a well-formed HSV value converts back to, one channel per
/// 60-degree hue sector of the standard wheel. Truncation (not rounding)
/// toward zero quantizes each channel to 8 bits; on fractions produced by
/// [`rgb_to_hsv`] the arithmetic is exact, so nothing is actually lost.
pub open spec fn hsv_to_rgb_spec(h: Hsv) -> (int, int, int) {
    let hn = h.hue_num as int;
    let hd = h.hue_den as int;
    if hn < 60 * hd {
        (chan_mix(h, 60 * hd), chan_mix(h, hn), chan_mix(h, 0))
    } else if hn < 120 * hd {
        (chan_mix(h, 120 * hd - hn), chan_mix(h, 60 * hd), chan_mix(h, 0))
    } else if hn < 180 * hd {
        (chan_mix(h, 0), chan_mix(h, 60 * hd), chan_mix(h, hn - 120 * hd))
    } else if hn < 240 * hd {
        (chan_mix(h, 0), chan_mix(h, 240 * hd - hn), chan_mix(h, 60 * hd))
    } else if hn < 300 * hd {
        (chan_mix(h, hn - 240 * hd), chan_mix(h, 0), chan_mix(h, 60 * hd))
    } else {
        (chan_mix(h, 60 * hd), chan_mix(h, 0), chan_mix(h, 360 * hd - hn))
    }
}

/// Every reconstructed channel of a well-formed HSV value fits in 8 bits.
pub proof fn lemma_chan_mix_bounds(h: Hsv, t: int)
    requires
        hsv_wf(h),
        0 <= t <= 60 * h.hue_den,
    ensures
        mix_den(h) >= 1,
        0 <= mix_num(h, t) <= 255 * mix_den(h),
        0 <= chan_mix(h, t) <= 255,
{
    let hd = h.hue_den as int;
    let sn = h.sat_num as int;
    let sd = h.sat_den as int;
    let vn = h.val_num as int;
    let vd = h.val_den as int;
    assert(10000 * sd * vd * (60 * hd) >= 1 && 0 <= 255 * vn * (60 * hd * (100 * sd - sn) + t
        * sn) && 255 * vn * (60 * hd * (100 * sd - sn) + t * sn) <= 255 * (10000 * sd * vd * (60
        * hd))) by (nonlinear_arith)
        requires
            1 <= hd,
            1 <= sd,
            1 <= vd,
            0 <= sn <= 100 * sd,
            0 <= vn <= 100 * vd,
            0 <= t <= 60 * hd;
    assert(mix_den(h) == 10000 * sd * vd * (60 * hd));
    assert(mix_num(h, t) == 255 * vn * (60 * hd * (100 * sd - sn) + t * sn));
    lemma_div_is_ordered(mix_num(h, t), 255 * mix_den(h), mix_den(h));
    lemma_div_by_multiple(255, mix_den(h));
    lemma_div_pos_is_pos(mix_num(h, t), mix_den(h));
}

/// When the reconstruction fraction is exactly an integer `q`, truncation
/// returns `q` itself.
proof fn lemma_mix_exact(h: Hsv, t: int, q: int)
    requires
        mix_den(h) >= 1,
        0 <= q,
        mix_num(h, t) == q * mix_den(h),
    ensures
        chan_mix(h, t) == q,
{
    lemma_div_by_multiple(q, mix_den(h));
}

/// On the fractions produced from an RGB triple with maximum channel `big`
/// and minimum channel `small < big`, the reconstruction of a channel with
/// interpolation numerator `60 * k` is exactly `small + k`.
proof fn lemma_pipeline_mix_exact(h: Hsv, big: int, small: int, k: int)
    requires
        0 <= small,
        small < big,
        big <= 255,
        h.hue_den == big - small,
        h.sat_num == 100 * (big - small),
        h.sat_den == big,
        h.val_num == 100 * big,
        h.val_den == 255,
        0 <= k <= big - small,
    ensures
        chan_mix(h, 60 * k) == small + k,
{
    let c = big - small;
    assert(255 * (100 * big) * (60 * c * (100 * big - 100 * c) + (60 * k) * (100 * c)) == (small
        + k) * (10000 * big * 255 * (60 * c)) && 10000 * big * 255 * (60 * c) >= 1)
        by (nonlinear_arith)
        requires
            c == big - small,
            0 <= small,
            small < big;
    assert(mix_num(h, 60 * k) == 255 * (100 * big) * (60 * c * (100 * big - 100 * c) + (60 * k)
        * (100 * c)));
    assert(mix_den(h) == 10000 * big * 255 * (60 * c));
    lemma_mix_exact(h, 60 * k, small + k);
}

/// On an achromatic fraction (saturation 0, value `v` out of 255), every
/// channel reconstructs to exactly `v`, whatever the hue.
pub proof fn lemma_achromatic_mix(h: Hsv, v: int, t: int)
    requires
        0 <= v <= 255,
        1 <= h.hue_den,
        1 <= h.sat_den,
        h.sat_num == 0,
        h.val_num == 100 * v,
        h.val_den == 255,
        0 <= t,
    ensures
        chan_mix(h, t) == v,
{
    let hd = h.hue_den as int;
    let sd = h.sat_den as int;
    assert(255 * (100 * v) * (60 * hd * (100 * sd - 0) + t * 0) == v * (10000 * sd * 255 * (60
        * hd)) && 10000 * sd * 255 * (60 * hd) >= 1) by (nonlinear_arith)
        requires
            1 <= hd,
            1 <= sd,
            0 <= v;
    assert(mix_num(h, t) == 255 * (100 * v) * (60 * hd * (100 * sd - 0) + t * 0));
    assert(mix_den(h) == 10000 * sd * 255 * (60 * hd));
    lemma_mix_exact(h, t, v);
}

/// One reconstructed channel, computed with exact integer arithmetic and a
/// final truncating division.
fn chan_mix_exec(h: &Hsv, t_num: u32) -> (c: u8)
    requires
        hsv_wf(*h),
        t_num <= 60 * h.hue_den,
    ensures
        c as int == chan_mix(*h, t_num as int),
{
    proof {
        lemma_chan_mix_bounds(*h, t_num as int);
    }
    let hd: u64 = h.hue_den as u64;
    let sn: u64 = h.sat_num as u64;
    let sd: u64 = h.sat_den as u64;
    let vn: u64 = h.val_num as u64;
    let vd: u64 = h.val_den as u64;
    let t: u64 = t_num as u64;
    let spread: u64 = 100 * sd - sn;
    let sixty_hd: u64 = 60 * hd;
    proof {
        assert(sixty_hd * spread <= 6000000000000000 && t * sn <= 6000000000000000)
            by (nonlinear_arith)
            requires
                0 <= sixty_hd <= 60000000,
                0 <= spread <= 100000000,
                0 <= t <= sixty_hd,
                0 <= sn <= 100000000;
    }
    let inner: u64 = sixty_hd * spread + t * sn;
    proof {
        assert(255 * (vn as int) * (inner as int) <= 0xffffffffffffffffffffffff)
            by (nonlinear_arith)
            requires
                0 <= vn <= 100000000,
                0 <= inner <= 12000000000000000;
        assert(10000 * (sd as int) * (vd as int) <= 0x10000000000000000 && 10000 * (sd as int)
            * (vd as int) * (sixty_hd as int) <= 0xffffffffffffffffffffffff && 10000 * (sd
            as int) * (vd as int) * (sixty_hd as int) >= 1) by (nonlinear_arith)
            requires
                1 <= sd <= 1000000,
                1 <= vd <= 1000000,
                1 <= sixty_hd <= 60000000;
    }
    let num: u128 = 255u128 * (vn as u128) * (inner as u128);
    let den: u128 = 10000u128 * (sd as u128) * (vd as u128) * (sixty_hd as u128);
    let q: u128 = num / den;
    proof {
        assert(num as int == mix_num(*h, t_num as int));
        assert(den as int == mix_den(*h));
        assert(q as int == chan_mix(*h, t_num as int));
    }
    q as u8
}

/// Converts a well-formed HSV value back to 8-bit RGB (alpha is not produced
/// here; the caller reattaches the original alpha). Each channel is
/// reconstructed from the 6-sector hue wheel as `min`, `max`, or a linear
/// interpolation between them, then quantized to 8 bits by truncation toward
/// zero. On values produced by [`rgb_to_hsv`] the result is exact.
pub fn hsv_to_rgb(h: &Hsv) -> (rgb: (u8, u8, u8))
    requires
        hsv_wf(*h),
    ensures
        (rgb.0 as int, rgb.1 as int, rgb.2 as int) == hsv_to_rgb_spec(*h),
{
    let hn: u32 = h.hue_num;
    let hd: u32 = h.hue_den;
    if hn < 60 * hd {
        (chan_mix_exec(h, 60 * hd), chan_mix_exec(h, hn), chan_mix_exec(h, 0))
    } else if hn < 120 * hd {
        (chan_mix_exec(h, 120 * hd - hn), chan_mix_exec(h, 60 * hd), chan_mix_exec(h, 0))
    } else if hn < 180 * hd {
        (chan_mix_exec(h, 0), chan_mix_exec(h, 60 * hd), chan_mix_exec(h, hn - 120 * hd))
    } else if hn < 240 * hd {
        (chan_mix_exec(h, 0), chan_mix_exec(h, 240 * hd - hn), chan_mix_exec(h, 60 * hd))
    } else if hn < 300 * hd {
        (chan_mix_exec(h, hn - 240 * hd), chan_mix_exec(h, 0), chan_mix_exec(h, 60 * hd))
    } else {
        (chan_mix_exec(h, 60 * hd), chan_mix_exec(h, 0), chan_mix_exec(h, 360 * hd - hn))
    }
}

/// Round trip: converting any 8-bit RGB triple to HSV and straight back
/// reproduces the triple exactly, every channel unchanged. In particular a
/// pure black pixel comes back as pure black: the saturation of a black
/// pixel is defined to be 0, so no undefined division enters the pipeline.
/// (Exactness is stronger than the one-step quantization tolerance the
/// conversion pair is usually granted; it holds because both conversions
/// work on exact fractions.)
pub proof fn lemma_rgb_hsv_round_trip(r: u8, g: u8, b: u8)
    ensures
        hsv_to_rgb_spec(rgb_to_hsv_spec(r as int, g as int, b as int)) == (
            r as int,
            g as int,
            b as int,
        ),
{
    let ri = r as int;
    let gi = g as int;
    let bi = b as int;
    let big = max3(ri, gi, bi);
    let small = min3(ri, gi, bi);
    let c = chroma_of(ri, gi, bi);
    let h = rgb_to_hsv_spec(ri, gi, bi);
    lemma_rgb_to_hsv_wf(ri, gi, bi);
    if c == 0 {
        assert(ri == gi == bi && big == ri);
        lemma_achromatic_mix(h, big, 60);
        lemma_achromatic_mix(h, big, 0);
    } else if ri >= gi && ri >= bi {
        assert(big == ri);
        if gi >= bi {
            assert(small == bi);
            if gi - bi < c {
                // hue in the first sector
                lemma_pipeline_mix_exact(h, big, small, c);
                lemma_pipeline_mix_exact(h, big, small, gi - bi);
                lemma_pipeline_mix_exact(h, big, small, 0);
            } else {
                // red and green tie for the maximum: hue is exactly 60
                assert(gi == big && bi == small);
                lemma_pipeline_mix_exact(h, big, small, c);
                lemma_pipeline_mix_exact(h, big, small, 0);
            }
        } else {
            // blue exceeds green: hue in the last sector
            assert(small == gi);
            lemma_pipeline_mix_exact(h, big, small, c);
            lemma_pipeline_mix_exact(h, big, small, 0);
            lemma_pipeline_mix_exact(h, big, small, bi - gi);
        }
    } else if gi >= bi {
        assert(big == gi);
        if bi < ri {
            assert(small == bi);
            lemma_pipeline_mix_exact(h, big, small, ri - bi);
            lemma_pipeline_mix_exact(h, big, small, c);
            lemma_pipeline_mix_exact(h, big, small, 0);
        } else {
            assert(small == ri);
            if bi - ri < c {
                lemma_pipeline_mix_exact(h, big, small, 0);
                lemma_pipeline_mix_exact(h, big, small, c);
                lemma_pipeline_mix_exact(h, big, small, bi - ri);
            } else {
                // green and blue tie for the maximum: hue is exactly 180
                assert(bi == big && ri == small);
                lemma_pipeline_mix_exact(h, big, small, 0);
                lemma_pipeline_mix_exact(h, big, small, c);
            }
        }
    } else {
        assert(big == bi);
        if ri < gi {
            assert(small == ri);
            lemma_pipeline_mix_exact(h, big, small, 0);
            lemma_pipeline_mix_exact(h, big, small, gi - ri);
            lemma_pipeline_mix_exact(h, big, small, c);
        } else {
            assert(small == gi && ri < bi);
            lemma_pipeline_mix_exact(h, big, small, ri - gi);
            lemma_pipeline_mix_exact(h, big, small, 0);
            lemma_pipeline_mix_exact(h, big, small, c);
        }
    }
}

} // verus!
