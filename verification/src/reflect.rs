//! Mirroring a hue angle about a reflection axis.
//!
//! The axis is given in millidegrees, so its fraction has denominator 1000;
//! reflecting a hue with denominator `d` therefore yields a hue with
//! denominator `1000 * d`, still exact. The reflected hue is normalized into
//! `[0, 360)` degrees before it is returned.

use crate::color::{hsv_wf, Hsv};
use vstd::prelude::*;
use vstd::arithmetic::div_mod::{
    lemma_fundamental_div_mod, lemma_fundamental_div_mod_converse_mod,
    lemma_mod_division_less_than_divisor, lemma_mod_multiples_vanish,
};
use vstd::arithmetic::mul::lemma_mul_is_associative;

verus! {

/// Numerator of the reflected hue over the denominator `1000 * hd`, already
/// normalized into `[0, 360)` degrees. Reflecting the hue `hn / hd` about
/// the axis `axis_mdeg / 1000` gives `2 * axis - hue` modulo 360: shifting
/// into the axis frame, wrapping non-negative, mirroring and shifting back
/// amounts to exactly that.
pub open spec fn reflect_hue_num(hn: int, hd: int, axis_mdeg: int) -> int {
    (2 * axis_mdeg * hd - 1000 * hn) % (360000 * hd)
}

/// Mirrors the hue of a well-formed HSV value about the given axis.
/// Saturation and value pass through unchanged; the hue denominator picks up
/// the factor 1000 of the axis resolution, so it must come in no larger than
/// 1000 for the result to stay within [`crate::color::MAX_DEN`] (the
/// fractions out of [`crate::color::rgb_to_hsv`] stay below 256, well
/// inside). The axis is expected already
/// normalized by the caller (mirroring is symmetric past 180 degrees, and a
/// half-turn of the axis changes nothing, as [`lemma_reflect_axis_halfturn`]
/// shows), but any axis up to a full turn is accepted.
pub fn hsv_reflect(h: &Hsv, axis_mdeg: u32) -> (out: Hsv)
    requires
        hsv_wf(*h),
        h.hue_den <= 1000,
        axis_mdeg <= 360000,
    ensures
        out.hue_num as int == reflect_hue_num(h.hue_num as int, h.hue_den as int, axis_mdeg as int),
        out.hue_den == 1000 * h.hue_den,
        out.sat_num == h.sat_num,
        out.sat_den == h.sat_den,
        out.val_num == h.val_num,
        out.val_den == h.val_den,
        hsv_wf(out),
{
    let hd: u64 = h.hue_den as u64;
    let turn: u64 = 360000 * hd;
    proof {
        assert(2 * (axis_mdeg as int) * (hd as int) <= 720000000) by (nonlinear_arith)
            requires
                0 <= axis_mdeg <= 360000,
                0 <= hd <= 1000;
    }
    let shifted: u64 = 2 * (axis_mdeg as u64) * hd + turn - 1000 * (h.hue_num as u64);
    let n: u64 = shifted % turn;
    proof {
        let hni = h.hue_num as int;
        let hdi = h.hue_den as int;
        let ai = axis_mdeg as int;
        lemma_mod_multiples_vanish(1, 2 * ai * hdi - 1000 * hni, 360000 * hdi);
        assert(shifted as int == (360000 * hdi) * 1 + (2 * ai * hdi - 1000 * hni));
        lemma_mod_division_less_than_divisor(shifted as int, 360000 * hdi);
    }
    Hsv {
        hue_num: n as u32,
        hue_den: 1000 * h.hue_den,
        sat_num: h.sat_num,
        sat_den: h.sat_den,
        val_num: h.val_num,
        val_den: h.val_den,
    }
}

/// Reflecting about the same axis twice restores the original hue: the
/// twice-reflected numerator over its denominator `1000000 * hd` is exactly
/// the original fraction `hn / hd`, scaled.
pub proof fn lemma_reflect_involution(hn: int, hd: int, axis_mdeg: int)
    requires
        1 <= hd,
        0 <= hn < 360 * hd,
        0 <= axis_mdeg,
    ensures
        reflect_hue_num(reflect_hue_num(hn, hd, axis_mdeg), 1000 * hd, axis_mdeg) == 1000000 * hn,
{
    let a = axis_mdeg;
    let d = 360000 * hd;
    let x = 2 * a * hd - 1000 * hn;
    let n2 = x % d;
    let q = x / d;
    lemma_fundamental_div_mod(x, d);
    assert(1000 * x == 1000 * (d * q) + 1000 * n2);
    lemma_mul_is_associative(1000, d, q);
    assert(2 * a * (1000 * hd) == 1000 * (2 * a * hd)) by (nonlinear_arith);
    assert(360000 * (1000 * hd) == 1000 * d);
    assert(2 * a * (1000 * hd) - 1000 * n2 == q * (1000 * d) + 1000000 * hn) by {
        assert((1000 * d) * q == q * (1000 * d)) by (nonlinear_arith);
    }
    assert(0 <= 1000000 * hn < 1000 * d);
    lemma_fundamental_div_mod_converse_mod(
        2 * a * (1000 * hd) - 1000 * n2,
        1000 * d,
        q,
        1000000 * hn,
    );
}

/// Turning the axis by half a turn leaves the reflected hue unchanged, so
/// normalizing the axis modulo 180 degrees before the reflection loses
/// nothing.
pub proof fn lemma_reflect_axis_halfturn(hn: int, hd: int, axis_mdeg: int)
    requires
        1 <= hd,
        0 <= axis_mdeg,
    ensures
        reflect_hue_num(hn, hd, axis_mdeg + 180000) == reflect_hue_num(hn, hd, axis_mdeg),
{
    let a = axis_mdeg;
    let d = 360000 * hd;
    assert(2 * (a + 180000) * hd == 2 * a * hd + 360000 * hd) by (nonlinear_arith);
    lemma_mod_multiples_vanish(1, 2 * a * hd - 1000 * hn, d);
    assert(2 * (a + 180000) * hd - 1000 * hn == d * 1 + (2 * a * hd - 1000 * hn));
}

} // verus!
