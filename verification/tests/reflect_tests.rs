use hue_reflect::color::Hsv;
use hue_reflect::reflect::hsv_reflect;

fn hsv(hue: u32, sat: u32, val: u32) -> Hsv {
    Hsv { hue_num: hue, hue_den: 1, sat_num: sat, sat_den: 1, val_num: val, val_den: 1 }
}

#[test]
fn reflecting_hue_0_about_axis_0_stays_0() {
    // mirroring 0 about 0 lands on 360, which normalizes back to 0
    let out = hsv_reflect(&hsv(0, 100, 100), 0);
    assert_eq!(out.hue_num, 0);
    assert_eq!(out.hue_den, 1000);
}

#[test]
fn reflecting_hue_0_about_axis_90_gives_180() {
    let out = hsv_reflect(&hsv(0, 100, 100), 90_000);
    assert_eq!(out.hue_num, 180_000);
    assert_eq!(out.hue_den, 1000);
}

#[test]
fn reflection_is_an_involution() {
    for hue in [0u32, 1, 45, 90, 179, 180, 300, 359] {
        for axis in [0u32, 10_000, 90_000, 135_500, 179_999] {
            let once = hsv_reflect(&hsv(hue, 80, 60), axis);
            let twice = hsv_reflect(&once, axis);
            // the hue comes back exactly, scaled onto the finer denominator
            assert_eq!(twice.hue_num, 1_000_000 * hue);
            assert_eq!(twice.hue_den, 1_000_000);
        }
    }
}

#[test]
fn axis_and_axis_plus_half_turn_reflect_alike() {
    for hue in [0u32, 30, 77, 180, 359] {
        let a = hsv_reflect(&hsv(hue, 100, 100), 30_000);
        let b = hsv_reflect(&hsv(hue, 100, 100), 210_000);
        assert_eq!(a.hue_num, b.hue_num);
        assert_eq!(a.hue_den, b.hue_den);
    }
}

#[test]
fn reflection_leaves_saturation_and_value_untouched() {
    let input = Hsv { hue_num: 123, hue_den: 2, sat_num: 37, sat_den: 3, val_num: 91, val_den: 7 };
    let out = hsv_reflect(&input, 45_000);
    assert_eq!(out.sat_num, input.sat_num);
    assert_eq!(out.sat_den, input.sat_den);
    assert_eq!(out.val_num, input.val_num);
    assert_eq!(out.val_den, input.val_den);
    assert_eq!(out.hue_den, 1000 * input.hue_den);
}
