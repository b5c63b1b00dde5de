use hue_reflect::color::{hsv_to_rgb, rgb_to_hsv, Hsv, Pixel};

fn pixel(r: u8, g: u8, b: u8) -> Pixel {
    Pixel { r, g, b, a: 255 }
}

fn hsv(hue: u32, sat: u32, val: u32) -> Hsv {
    Hsv { hue_num: hue, hue_den: 1, sat_num: sat, sat_den: 1, val_num: val, val_den: 1 }
}

#[test]
fn round_trip_is_exact_on_a_sweep() {
    let samples: [u8; 6] = [0, 1, 77, 128, 254, 255];
    for &r in samples.iter() {
        for &g in samples.iter() {
            for &b in samples.iter() {
                let h = rgb_to_hsv(&pixel(r, g, b));
                assert_eq!(hsv_to_rgb(&h), (r, g, b));
            }
        }
    }
}

#[test]
fn round_trip_black_is_exact() {
    let h = rgb_to_hsv(&pixel(0, 0, 0));
    assert_eq!(h.sat_num, 0);
    assert_eq!(h.val_num, 0);
    assert_eq!(h.hue_num, 0);
    assert_eq!(hsv_to_rgb(&h), (0, 0, 0));
}

#[test]
fn pure_red_converts_to_hue_0_full_sat_full_val() {
    let h = rgb_to_hsv(&pixel(255, 0, 0));
    assert_eq!(h.hue_num, 0);
    assert_eq!(h.sat_num, 100 * h.sat_den);
    assert_eq!(h.val_num, 100 * h.val_den);
}

#[test]
fn primary_hues_convert_back_to_primaries() {
    assert_eq!(hsv_to_rgb(&hsv(0, 100, 100)), (255, 0, 0));
    assert_eq!(hsv_to_rgb(&hsv(60, 100, 100)), (255, 255, 0));
    assert_eq!(hsv_to_rgb(&hsv(120, 100, 100)), (0, 255, 0));
    assert_eq!(hsv_to_rgb(&hsv(180, 100, 100)), (0, 255, 255));
    assert_eq!(hsv_to_rgb(&hsv(240, 100, 100)), (0, 0, 255));
    assert_eq!(hsv_to_rgb(&hsv(300, 100, 100)), (255, 0, 255));
}

#[test]
fn channels_quantize_by_truncation() {
    // saturation 50%, value 100%: the interpolated channels are 127.5,
    // truncated toward zero to 127
    assert_eq!(hsv_to_rgb(&hsv(0, 50, 100)), (255, 127, 127));
    // hue 359 at full saturation: the blue channel is 255 * 1/60 = 4.25,
    // truncated to 4
    assert_eq!(hsv_to_rgb(&hsv(359, 100, 100)), (255, 0, 4));
}

#[test]
fn achromatic_grays_convert_back_exactly() {
    for v in [0u8, 1, 50, 128, 200, 255] {
        let h = rgb_to_hsv(&pixel(v, v, v));
        assert_eq!(h.sat_num, 0);
        assert_eq!(hsv_to_rgb(&h), (v, v, v));
    }
}

#[test]
fn tie_breaking_picks_red_then_green() {
    // red and green tie for the maximum: hue is exactly 60 degrees
    let h = rgb_to_hsv(&pixel(200, 200, 0));
    assert_eq!(h.hue_num, 60 * h.hue_den);
    // green and blue tie for the maximum: hue is exactly 180 degrees
    let h = rgb_to_hsv(&pixel(0, 200, 200));
    assert_eq!(h.hue_num, 180 * h.hue_den);
    assert_eq!(hsv_to_rgb(&h), (0, 200, 200));
}
