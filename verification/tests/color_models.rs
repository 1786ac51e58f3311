use color_conversion::cmyk::{rgb_to_cmyk, Cmyk};
use color_conversion::cylindrical::{
    complement_hsv, rgb_to_hsl, rgb_to_hsv, sector_layout, shift_hue, Blend, Hsl, Hsv,
};
use color_conversion::error::{ColorError, Component};
use color_conversion::extremum::{max, min};
use color_conversion::fraction::Fraction;
use color_conversion::rgb::{check_channels, extrema, Extrema};
use color_conversion::validate::check_rgb;

fn frac(num: u32, den: u32) -> Fraction {
    Fraction { num, den }
}

fn degrees(f: Fraction) -> f64 {
    f.num as f64 / f.den as f64
}

#[test]
fn channel_range_is_closed() {
    assert!(check_rgb(&0));
    assert!(check_rgb(&128));
    assert!(check_rgb(&255));
    assert!(!check_rgb(&256));
    assert!(!check_rgb(&u32::MAX));
}

#[test]
fn channels_are_checked_in_order() {
    assert_eq!(check_channels((255, 0, 255)), Ok(()));
    assert_eq!(
        check_channels((256, 256, 256)),
        Err(ColorError::InvalidInput(Component::Red))
    );
    assert_eq!(
        check_channels((0, 256, 256)),
        Err(ColorError::InvalidInput(Component::Green))
    );
    assert_eq!(
        check_channels((0, 0, 256)),
        Err(ColorError::InvalidInput(Component::Blue))
    );
}

#[test]
fn max_of_nothing_is_none() {
    assert_eq!(max(vec![]), None);
    assert_eq!(min(vec![]), None);
}

#[test]
fn max_of_one_is_that_one() {
    assert_eq!(max(vec![7]), Some((7, 0)));
    assert_eq!(min(vec![7]), Some((7, 0)));
}

#[test]
fn max_reports_the_first_of_equals() {
    assert_eq!(max(vec![3, 9, 9]), Some((9, 1)));
    assert_eq!(max(vec![9, 9, 9]), Some((9, 0)));
    assert_eq!(max(vec![1, 2, 3, 2, 3]), Some((3, 2)));
}

#[test]
fn min_reports_the_first_of_equals() {
    assert_eq!(min(vec![3, 1, 1]), Some((1, 1)));
    assert_eq!(min(vec![4, 4, 4]), Some((4, 0)));
    assert_eq!(min(vec![5, 2, 3, 2, 0]), Some((0, 4)));
}

#[test]
fn extrema_of_three_channels() {
    assert_eq!(extrema(87, 60, 250), Extrema { max: 250, max_index: 2, min: 60 });
    assert_eq!(extrema(200, 200, 10), Extrema { max: 200, max_index: 0, min: 10 });
    assert_eq!(extrema(10, 200, 200), Extrema { max: 200, max_index: 1, min: 10 });
    assert_eq!(extrema(5, 5, 5), Extrema { max: 5, max_index: 0, min: 5 });
}

#[test]
fn hsv_of_a_blue_dominated_colour() {
    assert_eq!(
        rgb_to_hsv((87, 60, 250)),
        Ok(Hsv { hue: frac(47220, 190), saturation: frac(19000, 250), value: frac(25000, 255) })
    );
}

#[test]
fn hsv_of_a_red_dominated_colour_wraps_a_negative_hue() {
    assert_eq!(
        rgb_to_hsv((200, 10, 50)),
        Ok(Hsv { hue: frac(66000, 190), saturation: frac(19000, 200), value: frac(20000, 255) })
    );
}

#[test]
fn hsv_of_a_green_dominated_colour() {
    assert_eq!(
        rgb_to_hsv((10, 200, 50)),
        Ok(Hsv { hue: frac(25200, 190), saturation: frac(19000, 200), value: frac(20000, 255) })
    );
}

#[test]
fn hsv_of_yellow_takes_red_as_the_greatest() {
    assert_eq!(
        rgb_to_hsv((200, 200, 10)),
        Ok(Hsv { hue: frac(11400, 190), saturation: frac(19000, 200), value: frac(20000, 255) })
    );
}

#[test]
fn hsv_of_the_primaries() {
    assert_eq!(degrees(rgb_to_hsv((255, 0, 0)).unwrap().hue), 0.0);
    assert_eq!(degrees(rgb_to_hsv((0, 255, 0)).unwrap().hue), 120.0);
    assert_eq!(degrees(rgb_to_hsv((0, 0, 255)).unwrap().hue), 240.0);
    assert_eq!(degrees(rgb_to_hsv((255, 0, 255)).unwrap().hue), 300.0);
}

#[test]
fn hsv_of_a_grey_has_no_hue_and_no_saturation() {
    assert_eq!(
        rgb_to_hsv((128, 128, 128)),
        Ok(Hsv { hue: frac(0, 1), saturation: frac(0, 1), value: frac(12800, 255) })
    );
    assert_eq!(
        rgb_to_hsv((0, 0, 0)),
        Ok(Hsv { hue: frac(0, 1), saturation: frac(0, 1), value: frac(0, 255) })
    );
}

#[test]
fn hsl_of_a_sample_colour() {
    assert_eq!(
        rgb_to_hsl((134, 131, 213)),
        Ok(Hsl { hue: frac(19860, 82), saturation: frac(8200, 166), lightness: frac(34400, 510) })
    );
}

#[test]
fn hsl_of_a_dark_colour_divides_by_the_sum() {
    assert_eq!(
        rgb_to_hsl((100, 20, 20)),
        Ok(Hsl { hue: frac(0, 80), saturation: frac(8000, 120), lightness: frac(12000, 510) })
    );
}

#[test]
fn hsl_of_a_grey_has_no_hue_and_no_saturation() {
    assert_eq!(
        rgb_to_hsl((255, 255, 255)),
        Ok(Hsl { hue: frac(0, 1), saturation: frac(0, 1), lightness: frac(51000, 510) })
    );
}

#[test]
fn hsl_refuses_a_red_above_255() {
    assert_eq!(
        rgb_to_hsl((256, 0, 0)),
        Err(ColorError::InvalidInput(Component::Red))
    );
}

#[test]
fn hsv_refuses_a_blue_above_255() {
    assert_eq!(
        rgb_to_hsv((0, 0, 256)),
        Err(ColorError::InvalidInput(Component::Blue))
    );
}

#[test]
fn hsl_and_hsv_agree_on_the_hue() {
    for &(r, g, b) in [(87u32, 60u32, 250u32), (1, 2, 3), (255, 254, 0), (9, 9, 8)].iter() {
        assert_eq!(rgb_to_hsl((r, g, b)).unwrap().hue, rgb_to_hsv((r, g, b)).unwrap().hue);
    }
}

#[test]
fn cylindrical_components_stay_in_range() {
    for r in (0..=255u32).step_by(15) {
        for g in (0..=255u32).step_by(17) {
            for b in (0..=255u32).step_by(51) {
                let hsv = rgb_to_hsv((r, g, b)).unwrap();
                let hsl = rgb_to_hsl((r, g, b)).unwrap();
                assert!(hsv.hue.den > 0 && hsv.hue.num < 360 * hsv.hue.den);
                assert!(hsv.saturation.den > 0 && hsv.saturation.num <= 100 * hsv.saturation.den);
                assert!(hsv.value.num <= 100 * hsv.value.den);
                assert!(hsl.saturation.den > 0 && hsl.saturation.num <= 100 * hsl.saturation.den);
                assert!(hsl.lightness.num <= 100 * hsl.lightness.den);
            }
        }
    }
}

#[test]
fn cmyk_of_a_sample_colour() {
    assert_eq!(
        rgb_to_cmyk((134, 131, 213)),
        Ok(Cmyk {
            cyan: frac(7900, 213),
            magenta: frac(8200, 213),
            yellow: frac(0, 213),
            key: frac(4200, 255),
        })
    );
}

#[test]
fn cmyk_of_black_has_undefined_inks() {
    assert_eq!(
        rgb_to_cmyk((0, 0, 0)),
        Ok(Cmyk { cyan: frac(0, 0), magenta: frac(0, 0), yellow: frac(0, 0), key: frac(25500, 255) })
    );
}

#[test]
fn cmyk_of_white_has_no_ink() {
    assert_eq!(
        rgb_to_cmyk((255, 255, 255)),
        Ok(Cmyk { cyan: frac(0, 255), magenta: frac(0, 255), yellow: frac(0, 255), key: frac(0, 255) })
    );
}

#[test]
fn cmyk_refuses_a_green_above_255() {
    assert_eq!(
        rgb_to_cmyk((0, 256, 0)),
        Err(ColorError::InvalidInput(Component::Green))
    );
}

#[test]
fn hue_turns_by_half_a_turn() {
    assert_eq!(shift_hue(frac(0, 1)), frac(180, 1));
    assert_eq!(shift_hue(frac(180, 1)), frac(0, 1));
    assert_eq!(shift_hue(frac(359, 1)), frac(179, 1));
    assert_eq!(shift_hue(frac(47220, 190)), frac(13020, 190));
}

#[test]
fn hue_turned_twice_is_the_hue() {
    for num in [0u32, 1, 179, 180, 181, 359] {
        assert_eq!(shift_hue(shift_hue(frac(num, 1))), frac(num, 1));
    }
    assert_eq!(shift_hue(shift_hue(frac(66000, 190))), frac(66000, 190));
}

#[test]
fn complement_turns_the_hue_and_keeps_the_rest() {
    let own = rgb_to_hsv((87, 60, 250)).unwrap();
    let other = complement_hsv((87, 60, 250)).unwrap();
    assert_eq!(other, Hsv { hue: frac(13020, 190), saturation: frac(19000, 250), value: frac(25000, 255) });
    assert_eq!(other.saturation, own.saturation);
    assert_eq!(other.value, own.value);
    let turned = degrees(other.hue) - degrees(own.hue);
    assert!((turned + 180.0).abs() < 1e-9);
}

#[test]
fn complement_of_a_grey_has_hue_180() {
    assert_eq!(
        complement_hsv((9, 9, 9)),
        Ok(Hsv { hue: frac(180, 1), saturation: frac(0, 1), value: frac(900, 255) })
    );
}

#[test]
fn complement_refuses_a_red_above_255() {
    assert_eq!(
        complement_hsv((1000, 0, 0)),
        Err(ColorError::InvalidInput(Component::Red))
    );
}

#[test]
fn sector_layout_follows_the_six_sectors() {
    assert_eq!(sector_layout(0), (Blend::Full, Blend::Rising, Blend::Base));
    assert_eq!(sector_layout(1), (Blend::Falling, Blend::Full, Blend::Base));
    assert_eq!(sector_layout(2), (Blend::Base, Blend::Full, Blend::Rising));
    assert_eq!(sector_layout(3), (Blend::Base, Blend::Falling, Blend::Full));
    assert_eq!(sector_layout(4), (Blend::Rising, Blend::Base, Blend::Full));
    assert_eq!(sector_layout(5), (Blend::Full, Blend::Base, Blend::Falling));
    assert_eq!(sector_layout(6), sector_layout(0));
    assert_eq!(sector_layout(11), sector_layout(5));
}
