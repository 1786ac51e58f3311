use color_conversion::conversions::{
    cmyka_to_rgba, complementary, hsla_to_rgba, hsva_to_rgba, rgba_to_cmyka, rgba_to_hsla,
    rgba_to_hsva,
};
use color_conversion::error::{ColorError, Component};
use color_conversion::fraction::Fraction;

fn frac(num: u32, den: u32) -> Fraction {
    Fraction { num, den }
}

fn whole(n: u32) -> Fraction {
    Fraction { num: n, den: 1 }
}

fn invalid<T>(c: Component) -> Result<T, ColorError> {
    Err(ColorError::InvalidInput(c))
}

#[test]
fn rgba_to_hsla_refuses_a_red_of_256() {
    assert_eq!(rgba_to_hsla((256, 0, 0, None)), invalid(Component::Red));
}

#[test]
fn forward_conversions_refuse_bad_channels_before_a_bad_alpha() {
    let bad_alpha = Some(frac(3, 2));
    assert_eq!(rgba_to_hsla((0, 256, 0, bad_alpha)), invalid(Component::Green));
    assert_eq!(rgba_to_hsva((0, 0, 256, bad_alpha)), invalid(Component::Blue));
    assert_eq!(rgba_to_cmyka((256, 0, 256, bad_alpha)), invalid(Component::Red));
    assert_eq!(complementary((0, 0, 256, bad_alpha)), invalid(Component::Blue));
}

#[test]
fn forward_conversions_refuse_a_bad_alpha() {
    let bad_alpha = Some(frac(101, 100));
    assert_eq!(rgba_to_hsla((1, 2, 3, bad_alpha)), invalid(Component::Alpha));
    assert_eq!(rgba_to_hsva((1, 2, 3, bad_alpha)), invalid(Component::Alpha));
    assert_eq!(rgba_to_cmyka((1, 2, 3, bad_alpha)), invalid(Component::Alpha));
    assert_eq!(complementary((1, 2, 3, bad_alpha)), invalid(Component::Alpha));
    assert_eq!(rgba_to_hsla((1, 2, 3, Some(frac(0, 0)))), invalid(Component::Alpha));
}

#[test]
fn a_missing_alpha_is_one() {
    assert_eq!(rgba_to_hsva((255, 0, 0, None)).unwrap().3, whole(1));
    assert_eq!(rgba_to_hsla((255, 0, 0, None)).unwrap().3, whole(1));
    assert_eq!(rgba_to_cmyka((255, 0, 0, None)).unwrap().4, whole(1));
    assert_eq!(complementary((255, 0, 0, None)).unwrap().3, whole(1));
    assert_eq!(hsla_to_rgba((whole(0), whole(100), whole(50), None)).unwrap().3, whole(1));
    assert_eq!(hsva_to_rgba((whole(0), whole(100), whole(50), None)).unwrap().3, whole(1));
    assert_eq!(
        cmyka_to_rgba((whole(0), whole(0), whole(0), whole(0), None)).unwrap().3,
        whole(1)
    );
}

#[test]
fn a_given_alpha_passes_through_as_given() {
    let a = frac(94, 100);
    assert_eq!(rgba_to_hsva((134, 131, 213, Some(a))).unwrap().3, a);
    assert_eq!(rgba_to_hsla((134, 131, 213, Some(a))).unwrap().3, a);
    assert_eq!(rgba_to_cmyka((134, 131, 213, Some(a))).unwrap().4, a);
    assert_eq!(complementary((134, 131, 213, Some(a))).unwrap().3, a);
}

#[test]
fn rgba_to_hsla_of_a_sample_colour() {
    assert_eq!(
        rgba_to_hsla((134, 131, 213, Some(frac(94, 100)))),
        Ok((frac(19860, 82), frac(8200, 166), frac(34400, 510), frac(94, 100)))
    );
}

#[test]
fn rgba_to_hsva_of_a_sample_colour() {
    assert_eq!(
        rgba_to_hsva((134, 131, 213, Some(frac(94, 100)))),
        Ok((frac(19860, 82), frac(8200, 213), frac(21300, 255), frac(94, 100)))
    );
}

#[test]
fn rgba_to_cmyka_of_a_sample_colour() {
    assert_eq!(
        rgba_to_cmyka((134, 131, 213, Some(frac(94, 100)))),
        Ok((frac(7900, 213), frac(8200, 213), frac(0, 213), frac(4200, 255), frac(94, 100)))
    );
}

#[test]
fn rgba_to_cmyka_of_black_has_inks_without_a_value() {
    assert_eq!(
        rgba_to_cmyka((0, 0, 0, None)),
        Ok((frac(0, 0), frac(0, 0), frac(0, 0), frac(25500, 255), whole(1)))
    );
}

#[test]
fn a_grey_reports_its_level_in_percent() {
    assert_eq!(
        rgba_to_hsla((51, 51, 51, None)),
        Ok((frac(0, 1), frac(0, 1), frac(10200, 510), whole(1)))
    );
    assert_eq!(
        rgba_to_hsva((51, 51, 51, None)),
        Ok((frac(0, 1), frac(0, 1), frac(5100, 255), whole(1)))
    );
}

#[test]
fn white_has_lightness_and_value_100() {
    let (h, s, l, a) = rgba_to_hsla((255, 255, 255, None)).unwrap();
    assert_eq!((h, s, l, a), (frac(0, 1), frac(0, 1), frac(51000, 510), whole(1)));
    assert_eq!(l.num, 100 * l.den);
    let (h, s, v, a) = rgba_to_hsva((255, 255, 255, None)).unwrap();
    assert_eq!((h, s, v, a), (frac(0, 1), frac(0, 1), frac(25500, 255), whole(1)));
    assert_eq!(v.num, 100 * v.den);
}

#[test]
fn black_has_lightness_and_value_zero() {
    assert_eq!(
        rgba_to_hsla((0, 0, 0, None)),
        Ok((frac(0, 1), frac(0, 1), frac(0, 510), whole(1)))
    );
    assert_eq!(
        rgba_to_hsva((0, 0, 0, None)),
        Ok((frac(0, 1), frac(0, 1), frac(0, 255), whole(1)))
    );
}

#[test]
fn converted_colours_are_valid() {
    for h in (0..=360u32).step_by(7) {
        for s in (0..=100u32).step_by(9) {
            for x in (0..=100u32).step_by(11) {
                let a = Some(frac(x, 100));
                for (r, g, b, al) in [
                    hsla_to_rgba((whole(h), whole(s), whole(x), a)).unwrap(),
                    hsva_to_rgba((whole(h), whole(s), whole(x), a)).unwrap(),
                    cmyka_to_rgba((whole(s), whole(x), whole(100 - s), whole(100 - x), a)).unwrap(),
                ] {
                    assert!(r <= 255 && g <= 255 && b <= 255);
                    assert!(al.den > 0 && al.num <= al.den);
                }
            }
        }
    }
}

#[test]
fn hsla_without_saturation_is_white() {
    assert_eq!(
        hsla_to_rgba((whole(0), whole(0), whole(50), Some(whole(1)))),
        Ok((255, 255, 255, whole(1)))
    );
}

#[test]
fn hsva_without_saturation_is_white() {
    assert_eq!(
        hsva_to_rgba((whole(0), whole(0), whole(50), Some(whole(1)))),
        Ok((255, 255, 255, whole(1)))
    );
}

#[test]
fn hsla_to_rgba_of_sample_colours() {
    let a = Some(frac(94, 100));
    assert_eq!(
        hsla_to_rgba((whole(242), whole(49), whole(67), a)),
        Ok((132, 129, 212, frac(94, 100)))
    );
    assert_eq!(hsla_to_rgba((whole(0), whole(100), whole(50), None)), Ok((255, 0, 0, whole(1))));
    assert_eq!(hsla_to_rgba((whole(120), whole(100), whole(50), None)), Ok((0, 255, 0, whole(1))));
    assert_eq!(hsla_to_rgba((whole(240), whole(100), whole(25), None)), Ok((0, 0, 127, whole(1))));
    assert_eq!(hsla_to_rgba((whole(60), whole(50), whole(75), None)), Ok((223, 223, 159, whole(1))));
}

#[test]
fn hsva_to_rgba_of_sample_colours() {
    let a = Some(frac(94, 100));
    assert_eq!(
        hsva_to_rgba((whole(242), whole(39), whole(83), a)),
        Ok((131, 129, 211, frac(94, 100)))
    );
    assert_eq!(hsva_to_rgba((whole(0), whole(100), whole(100), None)), Ok((255, 0, 0, whole(1))));
    assert_eq!(hsva_to_rgba((whole(60), whole(100), whole(100), None)), Ok((255, 255, 0, whole(1))));
    assert_eq!(hsva_to_rgba((whole(180), whole(50), whole(50), None)), Ok((63, 127, 127, whole(1))));
    assert_eq!(hsva_to_rgba((whole(300), whole(100), whole(100), None)), Ok((255, 0, 255, whole(1))));
}

#[test]
fn a_hue_of_360_is_accepted_and_is_red() {
    assert_eq!(hsva_to_rgba((whole(360), whole(100), whole(100), None)), Ok((255, 0, 0, whole(1))));
    assert_eq!(hsla_to_rgba((whole(360), whole(100), whole(50), None)), Ok((255, 0, 0, whole(1))));
}

#[test]
fn cmyka_to_rgba_of_sample_colours() {
    let a = Some(frac(94, 100));
    assert_eq!(
        cmyka_to_rgba((whole(47), whole(0), whole(16), whole(0), a)),
        Ok((135, 255, 214, frac(94, 100)))
    );
    assert_eq!(
        cmyka_to_rgba((whole(0), whole(0), whole(0), whole(100), None)),
        Ok((0, 0, 0, whole(1)))
    );
    assert_eq!(
        cmyka_to_rgba((whole(100), whole(100), whole(100), whole(0), None)),
        Ok((0, 0, 0, whole(1)))
    );
    assert_eq!(
        cmyka_to_rgba((whole(0), whole(0), whole(0), whole(0), None)),
        Ok((255, 255, 255, whole(1)))
    );
}

#[test]
fn reverse_conversions_name_the_first_bad_component() {
    let ok = whole(50);
    assert_eq!(hsla_to_rgba((whole(361), whole(101), ok, None)), invalid(Component::Hue));
    assert_eq!(hsla_to_rgba((ok, whole(101), whole(101), None)), invalid(Component::Saturation));
    assert_eq!(hsla_to_rgba((ok, ok, whole(101), Some(whole(2)))), invalid(Component::Lightness));
    assert_eq!(hsla_to_rgba((ok, ok, ok, Some(whole(2)))), invalid(Component::Alpha));
    assert_eq!(hsva_to_rgba((frac(3601, 10), ok, ok, None)), invalid(Component::Hue));
    assert_eq!(hsva_to_rgba((ok, frac(1001, 10), ok, None)), invalid(Component::Saturation));
    assert_eq!(hsva_to_rgba((ok, ok, frac(1001, 10), None)), invalid(Component::Value));
    assert_eq!(hsva_to_rgba((ok, ok, ok, Some(frac(11, 10)))), invalid(Component::Alpha));
    assert_eq!(hsva_to_rgba((frac(0, 0), ok, ok, None)), invalid(Component::Hue));
    assert_eq!(cmyka_to_rgba((whole(101), ok, ok, ok, None)), invalid(Component::Cyan));
    assert_eq!(cmyka_to_rgba((ok, whole(101), ok, ok, None)), invalid(Component::Magenta));
    assert_eq!(cmyka_to_rgba((ok, ok, whole(101), ok, None)), invalid(Component::Yellow));
    assert_eq!(cmyka_to_rgba((ok, ok, ok, whole(101), None)), invalid(Component::Key));
    assert_eq!(cmyka_to_rgba((ok, ok, ok, ok, Some(whole(2)))), invalid(Component::Alpha));
}

#[test]
fn complementary_of_a_sample_colour() {
    assert_eq!(complementary((87, 60, 250, Some(whole(1)))), Ok((223, 250, 60, whole(1))));
}

#[test]
fn complementary_turns_the_hue_by_180_degrees() {
    let own = rgba_to_hsva((87, 60, 250, Some(whole(1)))).unwrap();
    let (r, g, b, a) = complementary((87, 60, 250, Some(whole(1)))).unwrap();
    let other = rgba_to_hsva((r, g, b, Some(a))).unwrap();
    assert_eq!(own.0.den, other.0.den);
    assert_eq!(own.0.num, other.0.num + 180 * own.0.den);
    assert_eq!(own.1, other.1);
    assert_eq!(own.2, other.2);
    assert_eq!(a, whole(1));
}

#[test]
fn complementary_twice_is_the_colour() {
    let (r, g, b, a) = complementary((87, 60, 250, Some(whole(1)))).unwrap();
    assert_eq!(complementary((r, g, b, Some(a))), Ok((87, 60, 250, whole(1))));
}

#[test]
fn complementary_of_a_grey_is_white() {
    assert_eq!(complementary((128, 128, 128, None)), Ok((255, 255, 255, whole(1))));
    assert_eq!(complementary((0, 0, 0, None)), Ok((255, 255, 255, whole(1))));
}

#[test]
fn every_colour_on_a_grid_comes_back_from_hsl_and_hsv() {
    let a = frac(1, 3);
    for r in (0..=255u32).step_by(5) {
        for g in (0..=255u32).step_by(15) {
            for b in (0..=255u32).step_by(17) {
                let expected = if r == g && g == b { (255, 255, 255, a) } else { (r, g, b, a) };
                let (h, s, l, al) = rgba_to_hsla((r, g, b, Some(a))).unwrap();
                assert_eq!(hsla_to_rgba((h, s, l, Some(al))), Ok(expected));
                let (h, s, v, al) = rgba_to_hsva((r, g, b, Some(a))).unwrap();
                assert_eq!(hsva_to_rgba((h, s, v, Some(al))), Ok(expected));
                let (x, y, z, al) = complementary((r, g, b, Some(a))).unwrap();
                assert_eq!(complementary((x, y, z, Some(al))), Ok(expected));
            }
        }
    }
}

#[test]
fn every_colour_on_a_grid_comes_back_from_cmyk() {
    for r in (0..=255u32).step_by(5) {
        for g in (0..=255u32).step_by(15) {
            for b in (0..=255u32).step_by(17) {
                let (c, m, y, k, a) = rgba_to_cmyka((r, g, b, None)).unwrap();
                let back = cmyka_to_rgba((c, m, y, k, Some(a)));
                if r == 0 && g == 0 && b == 0 {
                    assert_eq!(back, invalid(Component::Cyan));
                } else {
                    assert_eq!(back, Ok((r, g, b, whole(1))));
                }
            }
        }
    }
}

#[test]
fn the_largest_denominators_do_not_overflow() {
    let top = u32::MAX;
    assert_eq!(
        hsla_to_rgba((frac(top, top), frac(top, top), frac(top, top), Some(frac(top, top)))),
        Ok((2, 2, 2, frac(top, top)))
    );
    assert_eq!(
        hsva_to_rgba((frac(top, top), frac(top, top), frac(top, top), None)),
        Ok((2, 2, 2, whole(1)))
    );
    assert_eq!(
        cmyka_to_rgba((frac(top, top), frac(top, top), frac(top, top), frac(top, top), None)),
        Ok((249, 249, 249, whole(1)))
    );
}
