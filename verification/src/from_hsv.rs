use crate::cylindrical::{
    complement_hsv, complement_hsv_of, hsv_of, hue_sixths, sector_blends, sector_layout, Blend,
    Hsv,
};
use crate::error::{ColorError, Component};
use crate::fraction::{lemma_product_bound, Fraction};
use crate::rgb::{first_invalid_channel, max3, min3};
use crate::validate::{check_hue, check_percentage, valid_hue, valid_percentage};
use vstd::arithmetic::div_mod::{lemma_div_multiples_vanish, lemma_fundamental_div_mod_converse};
use vstd::prelude::*;

verus! {

/// The first of hue, saturation and value that is out of range, if any.
///
/// The hue may be anything from 0 to 360 degrees, both ends included;
/// saturation and value anything from 0 to 100 percent. A component without a
/// value is out of range.
pub open spec fn first_invalid_hsv(c: Hsv) -> Option<Component> {
    if !valid_hue(c.hue) {
        Some(Component::Hue)
    } else if !valid_percentage(c.saturation) {
        Some(Component::Saturation)
    } else if !valid_percentage(c.value) {
        Some(Component::Value)
    } else {
        None
    }
}

/// The sixth of the circle that the hue lies in, counted from zero.
pub open spec fn sector_of(hue: Fraction) -> int {
    hue.num as int / (60 * hue.den)
}

/// How far the hue has gone into its sector, in units of which `60 * hue.den` fill the sector.
pub open spec fn sector_part(hue: Fraction) -> int {
    hue.num as int % (60 * hue.den)
}

/// The share of the value that a blend passes on, in units of which
/// `60 * hue.den * 100 * saturation.den` make the whole.
///
/// With `s` the saturation and `f` the part of the sector gone through, as
/// shares of one, the blends are 1, `1 - s`, `1 - f * s` and `1 - (1 - f) * s`.
pub open spec fn blend_weight(blend: Blend, c: Hsv) -> int {
    let span = 60 * c.hue.den;
    let part = sector_part(c.hue);
    let whole = span * (100 * c.saturation.den);
    match blend {
        Blend::Full => whole,
        Blend::Base => whole - span * c.saturation.num,
        Blend::Falling => whole - part * c.saturation.num,
        Blend::Rising => whole - (span - part) * c.saturation.num,
    }
}

/// The denominator of a channel: a hundred times the value's denominator, times the whole weight.
pub open spec fn channel_scale(c: Hsv) -> int {
    (100 * c.value.den) * ((60 * c.hue.den) * (100 * c.saturation.den))
}

/// The channel that a blend gives: the value times the blend's share, on the
/// scale from 0 to 255, cut off to a whole number.
pub open spec fn blend_channel(blend: Blend, c: Hsv) -> int {
    (255 * c.value.num * blend_weight(blend, c)) / channel_scale(c)
}

/// Red, green and blue of a colour given by hue, saturation and value.
///
/// A colour without saturation is reported as white, whatever its value.
pub open spec fn hsv_rgb_of(c: Hsv) -> (u32, u32, u32) {
    if c.saturation.num == 0 {
        (255u32, 255u32, 255u32)
    } else {
        let layout = sector_blends(sector_of(c.hue));
        (
            blend_channel(layout.0, c) as u32,
            blend_channel(layout.1, c) as u32,
            blend_channel(layout.2, c) as u32,
        )
    }
}

fn check_hsv(c: Hsv) -> (res: Result<(), ColorError>)
    ensures
        match first_invalid_hsv(c) {
            Some(bad) => res == Err::<(), ColorError>(ColorError::InvalidInput(bad)),
            None => res is Ok,
        },
{
    if !check_hue(&c.hue) {
        Err(ColorError::InvalidInput(Component::Hue))
    } else if !check_percentage(&c.saturation) {
        Err(ColorError::InvalidInput(Component::Saturation))
    } else if !check_percentage(&c.value) {
        Err(ColorError::InvalidInput(Component::Value))
    } else {
        Ok(())
    }
}

/// A blend's weight lies between nothing and the whole.
proof fn lemma_weight_bounds(blend: Blend, c: Hsv)
    requires
        first_invalid_hsv(c) is None,
    ensures
        0 <= blend_weight(blend, c) <= (60 * c.hue.den) * (100 * c.saturation.den),
        0 <= sector_part(c.hue) < 60 * c.hue.den,
{
    let span = 60 * c.hue.den;
    let part = sector_part(c.hue);
    let sn = c.saturation.num as int;
    let full = 100 * c.saturation.den;
    assert(0 <= part < span);
    lemma_product_bound(span, sn, span, full);
    lemma_product_bound(part, sn, span, full);
    lemma_product_bound(span - part, sn, span, full);
    lemma_product_bound(span, full, span, full);
}

fn channel(blend: Blend, c: Hsv) -> (ch: u32)
    requires
        first_invalid_hsv(c) is None,
    ensures
        ch as int == blend_channel(blend, c),
        ch <= 255,
{
    let span: u128 = 60 * (c.hue.den as u128);
    let part: u128 = (c.hue.num as u128) % span;
    let full: u128 = 100 * (c.saturation.den as u128);
    let sn: u128 = c.saturation.num as u128;
    let vn: u128 = c.value.num as u128;
    let top: u128 = 100 * (c.value.den as u128);
    proof {
        lemma_weight_bounds(blend, c);
        lemma_product_bound(span as int, full as int, 0x40_0000_0000, 0x80_0000_0000);
        lemma_product_bound(span as int, sn as int, span as int, full as int);
        lemma_product_bound(part as int, sn as int, span as int, full as int);
        lemma_product_bound((span - part) as int, sn as int, span as int, full as int);
    }
    let whole: u128 = span * full;
    let weight: u128 = match blend {
        Blend::Full => whole,
        Blend::Base => whole - span * sn,
        Blend::Falling => whole - part * sn,
        Blend::Rising => whole - (span - part) * sn,
    };
    proof {
        assert(whole >= 1) by (nonlinear_arith)
            requires
                whole == span * full,
                span >= 1,
                full >= 1,
        ;
        lemma_product_bound(
            top as int,
            whole as int,
            0x80_0000_0000,
            0x40_0000_0000int * 0x80_0000_0000int,
        );
        assert(top * whole >= 1) by (nonlinear_arith)
            requires
                top >= 1,
                whole >= 1,
        ;
        lemma_product_bound(vn as int, weight as int, top as int, whole as int);
    }
    let scale: u128 = top * whole;
    let amount: u128 = 255 * (vn * weight);
    proof {
        assert(255 * (vn * weight) == 255 * vn * weight) by (nonlinear_arith);
        assert(amount / scale <= 255) by (nonlinear_arith)
            requires
                amount <= 255 * scale,
                scale >= 1,
        ;
    }
    (amount / scale) as u32
}

/// Converts hue, saturation and value to red, green and blue, exactly; the
/// channels are cut off to whole numbers, not rounded.
///
/// A component out of range is refused, and the error names the first such
/// component. A colour without saturation comes back as white.
pub fn hsv_to_rgb(c: Hsv) -> (res: Result<(u32, u32, u32), ColorError>)
    ensures
        match first_invalid_hsv(c) {
            Some(bad) => res == Err::<(u32, u32, u32), ColorError>(ColorError::InvalidInput(bad)),
            None => res == Ok::<(u32, u32, u32), ColorError>(hsv_rgb_of(c)),
        },
        res matches Ok(rgb) ==> first_invalid_channel(rgb) is None,
{
    match check_hsv(c) {
        Err(e) => { return Err(e); },
        Ok(_) => {},
    }
    if c.saturation.num == 0 {
        return Ok((255, 255, 255));
    }
    let span: u64 = 60 * (c.hue.den as u64);
    let sector: u64 = (c.hue.num as u64) / span;
    assert(sector <= 6) by (nonlinear_arith)
        requires
            sector == (c.hue.num as int) / (span as int),
            c.hue.num <= 6 * span,
            span >= 1,
    ;
    let layout = sector_layout(sector as u32);
    Ok((channel(layout.0, c), channel(layout.1, c), channel(layout.2, c)))
}

/// Every blend of a valid colour gives a channel from 0 to 255.
pub proof fn lemma_blend_channel_range(blend: Blend, c: Hsv)
    requires
        first_invalid_hsv(c) is None,
    ensures
        0 <= blend_channel(blend, c) <= 255,
{
    lemma_weight_bounds(blend, c);
    let vn = c.value.num as int;
    let weight = blend_weight(blend, c);
    let top = 100 * c.value.den;
    let whole = (60 * c.hue.den) * (100 * c.saturation.den);
    lemma_product_bound(vn, weight, top, whole);
    let scale = channel_scale(c);
    let amount = 255 * vn * weight;
    assert(amount == 255 * (vn * weight)) by (nonlinear_arith)
        requires
            amount == 255 * vn * weight,
    ;
    assert(scale >= 1) by (nonlinear_arith)
        requires
            scale == top * whole,
            top >= 1,
            whole == (60 * c.hue.den) * (100 * c.saturation.den),
            c.hue.den >= 1,
            c.saturation.den >= 1,
    ;
    assert(0 <= amount / scale <= 255) by (nonlinear_arith)
        requires
            0 <= amount <= 255 * scale,
            scale >= 1,
    ;
}

/// A valid colour given by hue, saturation and value has valid red, green and blue.
pub proof fn lemma_hsv_rgb_valid(c: Hsv)
    requires
        first_invalid_hsv(c) is None,
    ensures
        first_invalid_channel(hsv_rgb_of(c)) is None,
{
    lemma_blend_channel_range(Blend::Full, c);
    lemma_blend_channel_range(Blend::Base, c);
    lemma_blend_channel_range(Blend::Falling, c);
    lemma_blend_channel_range(Blend::Rising, c);
}

/// The channel of a blend for a colour that came from channels with greatest
/// value `hi` and chroma `chroma`, `rem` sixtieths of a degree times the chroma
/// into its sector.
proof fn lemma_channel_of_blend(c: Hsv, blend: Blend, hi: int, chroma: int, rem: int)
    requires
        0 < chroma <= hi <= 255,
        0 <= rem < chroma,
        c.hue.den == chroma,
        sector_part(c.hue) == 60 * rem,
        c.saturation.num == 100 * chroma,
        c.saturation.den == hi,
        c.value.num == 100 * hi,
        c.value.den == 255,
    ensures
        blend_channel(blend, c) == match blend {
            Blend::Full => hi,
            Blend::Base => hi - chroma,
            Blend::Falling => hi - rem,
            Blend::Rising => hi - chroma + rem,
        },
{
    let x = match blend {
        Blend::Full => hi,
        Blend::Base => hi - chroma,
        Blend::Falling => hi - rem,
        Blend::Rising => hi - chroma + rem,
    };
    let span = 60 * chroma;
    let part = 60 * rem;
    let sn = 100 * chroma;
    let whole = span * (100 * hi);
    let weight = blend_weight(blend, c);
    assert(whole == 6000 * chroma * hi) by (nonlinear_arith)
        requires
            whole == (60 * chroma) * (100 * hi),
    ;
    assert(span * sn == 6000 * chroma * chroma) by (nonlinear_arith)
        requires
            span == 60 * chroma,
            sn == 100 * chroma,
    ;
    assert(part * sn == 6000 * chroma * rem) by (nonlinear_arith)
        requires
            part == 60 * rem,
            sn == 100 * chroma,
    ;
    assert((span - part) * sn == 6000 * chroma * chroma - 6000 * chroma * rem)
        by (nonlinear_arith)
        requires
            span == 60 * chroma,
            part == 60 * rem,
            sn == 100 * chroma,
    ;
    assert(weight == 6000 * chroma * x) by (nonlinear_arith)
        requires
            weight == match blend {
                Blend::Full => 6000 * chroma * hi,
                Blend::Base => 6000 * chroma * hi - 6000 * chroma * chroma,
                Blend::Falling => 6000 * chroma * hi - 6000 * chroma * rem,
                Blend::Rising => 6000 * chroma * hi - (6000 * chroma * chroma - 6000 * chroma
                    * rem),
            },
            x == match blend {
                Blend::Full => hi,
                Blend::Base => hi - chroma,
                Blend::Falling => hi - rem,
                Blend::Rising => hi - chroma + rem,
            },
    ;
    let scale = channel_scale(c);
    let amount = 255 * c.value.num * weight;
    assert(scale == 25500 * whole);
    assert(amount == scale * x) by (nonlinear_arith)
        requires
            amount == 255 * (100 * hi) * weight,
            weight == 6000 * chroma * x,
            scale == 25500 * (6000 * chroma * hi),
    ;
    assert(scale > 0) by (nonlinear_arith)
        requires
            scale == 25500 * (6000 * chroma * hi),
            chroma > 0,
            hi > 0,
    ;
    lemma_div_multiples_vanish(x, scale);
}

/// The sector `k` and the rest `rem` of a hue of `six` sixths of a turn times the chroma.
proof fn lemma_sector_split(hue: Fraction, six: int, chroma: int) -> (split: (int, int))
    requires
        chroma > 0,
        0 <= six < 6 * chroma,
        hue.num == 60 * six,
        hue.den == chroma,
    ensures
        0 <= split.0 < 6,
        0 <= split.1 < chroma,
        split.0 == 0 ==> six == split.1,
        split.0 == 1 ==> six == chroma + split.1,
        split.0 == 2 ==> six == 2 * chroma + split.1,
        split.0 == 3 ==> six == 3 * chroma + split.1,
        split.0 == 4 ==> six == 4 * chroma + split.1,
        split.0 == 5 ==> six == 5 * chroma + split.1,
        sector_of(hue) == split.0,
        sector_part(hue) == 60 * split.1,
{
    let k = if six >= 5 * chroma {
        5
    } else if six >= 4 * chroma {
        4
    } else if six >= 3 * chroma {
        3
    } else if six >= 2 * chroma {
        2
    } else if six >= chroma {
        1
    } else {
        0int
    };
    let rem = if k == 5 {
        six - 5 * chroma
    } else if k == 4 {
        six - 4 * chroma
    } else if k == 3 {
        six - 3 * chroma
    } else if k == 2 {
        six - 2 * chroma
    } else if k == 1 {
        six - chroma
    } else {
        six
    };
    assert(60 * six == k * (60 * chroma) + 60 * rem) by (nonlinear_arith)
        requires
            0 <= k < 6,
            k == 0 ==> six == rem,
            k == 1 ==> six == chroma + rem,
            k == 2 ==> six == 2 * chroma + rem,
            k == 3 ==> six == 3 * chroma + rem,
            k == 4 ==> six == 4 * chroma + rem,
            k == 5 ==> six == 5 * chroma + rem,
    ;
    lemma_fundamental_div_mod_converse(60 * six, 60 * chroma, k, 60 * rem);
    (k, rem)
}

/// Converting a valid colour to hue, saturation and value and back gives the
/// very same red, green and blue, unless the colour is a grey: a grey comes
/// back as white.
pub proof fn lemma_hsv_round_trip(rgb: (u32, u32, u32))
    requires
        first_invalid_channel(rgb) is None,
    ensures
        first_invalid_hsv(hsv_of(rgb.0 as int, rgb.1 as int, rgb.2 as int)) is None,
        rgb.0 == rgb.1 && rgb.1 == rgb.2 ==> hsv_rgb_of(
            hsv_of(rgb.0 as int, rgb.1 as int, rgb.2 as int),
        ) == (255u32, 255u32, 255u32),
        !(rgb.0 == rgb.1 && rgb.1 == rgb.2) ==> hsv_rgb_of(
            hsv_of(rgb.0 as int, rgb.1 as int, rgb.2 as int),
        ) == rgb,
{
    let (r, g, b) = (rgb.0 as int, rgb.1 as int, rgb.2 as int);
    let c = hsv_of(r, g, b);
    let hi = max3(r, g, b);
    let chroma = hi - min3(r, g, b);
    if chroma > 0 {
        let (k, rem) = lemma_sector_split(c.hue, hue_sixths(r, g, b), chroma);
        lemma_channel_of_blend(c, Blend::Full, hi, chroma, rem);
        lemma_channel_of_blend(c, Blend::Base, hi, chroma, rem);
        lemma_channel_of_blend(c, Blend::Falling, hi, chroma, rem);
        lemma_channel_of_blend(c, Blend::Rising, hi, chroma, rem);
    }
}

/// The colour opposite on the hue circle: each channel mirrored between the
/// least and the greatest channel. A grey has no hue to turn and is reported
/// as white.
pub open spec fn complement_of(rgb: (u32, u32, u32)) -> (u32, u32, u32) {
    let hi = max3(rgb.0 as int, rgb.1 as int, rgb.2 as int);
    let lo = min3(rgb.0 as int, rgb.1 as int, rgb.2 as int);
    if hi == lo {
        (255u32, 255u32, 255u32)
    } else {
        ((hi + lo - rgb.0) as u32, (hi + lo - rgb.1) as u32, (hi + lo - rgb.2) as u32)
    }
}

/// Turning the hue of a valid colour by 180 degrees and converting back to
/// red, green and blue mirrors each channel between the least and the greatest
/// channel; for a grey it gives white.
pub proof fn lemma_half_turn_mirrors(rgb: (u32, u32, u32))
    requires
        first_invalid_channel(rgb) is None,
    ensures
        first_invalid_hsv(complement_hsv_of(rgb.0 as int, rgb.1 as int, rgb.2 as int)) is None,
        hsv_rgb_of(complement_hsv_of(rgb.0 as int, rgb.1 as int, rgb.2 as int)) == complement_of(
            rgb,
        ),
{
    let (r, g, b) = (rgb.0 as int, rgb.1 as int, rgb.2 as int);
    let own = hsv_of(r, g, b);
    let turned = complement_hsv_of(r, g, b);
    let hi = max3(r, g, b);
    let chroma = hi - min3(r, g, b);
    if chroma > 0 {
        let six = hue_sixths(r, g, b);
        let (k, rem) = lemma_sector_split(own.hue, six, chroma);
        let far = if six >= 3 * chroma {
            six - 3 * chroma
        } else {
            six + 3 * chroma
        };
        assert(turned.hue.num == 60 * far);
        let (k2, rem2) = lemma_sector_split(turned.hue, far, chroma);
        assert(rem2 == rem && (k2 == k + 3 || k2 == k - 3));
        lemma_channel_of_blend(turned, Blend::Full, hi, chroma, rem);
        lemma_channel_of_blend(turned, Blend::Base, hi, chroma, rem);
        lemma_channel_of_blend(turned, Blend::Falling, hi, chroma, rem);
        lemma_channel_of_blend(turned, Blend::Rising, hi, chroma, rem);
    }
}

/// The colour opposite on the hue circle: the colour is converted to hue,
/// saturation and value, its hue is turned by 180 degrees, and the result is
/// converted back.
///
/// A channel above 255 is refused, and the error names the first such channel.
pub fn complement_rgb(rgb: (u32, u32, u32)) -> (res: Result<(u32, u32, u32), ColorError>)
    ensures
        match first_invalid_channel(rgb) {
            Some(c) => res == Err::<(u32, u32, u32), ColorError>(ColorError::InvalidInput(c)),
            None => res == Ok::<(u32, u32, u32), ColorError>(complement_of(rgb)),
        },
        res matches Ok(other) ==> first_invalid_channel(other) is None,
{
    match complement_hsv(rgb) {
        Err(e) => Err(e),
        Ok(turned) => {
            proof {
                lemma_half_turn_mirrors(rgb);
            }
            hsv_to_rgb(turned)
        },
    }
}

/// The opposite of a valid colour is a valid colour, and the opposite of the
/// opposite is the colour itself, unless the colour is a grey: the opposite of
/// a grey is white, and so is the opposite of white.
pub proof fn lemma_complementary_twice(rgb: (u32, u32, u32))
    requires
        first_invalid_channel(rgb) is None,
    ensures
        first_invalid_channel(complement_of(rgb)) is None,
        !(rgb.0 == rgb.1 && rgb.1 == rgb.2) ==> complement_of(complement_of(rgb)) == rgb,
        rgb.0 == rgb.1 && rgb.1 == rgb.2 ==> complement_of(complement_of(rgb)) == (
            255u32,
            255u32,
            255u32,
        ),
{
}

} // verus!
