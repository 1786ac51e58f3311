use crate::cylindrical::{hsl_of, hue_sixths, Hsl};
use crate::error::{ColorError, Component};
use crate::fraction::{lemma_product_bound, Fraction};
use crate::rgb::{first_invalid_channel, max3, min3};
use crate::validate::{check_hue, check_percentage, valid_hue, valid_percentage};
use vstd::arithmetic::div_mod::lemma_div_multiples_vanish;
use vstd::prelude::*;

verus! {

/// The first of hue, saturation and lightness that is out of range, if any.
///
/// The hue may be anything from 0 to 360 degrees, both ends included;
/// saturation and lightness anything from 0 to 100 percent. A component
/// without a value is out of range.
pub open spec fn first_invalid_hsl(c: Hsl) -> Option<Component> {
    if !valid_hue(c.hue) {
        Some(Component::Hue)
    } else if !valid_percentage(c.saturation) {
        Some(Component::Saturation)
    } else if !valid_percentage(c.lightness) {
        Some(Component::Lightness)
    } else {
        None
    }
}

/// The upper level that the channels move between, in units of which
/// `100 * lightness.den * 100 * saturation.den` make one.
///
/// With `l` the lightness and `s` the saturation as shares of one, it is
/// `l * (1 + s)` below half lightness and `l + s - l * s` from there on.
pub open spec fn upper_level(c: Hsl) -> int {
    let a = c.lightness.num as int;
    let b = 100 * c.lightness.den;
    let s = c.saturation.num as int;
    let d = 100 * c.saturation.den;
    if 2 * a < b {
        a * (d + s)
    } else {
        a * d + s * b - a * s
    }
}

/// The lower level, in the same units: twice the lightness less the upper level.
pub open spec fn lower_level(c: Hsl) -> int {
    2 * (c.lightness.num * (100 * c.saturation.den)) - upper_level(c)
}

/// Where a channel stands on the hue circle, in units of which `1080 * hue.den`
/// make the full turn: the hue moved by `third` thirds of a turn, and brought
/// back by one turn where it left the circle.
pub open spec fn wrapped_turn(hue: Fraction, third: int) -> int {
    let full = 1080 * hue.den;
    let t = 3 * hue.num + third * (360 * hue.den);
    if t < 0 {
        t + full
    } else if t > full {
        t - full
    } else {
        t
    }
}

/// How far a channel at place `t` of a circle of `full` units has climbed from
/// the lower to the upper level, in units of which `full` make the whole way:
/// it climbs over the first sixth, stays up to the half, comes down up to two
/// thirds, and stays down after that.
pub open spec fn climb(t: int, full: int) -> int {
    if 6 * t < full {
        6 * t
    } else if 2 * t < full {
        full
    } else if 3 * t < 2 * full {
        4 * full - 6 * t
    } else {
        0
    }
}

/// The level of a channel at its place on the circle, times the full turn: the
/// lower level, and of the way up to the upper level as much as it has climbed.
pub open spec fn ramp(c: Hsl, third: int) -> int {
    let full = 1080 * c.hue.den;
    let p = lower_level(c);
    let q = upper_level(c);
    p * full + (q - p) * climb(wrapped_turn(c.hue, third), full)
}

/// The denominator that `ramp` counts in.
pub open spec fn ramp_scale(c: Hsl) -> int {
    ((100 * c.lightness.den) * (100 * c.saturation.den)) * (1080 * c.hue.den)
}

/// A channel on the scale from 0 to 255, cut off to a whole number.
pub open spec fn ramp_channel(c: Hsl, third: int) -> int {
    (255 * ramp(c, third)) / ramp_scale(c)
}

/// Red, green and blue of a colour given by hue, saturation and lightness:
/// red stands a third of a turn ahead of the hue, green at the hue, blue a
/// third behind.
///
/// A colour without saturation is reported as white, whatever its lightness.
pub open spec fn hsl_rgb_of(c: Hsl) -> (u32, u32, u32) {
    if c.saturation.num == 0 {
        (255u32, 255u32, 255u32)
    } else {
        (ramp_channel(c, 1) as u32, ramp_channel(c, 0) as u32, ramp_channel(c, -1) as u32)
    }
}

/// A channel's place on the circle, for each of the three channels.
proof fn lemma_wrapped_turn(hue: Fraction, third: int)
    requires
        hue.at_most(360),
        -1 <= third <= 1,
    ensures
        0 <= wrapped_turn(hue, third) <= 1080 * hue.den,
        wrapped_turn(hue, third) == if third == 1 {
            if 3 * hue.num + 360 * hue.den > 1080 * hue.den {
                3 * hue.num + 360 * hue.den - 1080 * hue.den
            } else {
                3 * hue.num + 360 * hue.den
            }
        } else if third == 0 {
            3 * hue.num
        } else if 3 * hue.num < 360 * hue.den {
            3 * hue.num + 1080 * hue.den - 360 * hue.den
        } else {
            3 * hue.num - 360 * hue.den
        },
{
    let turn = 360 * hue.den;
    assert(third * turn == if third == 1 {
        turn
    } else if third == 0 {
        0
    } else {
        -turn
    }) by (nonlinear_arith)
        requires
            -1 <= third <= 1,
    ;
}

/// The levels are ordered: nothing, the lower level, the upper level, one.
proof fn lemma_levels(c: Hsl)
    requires
        first_invalid_hsl(c) is None,
    ensures
        0 <= lower_level(c) <= upper_level(c) <= (100 * c.lightness.den) * (100
            * c.saturation.den),
{
    let a = c.lightness.num as int;
    let b = 100 * c.lightness.den;
    let s = c.saturation.num as int;
    let d = 100 * c.saturation.den;
    let q = upper_level(c);
    assert(0 <= 2 * (a * d) - q <= q <= b * d) by (nonlinear_arith)
        requires
            0 <= a <= b,
            0 <= s <= d,
            q == if 2 * a < b {
                a * (d + s)
            } else {
                a * d + s * b - a * s
            },
    ;
}

/// A channel's level lies between nothing and one.
proof fn lemma_ramp_bounds(c: Hsl, third: int)
    requires
        first_invalid_hsl(c) is None,
        -1 <= third <= 1,
    ensures
        0 <= wrapped_turn(c.hue, third) <= 1080 * c.hue.den,
        0 <= ramp(c, third) <= ramp_scale(c),
{
    lemma_levels(c);
    let full = 1080 * c.hue.den;
    let t = wrapped_turn(c.hue, third);
    let p = lower_level(c);
    let q = upper_level(c);
    let one = (100 * c.lightness.den) * (100 * c.saturation.den);
    lemma_wrapped_turn(c.hue, third);
    let along = climb(t, full);
    assert(0 <= p * full + (q - p) * along <= one * full) by (nonlinear_arith)
        requires
            0 <= p <= q <= one,
            0 <= along <= full,
    ;
}

fn level_channel(c: Hsl, third: i8) -> (ch: u32)
    requires
        first_invalid_hsl(c) is None,
        -1 <= third <= 1,
    ensures
        ch as int == ramp_channel(c, third as int),
        ch <= 255,
{
    let a: u128 = c.lightness.num as u128;
    let b: u128 = 100 * (c.lightness.den as u128);
    let s: u128 = c.saturation.num as u128;
    let d: u128 = 100 * (c.saturation.den as u128);
    let turn: u128 = 360 * (c.hue.den as u128);
    let full: u128 = 1080 * (c.hue.den as u128);
    let place: u128 = 3 * (c.hue.num as u128);
    proof {
        lemma_levels(c);
        lemma_ramp_bounds(c, third as int);
        lemma_product_bound(b as int, d as int, 429496729500, 429496729500);
        lemma_product_bound(
            (b * d) as int,
            full as int,
            429496729500int * 429496729500int,
            4638564678600,
        );
        lemma_product_bound(a as int, d as int, b as int, d as int);
        lemma_product_bound(a as int, s as int, b as int, d as int);
        lemma_product_bound(s as int, b as int, d as int, b as int);
        lemma_product_bound(a as int, (d + s) as int, b as int, 2 * d as int);
        assert(d * b == b * d) by (nonlinear_arith);
        assert(b * (2 * d) == 2 * (b * d)) by (nonlinear_arith);
        assert(b * d >= 1) by (nonlinear_arith)
            requires
                b >= 1,
                d >= 1,
        ;
        assert((b * d) * full >= 1) by (nonlinear_arith)
            requires
                b * d >= 1,
                full >= 1,
        ;
    }
    let one: u128 = b * d;
    let q: u128 = if 2 * a < b {
        a * (d + s)
    } else {
        a * d + s * b - a * s
    };
    let p: u128 = 2 * (a * d) - q;
    let t: u128 = if third == 1 {
        if place + turn > full {
            place + turn - full
        } else {
            place + turn
        }
    } else if third == 0 {
        place
    } else if place < turn {
        place + full - turn
    } else {
        place - turn
    };
    proof {
        lemma_wrapped_turn(c.hue, third as int);
    }
    let along: u128 = if 6 * t < full {
        6 * t
    } else if 2 * t < full {
        full
    } else if 3 * t < 2 * full {
        4 * full - 6 * t
    } else {
        0
    };
    proof {
        lemma_product_bound(p as int, full as int, one as int, full as int);
        lemma_product_bound((q - p) as int, along as int, one as int, full as int);
        assert(p * full + (q - p) * along <= one * full) by (nonlinear_arith)
            requires
                0 <= p <= q <= one,
                0 <= along <= full,
        ;
        assert(along as int == climb(t as int, full as int));
    }
    let level: u128 = p * full + (q - p) * along;
    let scale: u128 = one * full;
    let amount: u128 = 255 * level;
    proof {
        assert(amount / scale <= 255) by (nonlinear_arith)
            requires
                amount <= 255 * scale,
                scale >= 1,
        ;
    }
    (amount / scale) as u32
}

/// Converts hue, saturation and lightness to red, green and blue, exactly; the
/// channels are cut off to whole numbers, not rounded.
///
/// A component out of range is refused, and the error names the first such
/// component. A colour without saturation comes back as white.
pub fn hsl_to_rgb(c: Hsl) -> (res: Result<(u32, u32, u32), ColorError>)
    ensures
        match first_invalid_hsl(c) {
            Some(bad) => res == Err::<(u32, u32, u32), ColorError>(ColorError::InvalidInput(bad)),
            None => res == Ok::<(u32, u32, u32), ColorError>(hsl_rgb_of(c)),
        },
        res matches Ok(rgb) ==> first_invalid_channel(rgb) is None,
{
    if !check_hue(&c.hue) {
        return Err(ColorError::InvalidInput(Component::Hue));
    }
    if !check_percentage(&c.saturation) {
        return Err(ColorError::InvalidInput(Component::Saturation));
    }
    if !check_percentage(&c.lightness) {
        return Err(ColorError::InvalidInput(Component::Lightness));
    }
    if c.saturation.num == 0 {
        return Ok((255, 255, 255));
    }
    Ok((level_channel(c, 1), level_channel(c, 0), level_channel(c, -1)))
}

/// Every channel of a valid colour lies from 0 to 255.
pub proof fn lemma_ramp_channel_range(c: Hsl, third: int)
    requires
        first_invalid_hsl(c) is None,
        -1 <= third <= 1,
    ensures
        0 <= ramp_channel(c, third) <= 255,
{
    lemma_ramp_bounds(c, third);
    let level = ramp(c, third);
    let scale = ramp_scale(c);
    assert(scale >= 1) by (nonlinear_arith)
        requires
            scale == ((100 * c.lightness.den) * (100 * c.saturation.den)) * (1080 * c.hue.den),
            c.lightness.den >= 1,
            c.saturation.den >= 1,
            c.hue.den >= 1,
    ;
    assert(0 <= (255 * level) / scale <= 255) by (nonlinear_arith)
        requires
            0 <= level <= scale,
            scale >= 1,
    ;
}

/// A valid colour given by hue, saturation and lightness has valid red, green and blue.
pub proof fn lemma_hsl_rgb_valid(c: Hsl)
    requires
        first_invalid_hsl(c) is None,
    ensures
        first_invalid_channel(hsl_rgb_of(c)) is None,
{
    lemma_ramp_channel_range(c, 1);
    lemma_ramp_channel_range(c, 0);
    lemma_ramp_channel_range(c, -1);
}

/// The place of a channel on a circle of `6 * chroma` units, for a hue of `six` units.
spec fn place(six: int, chroma: int, third: int) -> int {
    let raw = if third == 1 {
        six + 2 * chroma
    } else if third == 0 {
        six
    } else {
        six - 2 * chroma
    };
    if raw < 0 {
        raw + 6 * chroma
    } else if raw > 6 * chroma {
        raw - 6 * chroma
    } else {
        raw
    }
}

/// How far above the least channel a channel at place `tau` stands.
spec fn height(tau: int, chroma: int) -> int {
    if tau < chroma {
        tau
    } else if tau < 3 * chroma {
        chroma
    } else if tau < 4 * chroma {
        4 * chroma - tau
    } else {
        0
    }
}

/// The channel at one place of the circle, for a colour that came from
/// channels with greatest value `hi`, least value `lo` and a hue of `six` units.
proof fn lemma_channel_of_place(c: Hsl, third: int, six: int, hi: int, lo: int)
    requires
        0 <= lo < hi <= 255,
        0 <= six < 6 * (hi - lo),
        -1 <= third <= 1,
        c.hue.num == 60 * six,
        c.hue.den == hi - lo,
        c.saturation.num == 100 * (hi - lo),
        c.saturation.den == if hi + lo < 255 {
            hi + lo
        } else {
            510 - (hi + lo)
        },
        c.lightness.num == 100 * (hi + lo),
        c.lightness.den == 510,
    ensures
        ramp_channel(c, third) == lo + height(place(six, hi - lo, third), hi - lo),
{
    let chroma = hi - lo;
    let sum = hi + lo;
    let w = c.saturation.den as int;
    let unit = 20000 * w;
    let a = 100 * sum;
    let b = 51000int;
    let s = 100 * chroma;
    let d = 100 * w;
    let q = upper_level(c);
    let p = lower_level(c);
    assert(q == hi * unit) by (nonlinear_arith)
        requires
            q == if 2 * a < b {
                a * (d + s)
            } else {
                a * d + s * b - a * s
            },
            a == 100 * (hi + lo),
            b == 51000,
            s == 100 * (hi - lo),
            d == 100 * w,
            w == if hi + lo < 255 {
                hi + lo
            } else {
                510 - (hi + lo)
            },
            unit == 20000 * w,
    ;
    assert(p == lo * unit) by (nonlinear_arith)
        requires
            p == 2 * (a * d) - q,
            q == hi * unit,
            a == 100 * (hi + lo),
            d == 100 * w,
            unit == 20000 * w,
    ;
    let one = b * d;
    assert(one == 255 * unit);
    let full = 1080 * chroma;
    let tau = place(six, chroma, third);
    let y = height(tau, chroma);
    lemma_wrapped_turn(c.hue, third);
    let t = wrapped_turn(c.hue, third);
    assert(t == 180 * tau);
    assert(climb(t, full) == 1080 * y);
    let level = ramp(c, third);
    let x = lo + y;
    let scale = ramp_scale(c);
    assert(255 * level == scale * x) by (nonlinear_arith)
        requires
            level == p * full + (q - p) * (1080 * y),
            p == lo * unit,
            q == hi * unit,
            full == 1080 * (hi - lo),
            scale == (255 * unit) * full,
            x == lo + y,
    ;
    assert(scale > 0) by (nonlinear_arith)
        requires
            scale == (255 * unit) * (1080 * chroma),
            unit > 0,
            chroma > 0,
    ;
    lemma_div_multiples_vanish(x, scale);
}

/// Converting a valid colour to hue, saturation and lightness and back gives
/// the very same red, green and blue, unless the colour is a grey: a grey
/// comes back as white.
pub proof fn lemma_hsl_round_trip(rgb: (u32, u32, u32))
    requires
        first_invalid_channel(rgb) is None,
    ensures
        first_invalid_hsl(hsl_of(rgb.0 as int, rgb.1 as int, rgb.2 as int)) is None,
        rgb.0 == rgb.1 && rgb.1 == rgb.2 ==> hsl_rgb_of(
            hsl_of(rgb.0 as int, rgb.1 as int, rgb.2 as int),
        ) == (255u32, 255u32, 255u32),
        !(rgb.0 == rgb.1 && rgb.1 == rgb.2) ==> hsl_rgb_of(
            hsl_of(rgb.0 as int, rgb.1 as int, rgb.2 as int),
        ) == rgb,
{
    let (r, g, b) = (rgb.0 as int, rgb.1 as int, rgb.2 as int);
    let c = hsl_of(r, g, b);
    let hi = max3(r, g, b);
    let lo = min3(r, g, b);
    if hi > lo {
        let six = hue_sixths(r, g, b);
        lemma_channel_of_place(c, 1, six, hi, lo);
        lemma_channel_of_place(c, 0, six, hi, lo);
        lemma_channel_of_place(c, -1, six, hi, lo);
        assert(ramp_channel(c, 1) == r);
        assert(ramp_channel(c, 0) == g);
        assert(ramp_channel(c, -1) == b);
    }
}

} // verus!
