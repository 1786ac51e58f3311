use crate::error::ColorError;
use crate::fraction::Fraction;
use crate::rgb::{check_channels, extrema, first_invalid_channel, max3, max_channel, min3};
use vstd::prelude::*;

verus! {

/// Six times the hue's share of a full turn, multiplied by the chroma `max - min`.
///
/// With red greatest it is `g - b`, taken up by a full turn where that is
/// negative; with green greatest `b - r` and two sixths; with blue greatest
/// `r - g` and four sixths.
pub open spec fn hue_sixths(r: int, g: int, b: int) -> int {
    let chroma = max3(r, g, b) - min3(r, g, b);
    if max_channel(r, g, b) == 0 {
        if g < b {
            g - b + 6 * chroma
        } else {
            g - b
        }
    } else if max_channel(r, g, b) == 1 {
        b - r + 2 * chroma
    } else {
        r - g + 4 * chroma
    }
}

/// The hue in degrees: zero for a grey, else sixty degrees for each sixth of a turn.
pub open spec fn hue_of(r: int, g: int, b: int) -> Fraction {
    let chroma = max3(r, g, b) - min3(r, g, b);
    if chroma == 0 {
        Fraction { num: 0, den: 1 }
    } else {
        Fraction { num: (60 * hue_sixths(r, g, b)) as u32, den: chroma as u32 }
    }
}

/// Hue in degrees, saturation and value in percent.
#[derive(Clone, Copy, Debug, PartialEq, Eq, Structural)]
pub struct Hsv {
    pub hue: Fraction,
    pub saturation: Fraction,
    pub value: Fraction,
}

/// Hue in degrees, saturation and lightness in percent.
#[derive(Clone, Copy, Debug, PartialEq, Eq, Structural)]
pub struct Hsl {
    pub hue: Fraction,
    pub saturation: Fraction,
    pub lightness: Fraction,
}

/// The colour in the hue, saturation, value model.
///
/// The value is the greatest channel as a share of 255, in percent. A grey
/// has hue and saturation zero; any other colour has the chroma as a share of
/// the greatest channel, in percent, for its saturation.
pub open spec fn hsv_of(r: int, g: int, b: int) -> Hsv {
    let hi = max3(r, g, b);
    let lo = min3(r, g, b);
    Hsv {
        hue: hue_of(r, g, b),
        saturation: if hi == lo {
            Fraction { num: 0, den: 1 }
        } else {
            Fraction { num: (100 * (hi - lo)) as u32, den: hi as u32 }
        },
        value: Fraction { num: (100 * hi) as u32, den: 255 },
    }
}

/// The distance of `hi + lo` from 255: 255 times the distance of twice the lightness from one.
pub open spec fn lightness_offset(hi: int, lo: int) -> int {
    if hi + lo >= 255 {
        hi + lo - 255
    } else {
        255 - (hi + lo)
    }
}

/// The colour in the hue, saturation, lightness model.
///
/// The lightness is the mean of the greatest and the least channel as a share
/// of 255, in percent. A grey has hue and saturation zero; any other colour
/// has, for its saturation, the chroma divided by one less the distance of
/// twice the lightness from one, in percent.
pub open spec fn hsl_of(r: int, g: int, b: int) -> Hsl {
    let hi = max3(r, g, b);
    let lo = min3(r, g, b);
    Hsl {
        hue: hue_of(r, g, b),
        saturation: if hi == lo {
            Fraction { num: 0, den: 1 }
        } else {
            Fraction {
                num: (100 * (hi - lo)) as u32,
                den: (255 - lightness_offset(hi, lo)) as u32,
            }
        },
        lightness: Fraction { num: (100 * (hi + lo)) as u32, den: 510 },
    }
}

fn hue(r: u32, g: u32, b: u32) -> (h: Fraction)
    requires
        first_invalid_channel((r, g, b)) is None,
    ensures
        h == hue_of(r as int, g as int, b as int),
{
    let e = extrema(r, g, b);
    let chroma: u32 = e.max - e.min;
    if chroma == 0 {
        return Fraction::zero();
    }
    let sixths: u32 = if e.max_index == 0 {
        if g < b {
            6 * chroma - (b - g)
        } else {
            g - b
        }
    } else if e.max_index == 1 {
        if b < r {
            2 * chroma - (r - b)
        } else {
            2 * chroma + (b - r)
        }
    } else {
        if r < g {
            4 * chroma - (g - r)
        } else {
            4 * chroma + (r - g)
        }
    };
    Fraction { num: 60 * sixths, den: chroma }
}

/// Converts red, green and blue to hue, saturation and value, exactly.
///
/// A channel above 255 is refused, and the error names the first such channel.
pub fn rgb_to_hsv(rgb: (u32, u32, u32)) -> (res: Result<Hsv, ColorError>)
    ensures
        match first_invalid_channel(rgb) {
            Some(c) => res == Err::<Hsv, ColorError>(ColorError::InvalidInput(c)),
            None => res == Ok::<Hsv, ColorError>(hsv_of(rgb.0 as int, rgb.1 as int, rgb.2 as int)),
        },
{
    match check_channels(rgb) {
        Err(e) => { return Err(e); },
        Ok(_) => {},
    }
    let (r, g, b) = rgb;
    let e = extrema(r, g, b);
    let value = Fraction { num: 100 * e.max, den: 255 };
    if e.max == e.min {
        return Ok(Hsv { hue: Fraction::zero(), saturation: Fraction::zero(), value });
    }
    let saturation = Fraction { num: 100 * (e.max - e.min), den: e.max };
    Ok(Hsv { hue: hue(r, g, b), saturation, value })
}

/// Converts red, green and blue to hue, saturation and lightness, exactly.
///
/// A channel above 255 is refused, and the error names the first such channel.
pub fn rgb_to_hsl(rgb: (u32, u32, u32)) -> (res: Result<Hsl, ColorError>)
    ensures
        match first_invalid_channel(rgb) {
            Some(c) => res == Err::<Hsl, ColorError>(ColorError::InvalidInput(c)),
            None => res == Ok::<Hsl, ColorError>(hsl_of(rgb.0 as int, rgb.1 as int, rgb.2 as int)),
        },
{
    match check_channels(rgb) {
        Err(e) => { return Err(e); },
        Ok(_) => {},
    }
    let (r, g, b) = rgb;
    let e = extrema(r, g, b);
    let sum: u32 = e.max + e.min;
    let lightness = Fraction { num: 100 * sum, den: 510 };
    if e.max == e.min {
        return Ok(Hsl { hue: Fraction::zero(), saturation: Fraction::zero(), lightness });
    }
    let span: u32 = if sum >= 255 {
        510 - sum
    } else {
        sum
    };
    let saturation = Fraction { num: 100 * (e.max - e.min), den: span };
    Ok(Hsl { hue: hue(r, g, b), saturation, lightness })
}

/// The hue half a turn further, brought back below 360 degrees.
pub open spec fn opposite_hue(h: Fraction) -> Fraction {
    if h.num + 180 * h.den >= 360 * h.den {
        Fraction { num: (h.num - 180 * h.den) as u32, den: h.den }
    } else {
        Fraction { num: (h.num + 180 * h.den) as u32, den: h.den }
    }
}

/// Turns a hue by 180 degrees and wraps it into the range from 0 up to 360.
pub fn shift_hue(h: Fraction) -> (turned: Fraction)
    requires
        h.below(360),
        360 * h.den <= u32::MAX,
    ensures
        turned == opposite_hue(h),
        turned.below(360),
{
    let half: u32 = 180 * h.den;
    if h.num >= half {
        Fraction { num: h.num - half, den: h.den }
    } else {
        Fraction { num: h.num + half, den: h.den }
    }
}

/// The colour opposite on the hue circle, in the hue, saturation, value model:
/// the colour's own saturation and value, and its hue turned by 180 degrees.
pub open spec fn complement_hsv_of(r: int, g: int, b: int) -> Hsv {
    let own = hsv_of(r, g, b);
    Hsv { hue: opposite_hue(own.hue), saturation: own.saturation, value: own.value }
}

/// Converts red, green and blue to hue, saturation and value and turns the hue by 180 degrees.
///
/// A channel above 255 is refused, and the error names the first such channel.
pub fn complement_hsv(rgb: (u32, u32, u32)) -> (res: Result<Hsv, ColorError>)
    ensures
        match first_invalid_channel(rgb) {
            Some(c) => res == Err::<Hsv, ColorError>(ColorError::InvalidInput(c)),
            None => res == Ok::<Hsv, ColorError>(
                complement_hsv_of(rgb.0 as int, rgb.1 as int, rgb.2 as int),
            ),
        },
{
    match rgb_to_hsv(rgb) {
        Err(e) => Err(e),
        Ok(own) => {
            proof {
                lemma_cylindrical_ranges(rgb);
            }
            Ok(Hsv { hue: shift_hue(own.hue), saturation: own.saturation, value: own.value })
        },
    }
}

/// Which of the four blends of a hue sector a channel takes.
#[derive(Clone, Copy, Debug, PartialEq, Eq, Structural)]
pub enum Blend {
    /// The value itself.
    Full,
    /// The value without its saturated part.
    Base,
    /// Falling from the value towards the base as the hue crosses the sector.
    Falling,
    /// Rising from the base towards the value as the hue crosses the sector.
    Rising,
}

/// The blends of red, green and blue in each of the six hue sectors.
pub open spec fn sector_blends(sector: int) -> (Blend, Blend, Blend) {
    let k = sector % 6;
    if k == 0 {
        (Blend::Full, Blend::Rising, Blend::Base)
    } else if k == 1 {
        (Blend::Falling, Blend::Full, Blend::Base)
    } else if k == 2 {
        (Blend::Base, Blend::Full, Blend::Rising)
    } else if k == 3 {
        (Blend::Base, Blend::Falling, Blend::Full)
    } else if k == 4 {
        (Blend::Rising, Blend::Base, Blend::Full)
    } else {
        (Blend::Full, Blend::Base, Blend::Falling)
    }
}

/// Picks the blends of red, green and blue for a hue sector, counted from zero and taken modulo six.
pub fn sector_layout(sector: u32) -> (layout: (Blend, Blend, Blend))
    ensures
        layout == sector_blends(sector as int),
{
    match sector % 6 {
        0 => (Blend::Full, Blend::Rising, Blend::Base),
        1 => (Blend::Falling, Blend::Full, Blend::Base),
        2 => (Blend::Base, Blend::Full, Blend::Rising),
        3 => (Blend::Base, Blend::Falling, Blend::Full),
        4 => (Blend::Rising, Blend::Base, Blend::Full),
        _ => (Blend::Full, Blend::Base, Blend::Falling),
    }
}

/// Of a valid colour the hue lies from 0 up to, but not at, 360 degrees, and
/// saturation, value and lightness lie from 0 to 100 percent.
pub proof fn lemma_cylindrical_ranges(rgb: (u32, u32, u32))
    requires
        first_invalid_channel(rgb) is None,
    ensures
        hsv_of(rgb.0 as int, rgb.1 as int, rgb.2 as int).hue.below(360),
        hsl_of(rgb.0 as int, rgb.1 as int, rgb.2 as int).hue.below(360),
        hsv_of(rgb.0 as int, rgb.1 as int, rgb.2 as int).saturation.at_most(100),
        hsv_of(rgb.0 as int, rgb.1 as int, rgb.2 as int).value.at_most(100),
        hsl_of(rgb.0 as int, rgb.1 as int, rgb.2 as int).saturation.at_most(100),
        hsl_of(rgb.0 as int, rgb.1 as int, rgb.2 as int).lightness.at_most(100),
{
}

/// Both cylindrical models give a colour the same hue.
pub proof fn lemma_same_hue(rgb: (u32, u32, u32))
    ensures
        hsv_of(rgb.0 as int, rgb.1 as int, rgb.2 as int).hue == hsl_of(
            rgb.0 as int,
            rgb.1 as int,
            rgb.2 as int,
        ).hue,
{
}

/// Turning a hue by half a turn twice gives the hue back.
pub proof fn lemma_shift_hue_twice(h: Fraction)
    requires
        h.below(360),
        360 * h.den <= u32::MAX,
    ensures
        opposite_hue(h).below(360),
        opposite_hue(opposite_hue(h)) == h,
{
}

} // verus!
