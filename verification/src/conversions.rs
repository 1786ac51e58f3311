use crate::alpha::{alpha_of, checked_alpha};
use crate::cmyk::{cmyk_of, rgb_to_cmyk, Cmyk};
use crate::cylindrical::{hsl_of, hsv_of, rgb_to_hsl, rgb_to_hsv, Hsl, Hsv};
use crate::error::{ColorError, Component};
use crate::fraction::Fraction;
use crate::rgb::{first_invalid_channel, valid_rgba};
use crate::cmyk::lemma_cmyk_ranges;
use crate::cylindrical::lemma_cylindrical_ranges;
use crate::from_cmyk::{
    cmyk_rgb_of, cmyk_to_rgb, first_invalid_cmyk, lemma_cmyk_rgb_valid, lemma_cmyk_round_trip,
};
use crate::from_hsl::{
    first_invalid_hsl, hsl_rgb_of, hsl_to_rgb, lemma_hsl_rgb_valid, lemma_hsl_round_trip,
};
use crate::from_hsv::{
    complement_of, complement_rgb, first_invalid_hsv, hsv_rgb_of, hsv_to_rgb,
    lemma_complementary_twice, lemma_hsv_rgb_valid, lemma_hsv_round_trip,
};
use crate::validate::{valid_alpha, valid_percentage};
use vstd::prelude::*;

verus! {

/// The first component of a colour that is out of range, in the order red,
/// green, blue, alpha, if any; where no alpha is given, the alpha is one.
pub open spec fn first_invalid_rgba(rgba: (u32, u32, u32, Option<Fraction>)) -> Option<
    Component,
> {
    match first_invalid_channel((rgba.0, rgba.1, rgba.2)) {
        Some(c) => Some(c),
        None => if valid_alpha(alpha_of(rgba.3)) {
            None
        } else {
            Some(Component::Alpha)
        },
    }
}

/// What `rgba_to_hsla` answers.
pub open spec fn hsla_of_rgba(rgba: (u32, u32, u32, Option<Fraction>)) -> Result<
    (Fraction, Fraction, Fraction, Fraction),
    ColorError,
> {
    match first_invalid_rgba(rgba) {
        Some(c) => Err(ColorError::InvalidInput(c)),
        None => {
            let m = hsl_of(rgba.0 as int, rgba.1 as int, rgba.2 as int);
            Ok((m.hue, m.saturation, m.lightness, alpha_of(rgba.3)))
        },
    }
}

/// What `rgba_to_hsva` answers.
pub open spec fn hsva_of_rgba(rgba: (u32, u32, u32, Option<Fraction>)) -> Result<
    (Fraction, Fraction, Fraction, Fraction),
    ColorError,
> {
    match first_invalid_rgba(rgba) {
        Some(c) => Err(ColorError::InvalidInput(c)),
        None => {
            let m = hsv_of(rgba.0 as int, rgba.1 as int, rgba.2 as int);
            Ok((m.hue, m.saturation, m.value, alpha_of(rgba.3)))
        },
    }
}

/// What `rgba_to_cmyka` answers.
pub open spec fn cmyka_of_rgba(rgba: (u32, u32, u32, Option<Fraction>)) -> Result<
    (Fraction, Fraction, Fraction, Fraction, Fraction),
    ColorError,
> {
    match first_invalid_rgba(rgba) {
        Some(c) => Err(ColorError::InvalidInput(c)),
        None => {
            let m = cmyk_of(rgba.0 as int, rgba.1 as int, rgba.2 as int);
            Ok((m.cyan, m.magenta, m.yellow, m.key, alpha_of(rgba.3)))
        },
    }
}

/// What `complementary` answers.
pub open spec fn complement_of_rgba(rgba: (u32, u32, u32, Option<Fraction>)) -> Result<
    (u32, u32, u32, Fraction),
    ColorError,
> {
    match first_invalid_rgba(rgba) {
        Some(c) => Err(ColorError::InvalidInput(c)),
        None => {
            let m = complement_of((rgba.0, rgba.1, rgba.2));
            Ok((m.0, m.1, m.2, alpha_of(rgba.3)))
        },
    }
}

/// The channels with the alpha, or the refusal of the first component out of
/// range, the alpha coming last.
pub open spec fn with_alpha(
    bad: Option<Component>,
    rgb: (u32, u32, u32),
    a: Option<Fraction>,
) -> Result<(u32, u32, u32, Fraction), ColorError> {
    match bad {
        Some(c) => Err(ColorError::InvalidInput(c)),
        None => if valid_alpha(alpha_of(a)) {
            Ok((rgb.0, rgb.1, rgb.2, alpha_of(a)))
        } else {
            Err(ColorError::InvalidInput(Component::Alpha))
        },
    }
}

/// What `hsla_to_rgba` answers.
pub open spec fn rgba_of_hsla(hsla: (Fraction, Fraction, Fraction, Option<Fraction>)) -> Result<
    (u32, u32, u32, Fraction),
    ColorError,
> {
    let m = Hsl { hue: hsla.0, saturation: hsla.1, lightness: hsla.2 };
    with_alpha(first_invalid_hsl(m), hsl_rgb_of(m), hsla.3)
}

/// What `hsva_to_rgba` answers.
pub open spec fn rgba_of_hsva(hsva: (Fraction, Fraction, Fraction, Option<Fraction>)) -> Result<
    (u32, u32, u32, Fraction),
    ColorError,
> {
    let m = Hsv { hue: hsva.0, saturation: hsva.1, value: hsva.2 };
    with_alpha(first_invalid_hsv(m), hsv_rgb_of(m), hsva.3)
}

/// What `cmyka_to_rgba` answers.
pub open spec fn rgba_of_cmyka(
    cmyka: (Fraction, Fraction, Fraction, Fraction, Option<Fraction>),
) -> Result<(u32, u32, u32, Fraction), ColorError> {
    let m = Cmyk { cyan: cmyka.0, magenta: cmyka.1, yellow: cmyka.2, key: cmyka.3 };
    with_alpha(first_invalid_cmyk(m), cmyk_rgb_of(m), cmyka.4)
}

fn attach_alpha(converted: Result<(u32, u32, u32), ColorError>, a: Option<Fraction>) -> (res:
    Result<(u32, u32, u32, Fraction), ColorError>)
    ensures
        converted matches Err(e) ==> res == Err::<(u32, u32, u32, Fraction), ColorError>(e),
        converted matches Ok(rgb) ==> res == with_alpha(None, rgb, a),
        converted matches Ok(rgb) && first_invalid_channel(rgb) is None ==> (res matches Ok(c)
            ==> valid_rgba(c)),
{
    match converted {
        Err(e) => Err(e),
        Ok((r, g, b)) => match checked_alpha(a) {
            Err(e) => Err(e),
            Ok(alpha) => Ok((r, g, b, alpha)),
        },
    }
}

/// Converts a colour to hue in degrees, saturation and lightness in percent, and alpha.
///
/// A channel above 255 or an alpha outside 0 to 1 is refused, and the error
/// names the first such component. Without an alpha the colour is opaque.
pub fn rgba_to_hsla(rgba: (u32, u32, u32, Option<Fraction>)) -> (res: Result<
    (Fraction, Fraction, Fraction, Fraction),
    ColorError,
>)
    ensures
        res == hsla_of_rgba(rgba),
        res matches Ok(m) ==> m.0.below(360) && valid_percentage(m.1) && valid_percentage(m.2)
            && valid_alpha(m.3),
{
    proof {
        if first_invalid_channel((rgba.0, rgba.1, rgba.2)) is None {
            lemma_cylindrical_ranges((rgba.0, rgba.1, rgba.2));
        }
    }
    match rgb_to_hsl((rgba.0, rgba.1, rgba.2)) {
        Err(e) => Err(e),
        Ok(m) => match checked_alpha(rgba.3) {
            Err(e) => Err(e),
            Ok(alpha) => Ok((m.hue, m.saturation, m.lightness, alpha)),
        },
    }
}

/// Converts a colour to hue in degrees, saturation and value in percent, and alpha.
///
/// A channel above 255 or an alpha outside 0 to 1 is refused, and the error
/// names the first such component. Without an alpha the colour is opaque.
pub fn rgba_to_hsva(rgba: (u32, u32, u32, Option<Fraction>)) -> (res: Result<
    (Fraction, Fraction, Fraction, Fraction),
    ColorError,
>)
    ensures
        res == hsva_of_rgba(rgba),
        res matches Ok(m) ==> m.0.below(360) && valid_percentage(m.1) && valid_percentage(m.2)
            && valid_alpha(m.3),
{
    proof {
        if first_invalid_channel((rgba.0, rgba.1, rgba.2)) is None {
            lemma_cylindrical_ranges((rgba.0, rgba.1, rgba.2));
        }
    }
    match rgb_to_hsv((rgba.0, rgba.1, rgba.2)) {
        Err(e) => Err(e),
        Ok(m) => match checked_alpha(rgba.3) {
            Err(e) => Err(e),
            Ok(alpha) => Ok((m.hue, m.saturation, m.value, alpha)),
        },
    }
}

/// Converts a colour to cyan, magenta, yellow and key in percent, and alpha.
///
/// A channel above 255 or an alpha outside 0 to 1 is refused, and the error
/// names the first such component. Without an alpha the colour is opaque. For
/// black the three inks come back as zero by zero, without a value.
pub fn rgba_to_cmyka(rgba: (u32, u32, u32, Option<Fraction>)) -> (res: Result<
    (Fraction, Fraction, Fraction, Fraction, Fraction),
    ColorError,
>)
    ensures
        res == cmyka_of_rgba(rgba),
        res matches Ok(m) ==> valid_percentage(m.3) && valid_alpha(m.4) && (rgba.0 == 0 && rgba.1
            == 0 && rgba.2 == 0 || valid_percentage(m.0) && valid_percentage(m.1)
            && valid_percentage(m.2)),
{
    proof {
        if first_invalid_channel((rgba.0, rgba.1, rgba.2)) is None {
            lemma_cmyk_ranges((rgba.0, rgba.1, rgba.2));
        }
    }
    match rgb_to_cmyk((rgba.0, rgba.1, rgba.2)) {
        Err(e) => Err(e),
        Ok(m) => match checked_alpha(rgba.3) {
            Err(e) => Err(e),
            Ok(alpha) => Ok((m.cyan, m.magenta, m.yellow, m.key, alpha)),
        },
    }
}

/// Converts hue, saturation, lightness and alpha to red, green, blue and alpha.
///
/// A hue outside 0 to 360, a saturation or lightness outside 0 to 100 or an
/// alpha outside 0 to 1 is refused, and the error names the first such
/// component. A colour without saturation comes back as white.
pub fn hsla_to_rgba(hsla: (Fraction, Fraction, Fraction, Option<Fraction>)) -> (res: Result<
    (u32, u32, u32, Fraction),
    ColorError,
>)
    ensures
        res == rgba_of_hsla(hsla),
        res matches Ok(c) ==> valid_rgba(c),
{
    let m = Hsl { hue: hsla.0, saturation: hsla.1, lightness: hsla.2 };
    attach_alpha(hsl_to_rgb(m), hsla.3)
}

/// Converts hue, saturation, value and alpha to red, green, blue and alpha.
///
/// A hue outside 0 to 360, a saturation or value outside 0 to 100 or an alpha
/// outside 0 to 1 is refused, and the error names the first such component. A
/// colour without saturation comes back as white.
pub fn hsva_to_rgba(hsva: (Fraction, Fraction, Fraction, Option<Fraction>)) -> (res: Result<
    (u32, u32, u32, Fraction),
    ColorError,
>)
    ensures
        res == rgba_of_hsva(hsva),
        res matches Ok(c) ==> valid_rgba(c),
{
    let m = Hsv { hue: hsva.0, saturation: hsva.1, value: hsva.2 };
    attach_alpha(hsv_to_rgb(m), hsva.3)
}

/// Converts cyan, magenta, yellow, key and alpha to red, green, blue and alpha.
///
/// An ink or key outside 0 to 100 or an alpha outside 0 to 1 is refused, and
/// the error names the first such component.
pub fn cmyka_to_rgba(cmyka: (Fraction, Fraction, Fraction, Fraction, Option<Fraction>)) -> (res:
    Result<(u32, u32, u32, Fraction), ColorError>)
    ensures
        res == rgba_of_cmyka(cmyka),
        res matches Ok(c) ==> valid_rgba(c),
{
    let m = Cmyk { cyan: cmyka.0, magenta: cmyka.1, yellow: cmyka.2, key: cmyka.3 };
    attach_alpha(cmyk_to_rgb(m), cmyka.4)
}

/// The colour opposite on the hue circle, with the colour's own alpha.
///
/// A channel above 255 or an alpha outside 0 to 1 is refused, and the error
/// names the first such component. A grey comes back as white.
pub fn complementary(rgba: (u32, u32, u32, Option<Fraction>)) -> (res: Result<
    (u32, u32, u32, Fraction),
    ColorError,
>)
    ensures
        res == complement_of_rgba(rgba),
        res matches Ok(c) ==> valid_rgba(c),
{
    attach_alpha(complement_rgb((rgba.0, rgba.1, rgba.2)), rgba.3)
}

/// Whatever a conversion to red, green, blue and alpha gives is a valid
/// colour: each channel lies from 0 to 255 and the alpha from 0 to 1.
pub proof fn lemma_converted_rgba_valid(
    hsla: (Fraction, Fraction, Fraction, Option<Fraction>),
    hsva: (Fraction, Fraction, Fraction, Option<Fraction>),
    cmyka: (Fraction, Fraction, Fraction, Fraction, Option<Fraction>),
    rgba: (u32, u32, u32, Option<Fraction>),
)
    ensures
        rgba_of_hsla(hsla) matches Ok(c) ==> valid_rgba(c),
        rgba_of_hsva(hsva) matches Ok(c) ==> valid_rgba(c),
        rgba_of_cmyka(cmyka) matches Ok(c) ==> valid_rgba(c),
        complement_of_rgba(rgba) matches Ok(c) ==> valid_rgba(c),
{
    let l = Hsl { hue: hsla.0, saturation: hsla.1, lightness: hsla.2 };
    if first_invalid_hsl(l) is None {
        lemma_hsl_rgb_valid(l);
    }
    let v = Hsv { hue: hsva.0, saturation: hsva.1, value: hsva.2 };
    if first_invalid_hsv(v) is None {
        lemma_hsv_rgb_valid(v);
    }
    let k = Cmyk { cyan: cmyka.0, magenta: cmyka.1, yellow: cmyka.2, key: cmyka.3 };
    if first_invalid_cmyk(k) is None {
        lemma_cmyk_rgb_valid(k);
    }
    if first_invalid_channel((rgba.0, rgba.1, rgba.2)) is None {
        lemma_complementary_twice((rgba.0, rgba.1, rgba.2));
    }
}

/// The colour that a round trip gives back: the colour itself with its alpha,
/// one where none was given; but white in place of a grey.
pub open spec fn round_trip_of(rgba: (u32, u32, u32, Option<Fraction>)) -> (
    u32,
    u32,
    u32,
    Fraction,
) {
    if rgba.0 == rgba.1 && rgba.1 == rgba.2 {
        (255u32, 255u32, 255u32, alpha_of(rgba.3))
    } else {
        (rgba.0, rgba.1, rgba.2, alpha_of(rgba.3))
    }
}

/// A valid colour converted to hue, saturation, lightness and alpha and back
/// is the very same colour, channel by channel and in its alpha, unless it is
/// a grey: a grey comes back as white.
pub proof fn lemma_hsla_round_trip(rgba: (u32, u32, u32, Option<Fraction>))
    requires
        first_invalid_rgba(rgba) is None,
    ensures
        hsla_of_rgba(rgba) matches Ok(m) && rgba_of_hsla((m.0, m.1, m.2, Some(m.3))) == Ok::<
            (u32, u32, u32, Fraction),
            ColorError,
        >(round_trip_of(rgba)),
{
    lemma_hsl_round_trip((rgba.0, rgba.1, rgba.2));
}

/// A valid colour converted to hue, saturation, value and alpha and back is
/// the very same colour, channel by channel and in its alpha, unless it is a
/// grey: a grey comes back as white.
pub proof fn lemma_hsva_round_trip(rgba: (u32, u32, u32, Option<Fraction>))
    requires
        first_invalid_rgba(rgba) is None,
    ensures
        hsva_of_rgba(rgba) matches Ok(m) && rgba_of_hsva((m.0, m.1, m.2, Some(m.3))) == Ok::<
            (u32, u32, u32, Fraction),
            ColorError,
        >(round_trip_of(rgba)),
{
    lemma_hsv_round_trip((rgba.0, rgba.1, rgba.2));
}

/// A valid colour other than black converted to cyan, magenta, yellow, key and
/// alpha and back is the very same colour, channel by channel and in its alpha.
pub proof fn lemma_cmyka_round_trip(rgba: (u32, u32, u32, Option<Fraction>))
    requires
        first_invalid_rgba(rgba) is None,
        !(rgba.0 == 0 && rgba.1 == 0 && rgba.2 == 0),
    ensures
        cmyka_of_rgba(rgba) matches Ok(m) && rgba_of_cmyka((m.0, m.1, m.2, m.3, Some(m.4)))
            == Ok::<(u32, u32, u32, Fraction), ColorError>(
            (rgba.0, rgba.1, rgba.2, alpha_of(rgba.3)),
        ),
{
    lemma_cmyk_round_trip((rgba.0, rgba.1, rgba.2));
}

/// The opposite of a valid colour keeps the alpha, and the opposite of the
/// opposite is the very same colour, unless the colour is a grey: for a grey
/// both are white.
pub proof fn lemma_complementary_involution(rgba: (u32, u32, u32, Option<Fraction>))
    requires
        first_invalid_rgba(rgba) is None,
    ensures
        complement_of_rgba(rgba) matches Ok(m) && m.3 == alpha_of(rgba.3) && complement_of_rgba(
            (m.0, m.1, m.2, Some(m.3)),
        ) == Ok::<(u32, u32, u32, Fraction), ColorError>(round_trip_of(rgba)),
{
    lemma_complementary_twice((rgba.0, rgba.1, rgba.2));
}

} // verus!
