use crate::cmyk::{cmyk_of, Cmyk};
use crate::error::{ColorError, Component};
use crate::fraction::{lemma_product_bound, Fraction};
use crate::rgb::{first_invalid_channel, max3};
use crate::validate::{check_percentage, valid_percentage};
use vstd::arithmetic::div_mod::lemma_div_multiples_vanish;
use vstd::prelude::*;

verus! {

/// The first of cyan, magenta, yellow and key that is out of range, if any.
///
/// Each may be anything from 0 to 100 percent; a component without a value is
/// out of range.
pub open spec fn first_invalid_cmyk(c: Cmyk) -> Option<Component> {
    if !valid_percentage(c.cyan) {
        Some(Component::Cyan)
    } else if !valid_percentage(c.magenta) {
        Some(Component::Magenta)
    } else if !valid_percentage(c.yellow) {
        Some(Component::Yellow)
    } else if !valid_percentage(c.key) {
        Some(Component::Key)
    } else {
        None
    }
}

/// The channel that an ink leaves under a key: what the ink lacks of the full
/// times what the key lacks of the full, on the scale from 0 to 255, cut off
/// to a whole number.
pub open spec fn ink_channel(ink: Fraction, key: Fraction) -> int {
    (255 * ((100 * ink.den - ink.num) * (100 * key.den - key.num))) / ((100 * ink.den) * (100
        * key.den))
}

/// Red, green and blue of a colour given by cyan, magenta, yellow and key.
pub open spec fn cmyk_rgb_of(c: Cmyk) -> (u32, u32, u32) {
    (
        ink_channel(c.cyan, c.key) as u32,
        ink_channel(c.magenta, c.key) as u32,
        ink_channel(c.yellow, c.key) as u32,
    )
}

fn channel_under(ink: Fraction, key: Fraction) -> (ch: u32)
    requires
        ink.at_most(100),
        key.at_most(100),
    ensures
        ch as int == ink_channel(ink, key),
        ch <= 255,
{
    let ink_full: u128 = 100 * (ink.den as u128);
    let key_full: u128 = 100 * (key.den as u128);
    let ink_left: u128 = ink_full - (ink.num as u128);
    let key_left: u128 = key_full - (key.num as u128);
    proof {
        lemma_product_bound(ink_left as int, key_left as int, ink_full as int, key_full as int);
        lemma_product_bound(ink_full as int, key_full as int, 0x80_0000_0000, 0x80_0000_0000);
        assert(ink_full * key_full >= 1) by (nonlinear_arith)
            requires
                ink_full >= 1,
                key_full >= 1,
        ;
    }
    let scale: u128 = ink_full * key_full;
    let amount: u128 = 255 * (ink_left * key_left);
    proof {
        assert(amount / scale <= 255) by (nonlinear_arith)
            requires
                amount <= 255 * scale,
                scale >= 1,
        ;
    }
    (amount / scale) as u32
}

/// Converts cyan, magenta, yellow and key to red, green and blue, exactly; the
/// channels are cut off to whole numbers, not rounded.
///
/// A component out of range is refused, and the error names the first such
/// component.
pub fn cmyk_to_rgb(c: Cmyk) -> (res: Result<(u32, u32, u32), ColorError>)
    ensures
        match first_invalid_cmyk(c) {
            Some(bad) => res == Err::<(u32, u32, u32), ColorError>(ColorError::InvalidInput(bad)),
            None => res == Ok::<(u32, u32, u32), ColorError>(cmyk_rgb_of(c)),
        },
        res matches Ok(rgb) ==> first_invalid_channel(rgb) is None,
{
    if !check_percentage(&c.cyan) {
        return Err(ColorError::InvalidInput(Component::Cyan));
    }
    if !check_percentage(&c.magenta) {
        return Err(ColorError::InvalidInput(Component::Magenta));
    }
    if !check_percentage(&c.yellow) {
        return Err(ColorError::InvalidInput(Component::Yellow));
    }
    if !check_percentage(&c.key) {
        return Err(ColorError::InvalidInput(Component::Key));
    }
    Ok((channel_under(c.cyan, c.key), channel_under(c.magenta, c.key), channel_under(c.yellow, c.key)))
}

/// A valid ink under a valid key leaves a channel from 0 to 255.
pub proof fn lemma_ink_channel_range(ink: Fraction, key: Fraction)
    requires
        valid_percentage(ink),
        valid_percentage(key),
    ensures
        0 <= ink_channel(ink, key) <= 255,
{
    let ink_full = 100 * ink.den;
    let key_full = 100 * key.den;
    let left = (ink_full - ink.num) * (key_full - key.num);
    lemma_product_bound(ink_full - ink.num, key_full - key.num, ink_full, key_full);
    let scale = ink_full * key_full;
    assert(scale >= 1) by (nonlinear_arith)
        requires
            scale == ink_full * key_full,
            ink_full >= 1,
            key_full >= 1,
    ;
    assert(0 <= (255 * left) / scale <= 255) by (nonlinear_arith)
        requires
            0 <= left <= scale,
            scale >= 1,
    ;
}

/// A valid colour given by cyan, magenta, yellow and key has valid red, green and blue.
pub proof fn lemma_cmyk_rgb_valid(c: Cmyk)
    requires
        first_invalid_cmyk(c) is None,
    ensures
        first_invalid_channel(cmyk_rgb_of(c)) is None,
{
    lemma_ink_channel_range(c.cyan, c.key);
    lemma_ink_channel_range(c.magenta, c.key);
    lemma_ink_channel_range(c.yellow, c.key);
}

proof fn lemma_ink_round_trip(x: int, hi: int)
    requires
        0 <= x <= hi <= 255,
        0 < hi,
    ensures
        ink_channel(
            Fraction { num: (100 * (hi - x)) as u32, den: hi as u32 },
            Fraction { num: (100 * (255 - hi)) as u32, den: 255 },
        ) == x,
{
    let scale = (100 * hi) * (100 * 255);
    let amount = 255 * ((100 * hi - 100 * (hi - x)) * (100 * 255 - 100 * (255 - hi)));
    assert(amount == scale * x) by (nonlinear_arith)
        requires
            scale == (100 * hi) * (100 * 255),
            amount == 255 * ((100 * hi - 100 * (hi - x)) * (100 * 255 - 100 * (255 - hi))),
    ;
    assert(scale > 0) by (nonlinear_arith)
        requires
            scale == (100 * hi) * (100 * 255),
            hi > 0,
    ;
    lemma_div_multiples_vanish(x, scale);
}

/// Converting a valid colour other than black to cyan, magenta, yellow and
/// key and back gives the very same red, green and blue. For black the inks
/// have no value, and the way back refuses the cyan.
pub proof fn lemma_cmyk_round_trip(rgb: (u32, u32, u32))
    requires
        first_invalid_channel(rgb) is None,
    ensures
        ({
            let c = cmyk_of(rgb.0 as int, rgb.1 as int, rgb.2 as int);
            let black = rgb.0 == 0 && rgb.1 == 0 && rgb.2 == 0;
            &&& black ==> first_invalid_cmyk(c) == Some(Component::Cyan)
            &&& !black ==> first_invalid_cmyk(c) is None && cmyk_rgb_of(c) == rgb
        }),
{
    let (r, g, b) = (rgb.0 as int, rgb.1 as int, rgb.2 as int);
    let hi = max3(r, g, b);
    if hi > 0 {
        lemma_ink_round_trip(r, hi);
        lemma_ink_round_trip(g, hi);
        lemma_ink_round_trip(b, hi);
    }
}

} // verus!
