use crate::error::{ColorError, Component};
use crate::extremum::{is_first_max, is_first_min, max, min};
use crate::fraction::Fraction;
use crate::validate::{check_rgb, valid_alpha, valid_channel};
use vstd::prelude::*;

verus! {

/// The first of red, green and blue that is out of range, if any.
pub open spec fn first_invalid_channel(rgb: (u32, u32, u32)) -> Option<Component> {
    if !valid_channel(rgb.0 as int) {
        Some(Component::Red)
    } else if !valid_channel(rgb.1 as int) {
        Some(Component::Green)
    } else if !valid_channel(rgb.2 as int) {
        Some(Component::Blue)
    } else {
        None
    }
}

/// A colour is valid when red, green and blue lie from 0 to 255 and the alpha from 0 to 1.
pub open spec fn valid_rgba(c: (u32, u32, u32, Fraction)) -> bool {
    first_invalid_channel((c.0, c.1, c.2)) is None && valid_alpha(c.3)
}

/// The greatest of three channels.
pub open spec fn max3(r: int, g: int, b: int) -> int {
    if r >= g && r >= b {
        r
    } else if g >= b {
        g
    } else {
        b
    }
}

/// The least of three channels.
pub open spec fn min3(r: int, g: int, b: int) -> int {
    if r <= g && r <= b {
        r
    } else if g <= b {
        g
    } else {
        b
    }
}

/// The index of the first channel, in the order red, green, blue, that holds the greatest value.
pub open spec fn max_channel(r: int, g: int, b: int) -> int {
    if r == max3(r, g, b) {
        0
    } else if g == max3(r, g, b) {
        1
    } else {
        2
    }
}

/// The extremes of a colour's three channels.
#[derive(Clone, Copy, Debug, PartialEq, Eq, Structural)]
pub struct Extrema {
    /// The greatest channel value.
    pub max: u32,
    /// 0, 1 or 2 as red, green or blue is the first channel that holds `max`.
    pub max_index: usize,
    /// The least channel value.
    pub min: u32,
}

/// Checks the three channels in the order red, green, blue.
pub fn check_channels(rgb: (u32, u32, u32)) -> (res: Result<(), ColorError>)
    ensures
        match first_invalid_channel(rgb) {
            Some(c) => res == Err::<(), ColorError>(ColorError::InvalidInput(c)),
            None => res is Ok,
        },
{
    if !check_rgb(&rgb.0) {
        Err(ColorError::InvalidInput(Component::Red))
    } else if !check_rgb(&rgb.1) {
        Err(ColorError::InvalidInput(Component::Green))
    } else if !check_rgb(&rgb.2) {
        Err(ColorError::InvalidInput(Component::Blue))
    } else {
        Ok(())
    }
}

/// Finds the greatest channel, the first channel that holds it, and the least channel.
pub fn extrema(r: u32, g: u32, b: u32) -> (e: Extrema)
    ensures
        e.max as int == max3(r as int, g as int, b as int),
        e.min as int == min3(r as int, g as int, b as int),
        e.max_index as int == max_channel(r as int, g as int, b as int),
{
    let ghost s = seq![r, g, b];
    let top = max(vec![r, g, b]);
    let bottom = min(vec![r, g, b]);
    let (hi, at) = top.unwrap();
    let (lo, _) = bottom.unwrap();
    proof {
        assert(s[0] == r && s[1] == g && s[2] == b);
        assert(is_first_max(s, hi, at as int));
        assert(s[0] <= hi && s[1] <= hi && s[2] <= hi);
        assert(s[0] >= lo && s[1] >= lo && s[2] >= lo);
        if at == 1 {
            assert(s[0] < hi);
        }
        if at == 2 {
            assert(s[0] < hi && s[1] < hi);
        }
    }
    Extrema { max: hi, max_index: at, min: lo }
}

} // verus!
