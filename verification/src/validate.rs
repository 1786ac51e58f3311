use crate::fraction::Fraction;
use vstd::prelude::*;

verus! {

/// The largest value of a red, green or blue channel.
pub const CHANNEL_MAX: u32 = 255;

/// The largest alpha: fully opaque.
pub const ALPHA_MAX: u32 = 1;

/// The largest hue in degrees that is accepted: the full turn itself.
pub const HUE_MAX: u32 = 360;

/// The largest percentage.
pub const PERCENTAGE_MAX: u32 = 100;

/// A channel value is valid when it lies in the closed interval from 0 to 255.
pub open spec fn valid_channel(n: int) -> bool {
    0 <= n <= 255
}

/// An alpha is valid when it has a value in the closed interval from 0 to 1.
pub open spec fn valid_alpha(a: Fraction) -> bool {
    a.at_most(1)
}

/// A hue is valid when it has a value in the closed interval from 0 to 360 degrees.
pub open spec fn valid_hue(h: Fraction) -> bool {
    h.at_most(360)
}

/// A percentage is valid when it has a value in the closed interval from 0 to 100.
pub open spec fn valid_percentage(n: Fraction) -> bool {
    n.at_most(100)
}

/// Tells whether `num` is a valid red, green or blue channel.
pub fn check_rgb(num: &u32) -> (ok: bool)
    ensures
        ok == valid_channel(*num as int),
{
    *num <= CHANNEL_MAX
}

/// Tells whether `a` is a valid alpha.
pub fn check_alpha(a: &Fraction) -> (ok: bool)
    ensures
        ok == valid_alpha(*a),
{
    a.is_at_most(ALPHA_MAX)
}

/// Tells whether `h` is a valid hue.
pub fn check_hue(h: &Fraction) -> (ok: bool)
    ensures
        ok == valid_hue(*h),
{
    h.is_at_most(HUE_MAX)
}

/// Tells whether `n` is a valid saturation, lightness, value, ink or key.
pub fn check_percentage(n: &Fraction) -> (ok: bool)
    ensures
        ok == valid_percentage(*n),
{
    n.is_at_most(PERCENTAGE_MAX)
}

} // verus!
