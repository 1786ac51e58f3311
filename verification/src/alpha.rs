use crate::error::{ColorError, Component};
use crate::fraction::Fraction;
use crate::validate::{check_alpha, valid_alpha};
use vstd::prelude::*;

verus! {

/// The alpha of a colour: the one given, or one, fully opaque, where none is given.
pub open spec fn alpha_of(a: Option<Fraction>) -> Fraction {
    match a {
        Some(x) => x,
        None => Fraction { num: 1, den: 1 },
    }
}

/// The alpha of a colour, one where none is given; an alpha out of range is refused.
pub fn checked_alpha(a: Option<Fraction>) -> (res: Result<Fraction, ColorError>)
    ensures
        valid_alpha(alpha_of(a)) ==> res == Ok::<Fraction, ColorError>(alpha_of(a)),
        !valid_alpha(alpha_of(a)) ==> res == Err::<Fraction, ColorError>(
            ColorError::InvalidInput(Component::Alpha),
        ),
{
    let alpha = match a {
        Some(x) => x,
        None => Fraction::one(),
    };
    if check_alpha(&alpha) {
        Ok(alpha)
    } else {
        Err(ColorError::InvalidInput(Component::Alpha))
    }
}

/// The alpha on the scale from 0 to 255, rounded to the nearest whole number, a half upwards.
pub open spec fn alpha_byte(a: Fraction) -> int {
    (510 * a.num + a.den) / (2 * a.den)
}

/// Rounds a valid alpha to the nearest byte.
pub fn alpha_to_byte(a: Fraction) -> (byte: u32)
    requires
        valid_alpha(a),
    ensures
        byte as int == alpha_byte(a),
        byte <= 255,
{
    let twice: u64 = 2 * (a.den as u64);
    let amount: u64 = 510 * (a.num as u64) + (a.den as u64);
    assert(amount / twice <= 255) by (nonlinear_arith)
        requires
            amount <= 255 * twice + twice / 2,
            twice >= 2,
    ;
    (amount / twice) as u32
}

/// A byte taken as so many 255ths is rounded back to that byte.
pub proof fn lemma_alpha_byte_of_byte(n: u32)
    requires
        n <= 255,
    ensures
        valid_alpha(Fraction { num: n, den: 255 }),
        alpha_byte(Fraction { num: n, den: 255 }) == n,
        alpha_byte(Fraction { num: 1, den: 1 }) == 255,
{
    assert((510 * n + 255) / 510 == n);
    assert((510 * 1 + 1) / 2 == 255int);
    assert(2 * 255 == 510int && 2 * 1 == 2int);
}

/// A valid alpha is rounded to a byte from 0 to 255.
pub proof fn lemma_alpha_byte_range(a: Fraction)
    requires
        valid_alpha(a),
    ensures
        0 <= alpha_byte(a) <= 255,
{
    let twice = 2 * a.den;
    let amount = 510 * a.num + a.den;
    assert(0 <= amount / twice <= 255) by (nonlinear_arith)
        requires
            0 <= amount <= 255 * twice + twice / 2,
            twice >= 2,
    ;
}

} // verus!
