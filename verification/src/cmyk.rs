use crate::error::ColorError;
use crate::fraction::Fraction;
use crate::rgb::{check_channels, extrema, first_invalid_channel, max3};
use vstd::prelude::*;

verus! {

/// Cyan, magenta, yellow and key in percent.
#[derive(Clone, Copy, Debug, PartialEq, Eq, Structural)]
pub struct Cmyk {
    pub cyan: Fraction,
    pub magenta: Fraction,
    pub yellow: Fraction,
    pub key: Fraction,
}

/// The colour in the cyan, magenta, yellow, key model.
///
/// The key is what the greatest channel lacks of 255. Each ink is what its
/// channel lacks of the greatest one, as a share of the greatest one; for
/// black that share is zero by zero and has no value.
pub open spec fn cmyk_of(r: int, g: int, b: int) -> Cmyk {
    let hi = max3(r, g, b);
    Cmyk {
        cyan: Fraction { num: (100 * (hi - r)) as u32, den: hi as u32 },
        magenta: Fraction { num: (100 * (hi - g)) as u32, den: hi as u32 },
        yellow: Fraction { num: (100 * (hi - b)) as u32, den: hi as u32 },
        key: Fraction { num: (100 * (255 - hi)) as u32, den: 255 },
    }
}

/// Converts red, green and blue to cyan, magenta, yellow and key, exactly.
///
/// A channel above 255 is refused, and the error names the first such channel.
/// For black the three inks come back as zero by zero.
pub fn rgb_to_cmyk(rgb: (u32, u32, u32)) -> (res: Result<Cmyk, ColorError>)
    ensures
        match first_invalid_channel(rgb) {
            Some(c) => res == Err::<Cmyk, ColorError>(ColorError::InvalidInput(c)),
            None => res == Ok::<Cmyk, ColorError>(
                cmyk_of(rgb.0 as int, rgb.1 as int, rgb.2 as int),
            ),
        },
{
    match check_channels(rgb) {
        Err(e) => { return Err(e); },
        Ok(_) => {},
    }
    let (r, g, b) = rgb;
    let hi: u32 = extrema(r, g, b).max;
    Ok(
        Cmyk {
            cyan: Fraction { num: 100 * (hi - r), den: hi },
            magenta: Fraction { num: 100 * (hi - g), den: hi },
            yellow: Fraction { num: 100 * (hi - b), den: hi },
            key: Fraction { num: 100 * (255 - hi), den: 255 },
        },
    )
}

/// Of a valid colour the key lies from 0 to 100 percent. The inks have a value
/// for every colour but black, and then each lies from 0 to 100 percent.
pub proof fn lemma_cmyk_ranges(rgb: (u32, u32, u32))
    requires
        first_invalid_channel(rgb) is None,
    ensures
        ({
            let c = cmyk_of(rgb.0 as int, rgb.1 as int, rgb.2 as int);
            let black = rgb.0 == 0 && rgb.1 == 0 && rgb.2 == 0;
            &&& c.key.at_most(100)
            &&& black ==> !c.cyan.defined() && !c.magenta.defined() && !c.yellow.defined()
            &&& !black ==> c.cyan.at_most(100) && c.magenta.at_most(100) && c.yellow.at_most(100)
        }),
{
}

} // verus!
