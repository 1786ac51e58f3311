//! Colour conversions, computed exactly.
//!
//! A colour is converted between five notations: a hex string; red, green,
//! blue from 0 to 255 with an alpha from 0 to 1; hue, saturation, lightness;
//! hue, saturation, value; and cyan, magenta, yellow, key. Every component
//! that is a real number is held as an exact [`fraction::Fraction`], so each
//! conversion gives the value of its formula, and a channel is cut off to a
//! whole number only where the formula says so.
//!
//! The conversions with alpha are in [`conversions`] and [`hex`]. Beneath them,
//! without alpha, the ways from red, green and blue are in [`cylindrical`] and
//! [`cmyk`], and the ways back in [`from_hsv`], [`from_hsl`] and [`from_cmyk`].

pub mod alpha;
pub mod cmyk;
pub mod conversions;
pub mod cylindrical;
pub mod error;
pub mod extremum;
pub mod fraction;
pub mod from_cmyk;
pub mod from_hsl;
pub mod from_hsv;
pub mod hex;
pub mod rgb;
pub mod validate;
