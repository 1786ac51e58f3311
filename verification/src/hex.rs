use crate::alpha::{alpha_byte, alpha_to_byte, lemma_alpha_byte_of_byte, lemma_alpha_byte_range};
use crate::error::{ColorError, Component};
use crate::fraction::Fraction;
use crate::rgb::valid_rgba;
use crate::validate::{check_alpha, check_rgb, valid_alpha, valid_channel};
use vstd::prelude::*;
use vstd::string::*;

verus! {

/// The value of a hexadecimal digit of either case; `None` for any other character.
pub open spec fn hex_digit_value(c: char) -> Option<int> {
    let n = c as int;
    if '0' as int <= n <= '9' as int {
        Some(n - '0' as int)
    } else if 'a' as int <= n <= 'f' as int {
        Some(n - 'a' as int + 10)
    } else if 'A' as int <= n <= 'F' as int {
        Some(n - 'A' as int + 10)
    } else {
        None
    }
}

/// The lower-case hexadecimal digit that stands for `d`, for `d` from 0 to 15.
pub open spec fn hex_digit_char(d: int) -> char {
    if d < 10 {
        ('0' as int + d) as char
    } else {
        ('a' as int + d - 10) as char
    }
}

/// The character itself, but for the upper-case letters A to F, which become lower case.
pub open spec fn lower_hex(c: char) -> char {
    if 'A' as int <= c as int <= 'F' as int {
        (c as int - 'A' as int + 'a' as int) as char
    } else {
        c
    }
}

/// The string without its first character where that is `#`.
pub open spec fn strip_hash(s: Seq<char>) -> Seq<char> {
    if s.len() > 0 && s[0] == '#' {
        s.subrange(1, s.len() as int)
    } else {
        s
    }
}

/// After one optional leading `#`, exactly six or eight hexadecimal digits remain.
pub open spec fn well_formed_hex(s: Seq<char>) -> bool {
    let d = strip_hash(s);
    &&& (d.len() == 6 || d.len() == 8)
    &&& forall|i: int| 0 <= i < d.len() ==> (#[trigger] hex_digit_value(d[i])) is Some
}

/// The byte that the two digits at `i` and `i + 1` spell, high digit first.
pub open spec fn hex_pair(d: Seq<char>, i: int) -> u32 {
    (16 * hex_digit_value(d[i]).unwrap() + hex_digit_value(d[i + 1]).unwrap()) as u32
}

/// Red, green, blue and alpha that a well-formed hex string denotes.
///
/// Six digits are `RRGGBB` with alpha one; eight digits are `AARRGGBB` when
/// `alpha_first` holds and `RRGGBBAA` otherwise, and the alpha is its byte in
/// 255ths.
pub open spec fn hex_decoding(s: Seq<char>, alpha_first: bool) -> (u32, u32, u32, Fraction) {
    let d = strip_hash(s);
    if d.len() == 6 {
        (hex_pair(d, 0), hex_pair(d, 2), hex_pair(d, 4), Fraction { num: 1, den: 1 })
    } else if alpha_first {
        (hex_pair(d, 2), hex_pair(d, 4), hex_pair(d, 6), Fraction { num: hex_pair(d, 0), den: 255 })
    } else {
        (hex_pair(d, 0), hex_pair(d, 2), hex_pair(d, 4), Fraction { num: hex_pair(d, 6), den: 255 })
    }
}

/// The two lower-case digits of a byte, zero-padded.
pub open spec fn hex_byte(n: int) -> Seq<char> {
    seq![hex_digit_char(n / 16), hex_digit_char(n % 16)]
}

/// The hex string of a colour: `#RRGGBB` without alpha, else `#AARRGGBB` or `#RRGGBBAA`.
pub open spec fn hex_encoding(r: int, g: int, b: int, a: Option<int>, alpha_first: bool) -> Seq<
    char,
> {
    let rgb = hex_byte(r) + hex_byte(g) + hex_byte(b);
    match a {
        None => seq!['#'] + rgb,
        Some(alpha) => if alpha_first {
            seq!['#'] + hex_byte(alpha) + rgb
        } else {
            seq!['#'] + rgb + hex_byte(alpha)
        },
    }
}

/// What `rgba_to_hex` answers: the first component out of range, in the order
/// red, green, blue, alpha, or else the encoding, with the alpha rounded to
/// the nearest byte.
pub open spec fn hex_outcome(
    color: (u32, u32, u32, Option<Fraction>),
    alpha_first: Option<bool>,
) -> Result<Seq<char>, ColorError> {
    let alpha = match color.3 {
        Some(a) => Some(alpha_byte(a)),
        None => None,
    };
    if !valid_channel(color.0 as int) {
        Err(ColorError::InvalidInput(Component::Red))
    } else if !valid_channel(color.1 as int) {
        Err(ColorError::InvalidInput(Component::Green))
    } else if !valid_channel(color.2 as int) {
        Err(ColorError::InvalidInput(Component::Blue))
    } else if color.3 is Some && !valid_alpha(color.3.unwrap()) {
        Err(ColorError::InvalidInput(Component::Alpha))
    } else {
        Ok(
            hex_encoding(
                color.0 as int,
                color.1 as int,
                color.2 as int,
                alpha,
                alpha_first == Some(true),
            ),
        )
    }
}

fn digit_value(c: char) -> (v: Option<u32>)
    ensures
        v is Some <==> hex_digit_value(c) is Some,
        v matches Some(x) ==> x as int == hex_digit_value(c).unwrap() && x < 16,
{
    let n: u32 = c as u32;
    if 48 <= n && n <= 57 {
        Some(n - 48)
    } else if 97 <= n && n <= 102 {
        Some(n - 87)
    } else if 65 <= n && n <= 70 {
        Some(n - 55)
    } else {
        None
    }
}

fn parse_pair(s: &str, start: usize, i: usize) -> (v: Option<u32>)
    requires
        start + i + 1 < s@.len() <= usize::MAX,
        start == 0 || start == 1,
        strip_hash(s@) == s@.subrange(start as int, s@.len() as int),
    ensures
        v is Some <==> hex_digit_value(strip_hash(s@)[i as int]) is Some && hex_digit_value(
            strip_hash(s@)[i + 1],
        ) is Some,
        v matches Some(x) ==> x == hex_pair(strip_hash(s@), i as int) && x <= 255,
{
    let hi = digit_value(s.get_char(start + i));
    let lo = digit_value(s.get_char(start + i + 1));
    match (hi, lo) {
        (Some(h), Some(l)) => Some(16 * h + l),
        _ => None,
    }
}

/// Reads a hex colour: an optional `#`, then `RRGGBB`, or eight digits with the
/// alpha byte first (`alpha_first` is `Some(true)`) or last.
///
/// The alpha byte comes back in 255ths; six digits give the alpha one.
pub fn hex_to_rgba(hex_str: &str, alpha_first: Option<bool>) -> (res: Result<
    (u32, u32, u32, Fraction),
    ColorError,
>)
    ensures
        well_formed_hex(hex_str@) ==> res == Ok::<(u32, u32, u32, Fraction), ColorError>(
            hex_decoding(hex_str@, alpha_first == Some(true)),
        ),
        !well_formed_hex(hex_str@) ==> res == Err::<(u32, u32, u32, Fraction), ColorError>(
            ColorError::InvalidFormat,
        ),
        res matches Ok(color) ==> valid_rgba(color),
{
    let n: usize = hex_str.unicode_len();
    if n == 0 {
        return Err(ColorError::InvalidFormat);
    }
    let start: usize = if hex_str.get_char(0) == '#' {
        1
    } else {
        0
    };
    let digits: usize = n - start;
    if digits != 6 && digits != 8 {
        return Err(ColorError::InvalidFormat);
    }
    let ghost d = strip_hash(hex_str@);
    assert(d =~= hex_str@.subrange(start as int, n as int));
    let b0 = parse_pair(hex_str, start, 0);
    let b1 = parse_pair(hex_str, start, 2);
    let b2 = parse_pair(hex_str, start, 4);
    if digits == 6 {
        return match (b0, b1, b2) {
            (Some(r), Some(g), Some(b)) => {
                assert forall|i: int| 0 <= i < d.len() implies (#[trigger] hex_digit_value(
                    d[i],
                )) is Some by {
                    assert(i == 0 || i == 1 || i == 2 || i == 3 || i == 4 || i == 5);
                }
                Ok((r, g, b, Fraction::one()))
            },
            _ => Err(ColorError::InvalidFormat),
        };
    }
    let b3 = parse_pair(hex_str, start, 6);
    match (b0, b1, b2, b3) {
        (Some(x0), Some(x1), Some(x2), Some(x3)) => {
            assert forall|i: int| 0 <= i < d.len() implies (#[trigger] hex_digit_value(
                d[i],
            )) is Some by {
                assert(i == 0 || i == 1 || i == 2 || i == 3 || i == 4 || i == 5 || i == 6 || i
                    == 7);
            }
            match alpha_first {
                Some(true) => Ok((x1, x2, x3, Fraction { num: x0, den: 255 })),
                _ => Ok((x0, x1, x2, Fraction { num: x3, den: 255 })),
            }
        },
        _ => Err(ColorError::InvalidFormat),
    }
}

fn hex_digit_str(d: u32) -> (s: &'static str)
    requires
        d < 16,
    ensures
        s@ == seq![hex_digit_char(d as int)],
{
    proof {
        reveal_strlit("0");
        reveal_strlit("1");
        reveal_strlit("2");
        reveal_strlit("3");
        reveal_strlit("4");
        reveal_strlit("5");
        reveal_strlit("6");
        reveal_strlit("7");
        reveal_strlit("8");
        reveal_strlit("9");
        reveal_strlit("a");
        reveal_strlit("b");
        reveal_strlit("c");
        reveal_strlit("d");
        reveal_strlit("e");
        reveal_strlit("f");
    }
    let s = match d {
        0 => "0",
        1 => "1",
        2 => "2",
        3 => "3",
        4 => "4",
        5 => "5",
        6 => "6",
        7 => "7",
        8 => "8",
        9 => "9",
        10 => "a",
        11 => "b",
        12 => "c",
        13 => "d",
        14 => "e",
        _ => "f",
    };
    assert(s@ =~= seq![hex_digit_char(d as int)]);
    s
}

fn append_byte(out: &mut String, n: u32)
    requires
        n <= 255,
    ensures
        final(out)@ == old(out)@ + hex_byte(n as int),
{
    out.append(hex_digit_str(n / 16));
    out.append(hex_digit_str(n % 16));
    assert(final(out)@ =~= old(out)@ + hex_byte(n as int));
}

/// Writes a colour as a lower-case hex string with a leading `#`.
///
/// Without alpha the string is `#RRGGBB`. With an alpha it is `#AARRGGBB` when
/// `alpha_first` is `Some(true)` and `#RRGGBBAA` otherwise, the alpha rounded
/// to the nearest byte. A channel above 255 or an alpha outside 0 to 1 is
/// refused, and the error names the first such component.
pub fn rgba_to_hex(color: (u32, u32, u32, Option<Fraction>), alpha_first: Option<bool>) -> (res:
    Result<String, ColorError>)
    ensures
        match hex_outcome(color, alpha_first) {
            Ok(text) => res is Ok && res.unwrap()@ == text,
            Err(e) => res is Err && res.unwrap_err() == e,
        },
{
    let (r, g, b, a) = color;
    if !check_rgb(&r) {
        return Err(ColorError::InvalidInput(Component::Red));
    }
    if !check_rgb(&g) {
        return Err(ColorError::InvalidInput(Component::Green));
    }
    if !check_rgb(&b) {
        return Err(ColorError::InvalidInput(Component::Blue));
    }
    proof {
        reveal_strlit("#");
    }
    let mut out = String::from_str("#");
    assert(out@ =~= seq!['#']);
    match a {
        None => {
            append_byte(&mut out, r);
            append_byte(&mut out, g);
            append_byte(&mut out, b);
            assert(out@ =~= hex_encoding(r as int, g as int, b as int, None, false));
        },
        Some(given) => {
            if !check_alpha(&given) {
                return Err(ColorError::InvalidInput(Component::Alpha));
            }
            let alpha: u32 = alpha_to_byte(given);
            let first = match alpha_first {
                Some(true) => true,
                _ => false,
            };
            if first {
                append_byte(&mut out, alpha);
            }
            append_byte(&mut out, r);
            append_byte(&mut out, g);
            append_byte(&mut out, b);
            if !first {
                append_byte(&mut out, alpha);
            }
            assert(out@ =~= hex_encoding(
                r as int,
                g as int,
                b as int,
                Some(alpha as int),
                first,
            ));
        },
    }
    Ok(out)
}

/// What a well-formed hex string denotes is a valid colour.
pub proof fn lemma_hex_decoding_valid(s: Seq<char>, alpha_first: bool)
    requires
        well_formed_hex(s),
    ensures
        valid_rgba(hex_decoding(s, alpha_first)),
{
    let d = strip_hash(s);
    assert(hex_digit_value(d[0]) is Some && hex_digit_value(d[1]) is Some);
    assert(hex_digit_value(d[2]) is Some && hex_digit_value(d[3]) is Some);
    assert(hex_digit_value(d[4]) is Some && hex_digit_value(d[5]) is Some);
    lemma_pair_round_trip(d, 0);
    lemma_pair_round_trip(d, 2);
    lemma_pair_round_trip(d, 4);
    if d.len() == 8 {
        assert(hex_digit_value(d[6]) is Some && hex_digit_value(d[7]) is Some);
        lemma_pair_round_trip(d, 6);
    }
}

/// The digits of a hex string in lower case.
pub open spec fn lower_hex_digits(d: Seq<char>) -> Seq<char> {
    Seq::new(d.len(), |i: int| lower_hex(d[i]))
}

/// The alpha that `hex_to_rgba` reports for a string, as `rgba_to_hex` takes it:
/// absent for six digits, the decoded alpha for eight.
pub open spec fn decoded_alpha(s: Seq<char>, alpha_first: bool) -> Option<Fraction> {
    if strip_hash(s).len() == 6 {
        None
    } else {
        Some(hex_decoding(s, alpha_first).3)
    }
}

proof fn lemma_digit_char_of_value(c: char)
    requires
        hex_digit_value(c) is Some,
    ensures
        0 <= hex_digit_value(c).unwrap() < 16,
        hex_digit_char(hex_digit_value(c).unwrap()) == lower_hex(c),
{
}

proof fn lemma_value_of_digit_char(d: int)
    requires
        0 <= d < 16,
    ensures
        hex_digit_value(hex_digit_char(d)) == Some(d),
{
}

proof fn lemma_pair_round_trip(d: Seq<char>, i: int)
    requires
        0 <= i,
        i + 1 < d.len(),
        hex_digit_value(d[i]) is Some,
        hex_digit_value(d[i + 1]) is Some,
    ensures
        hex_pair(d, i) <= 255,
        hex_byte(hex_pair(d, i) as int) == seq![lower_hex(d[i]), lower_hex(d[i + 1])],
{
    lemma_digit_char_of_value(d[i]);
    lemma_digit_char_of_value(d[i + 1]);
    let hi = hex_digit_value(d[i]).unwrap();
    let lo = hex_digit_value(d[i + 1]).unwrap();
    assert((16 * hi + lo) / 16 == hi && (16 * hi + lo) % 16 == lo);
}

proof fn lemma_byte_round_trip(n: int)
    requires
        0 <= n <= 255,
    ensures
        hex_digit_value(hex_byte(n)[0]) is Some,
        hex_digit_value(hex_byte(n)[1]) is Some,
        hex_pair(hex_byte(n), 0) == n,
{
    lemma_value_of_digit_char(n / 16);
    lemma_value_of_digit_char(n % 16);
}

/// Reading a well-formed hex string and writing the colour again, with the
/// same alpha order, gives the digits back in lower case behind a `#`. For six
/// digits the colour is written without alpha.
pub proof fn lemma_hex_round_trip(s: Seq<char>, alpha_first: Option<bool>)
    requires
        well_formed_hex(s),
    ensures
        ({
            let c = hex_decoding(s, alpha_first == Some(true));
            let a = decoded_alpha(s, alpha_first == Some(true));
            hex_outcome((c.0, c.1, c.2, a), alpha_first) == Ok::<Seq<char>, ColorError>(
                seq!['#'] + lower_hex_digits(strip_hash(s)),
            )
        }),
{
    let d = strip_hash(s);
    let first = alpha_first == Some(true);
    let c = hex_decoding(s, first);
    let a = decoded_alpha(s, first);
    assert(hex_digit_value(d[0]) is Some && hex_digit_value(d[1]) is Some);
    assert(hex_digit_value(d[2]) is Some && hex_digit_value(d[3]) is Some);
    assert(hex_digit_value(d[4]) is Some && hex_digit_value(d[5]) is Some);
    lemma_pair_round_trip(d, 0);
    lemma_pair_round_trip(d, 2);
    lemma_pair_round_trip(d, 4);
    let alpha = match a {
        Some(x) => Some(alpha_byte(x)),
        None => None,
    };
    if d.len() == 8 {
        assert(hex_digit_value(d[6]) is Some && hex_digit_value(d[7]) is Some);
        lemma_pair_round_trip(d, 6);
        lemma_alpha_byte_of_byte(hex_pair(d, 0));
        lemma_alpha_byte_of_byte(hex_pair(d, 6));
    }
    assert(hex_encoding(c.0 as int, c.1 as int, c.2 as int, alpha, first) =~= seq!['#']
        + lower_hex_digits(d));
}

/// Writing a valid colour and reading the string again, with the same alpha
/// order, gives the channels back, and the alpha as its nearest byte in
/// 255ths; a colour written without alpha is read with the alpha one.
pub proof fn lemma_hex_read_back(
    color: (u32, u32, u32, Option<Fraction>),
    alpha_first: Option<bool>,
)
    requires
        hex_outcome(color, alpha_first) is Ok,
    ensures
        ({
            let text = hex_outcome(color, alpha_first).unwrap();
            let alpha = match color.3 {
                Some(a) => Fraction { num: alpha_byte(a) as u32, den: 255 },
                None => Fraction { num: 1, den: 1 },
            };
            &&& well_formed_hex(text)
            &&& hex_decoding(text, alpha_first == Some(true)) == (
                color.0,
                color.1,
                color.2,
                alpha,
            )
        }),
{
    let text = hex_outcome(color, alpha_first).unwrap();
    let first = alpha_first == Some(true);
    let (r, g, b) = (color.0 as int, color.1 as int, color.2 as int);
    lemma_byte_round_trip(r);
    lemma_byte_round_trip(g);
    lemma_byte_round_trip(b);
    let d = strip_hash(text);
    match color.3 {
        None => {
            assert(d =~= hex_byte(r) + hex_byte(g) + hex_byte(b));
            assert(d.subrange(0, 2) =~= hex_byte(r));
            assert(d.subrange(2, 4) =~= hex_byte(g));
            assert(d.subrange(4, 6) =~= hex_byte(b));
            lemma_pair_of_slice(d, 0);
            lemma_pair_of_slice(d, 2);
            lemma_pair_of_slice(d, 4);
            assert forall|i: int| 0 <= i < d.len() implies (#[trigger] hex_digit_value(
                d[i],
            )) is Some by {
                lemma_digits_of_slice(d, (i / 2) * 2);
            }
        },
        Some(a) => {
            let al = alpha_byte(a);
            lemma_alpha_byte_range(a);
            lemma_byte_round_trip(al);
            if first {
                assert(d =~= hex_byte(al) + hex_byte(r) + hex_byte(g) + hex_byte(b));
                assert(d.subrange(0, 2) =~= hex_byte(al));
                assert(d.subrange(2, 4) =~= hex_byte(r));
                assert(d.subrange(4, 6) =~= hex_byte(g));
                assert(d.subrange(6, 8) =~= hex_byte(b));
            } else {
                assert(d =~= hex_byte(r) + hex_byte(g) + hex_byte(b) + hex_byte(al));
                assert(d.subrange(0, 2) =~= hex_byte(r));
                assert(d.subrange(2, 4) =~= hex_byte(g));
                assert(d.subrange(4, 6) =~= hex_byte(b));
                assert(d.subrange(6, 8) =~= hex_byte(al));
            }
            lemma_pair_of_slice(d, 0);
            lemma_pair_of_slice(d, 2);
            lemma_pair_of_slice(d, 4);
            lemma_pair_of_slice(d, 6);
            assert forall|i: int| 0 <= i < d.len() implies (#[trigger] hex_digit_value(
                d[i],
            )) is Some by {
                lemma_digits_of_slice(d, (i / 2) * 2);
            }
        },
    }
}

proof fn lemma_pair_of_slice(d: Seq<char>, i: int)
    requires
        0 <= i,
        i + 2 <= d.len(),
    ensures
        hex_pair(d, i) == hex_pair(d.subrange(i, i + 2), 0),
{
}

proof fn lemma_digits_of_slice(d: Seq<char>, i: int)
    requires
        0 <= i,
        i + 2 <= d.len(),
    ensures
        d[i] == d.subrange(i, i + 2)[0],
        d[i + 1] == d.subrange(i, i + 2)[1],
{
}

} // verus!
