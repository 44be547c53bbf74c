//! Colours as the painter reads them from computed style values: a few names,
//! and hexadecimal notations with three, four, six or eight digits.

use vstd::prelude::*;

use crate::text::{ascii_lower, ascii_lowercase, chars_of, str_eq, trim, trimmed, utf8_len};

verus! {

/// A colour with its opacity, each channel from 0 to 255.
#[derive(Clone, Copy, Debug, PartialEq, Eq, Structural)]
pub struct PaintColor {
    pub red: u8,
    pub green: u8,
    pub blue: u8,
    pub alpha: u8,
}

/// The value of a hexadecimal digit, as `char::to_digit(16)` reads it.
pub open spec fn hex_value(c: char) -> Option<u8> {
    let n = c as u32;
    if 48 <= n && n <= 57 {
        Some((n - 48) as u8)
    } else if 97 <= n && n <= 102 {
        Some((n - 87) as u8)
    } else if 65 <= n && n <= 70 {
        Some((n - 55) as u8)
    } else {
        None
    }
}

/// The value of a hexadecimal digit.
pub fn hex_digit(value: char) -> (r: Option<u8>)
    ensures
        r == hex_value(value),
{
    let n = value as u32;
    if 48 <= n && n <= 57 {
        Some((n - 48) as u8)
    } else if 97 <= n && n <= 102 {
        Some((n - 87) as u8)
    } else if 65 <= n && n <= 70 {
        Some((n - 55) as u8)
    } else {
        None
    }
}

/// Two characters read as a byte in base 16, as `u8::from_str_radix` reads
/// them: two digits, or a plus sign and one digit.
pub open spec fn hex_pair(first: char, second: char) -> Option<u8> {
    if first == '+' {
        hex_value(second)
    } else {
        match (hex_value(first), hex_value(second)) {
            (Some(high), Some(low)) => Some((high * 16 + low) as u8),
            _ => None,
        }
    }
}

fn read_hex_pair(first: char, second: char) -> (r: Option<u8>)
    ensures
        r == hex_pair(first, second),
{
    if first == '+' {
        return hex_digit(second);
    }
    match (hex_digit(first), hex_digit(second)) {
        (Some(high), Some(low)) => Some(high * 16 + low),
        _ => None,
    }
}

/// Whether byte `offset` of the UTF-8 encoding of `s` starts a character.
pub open spec fn is_char_boundary(s: Seq<char>, offset: int) -> bool {
    exists|k: int| 0 <= k <= s.len() && utf8_len(#[trigger] s.subrange(0, k)) == offset
}

/// Whether reading the six or eight digit notation from `value` would cut a
/// character in two.
pub open spec fn splits_a_character(value: Seq<char>) -> bool {
    &&& value.len() > 0
    &&& value[0] == '#'
    &&& (utf8_len(value) == 7 && !(is_char_boundary(value, 3) && is_char_boundary(value, 5)))
        || (utf8_len(value) == 9 && !(is_char_boundary(value, 3) && is_char_boundary(value, 5)
        && is_char_boundary(value, 7)))
}

/// The colour with these four channels.
pub open spec fn rgba(red: int, green: int, blue: int, alpha: int) -> PaintColor {
    PaintColor { red: red as u8, green: green as u8, blue: blue as u8, alpha: alpha as u8 }
}

/// The colour that a trimmed, lower-case value names: black, white, red,
/// green (0, 128, 0), blue, transparent; `#rgb` and `#rgba` with each digit
/// doubled; `#rrggbb` and `#rrggbbaa`. Opacity is full where no digits give it.
pub open spec fn color_value(v: Seq<char>) -> Option<PaintColor> {
    if v == "black"@ {
        Some(rgba(0, 0, 0, 255))
    } else if v == "white"@ {
        Some(rgba(255, 255, 255, 255))
    } else if v == "red"@ {
        Some(rgba(255, 0, 0, 255))
    } else if v == "green"@ {
        Some(rgba(0, 128, 0, 255))
    } else if v == "blue"@ {
        Some(rgba(0, 0, 255, 255))
    } else if v == "transparent"@ {
        Some(rgba(0, 0, 0, 0))
    } else if v.len() > 0 && v[0] == '#' {
        if v.len() == 4 {
            match (hex_value(v[1]), hex_value(v[2]), hex_value(v[3])) {
                (Some(r), Some(g), Some(b)) => Some(rgba(r * 17, g * 17, b * 17, 255)),
                _ => None,
            }
        } else if v.len() == 5 {
            match (hex_value(v[1]), hex_value(v[2]), hex_value(v[3]), hex_value(v[4])) {
                (Some(r), Some(g), Some(b), Some(a)) => Some(rgba(r * 17, g * 17, b * 17, a * 17)),
                _ => None,
            }
        } else if v.len() == 7 {
            match (hex_pair(v[1], v[2]), hex_pair(v[3], v[4]), hex_pair(v[5], v[6])) {
                (Some(r), Some(g), Some(b)) => Some(rgba(r as int, g as int, b as int, 255)),
                _ => None,
            }
        } else if v.len() == 9 {
            match (hex_pair(v[1], v[2]), hex_pair(v[3], v[4]), hex_pair(v[5], v[6]), hex_pair(v[7], v[8])) {
                (Some(r), Some(g), Some(b), Some(a)) => Some(rgba(r as int, g as int, b as int, a as int)),
                _ => None,
            }
        } else {
            None
        }
    } else {
        None
    }
}

/// The colour that a computed style value names, read without surrounding
/// white space and ignoring ASCII case.
pub fn parse_color(value: &str) -> (r: Option<PaintColor>)
    requires
        !splits_a_character(ascii_lower(trim(value@))),
    ensures
        r == color_value(ascii_lower(trim(value@))),
{
    let normalized = ascii_lowercase(trimmed(value).as_str());
    let v = chars_of(normalized.as_str());
    let ghost w = ascii_lower(trim(value@));
    proof {
        assert(v@ == w);
    }
    if str_eq(normalized.as_str(), "black") {
        return Some(PaintColor { red: 0, green: 0, blue: 0, alpha: 255 });
    }
    if str_eq(normalized.as_str(), "white") {
        return Some(PaintColor { red: 255, green: 255, blue: 255, alpha: 255 });
    }
    if str_eq(normalized.as_str(), "red") {
        return Some(PaintColor { red: 255, green: 0, blue: 0, alpha: 255 });
    }
    if str_eq(normalized.as_str(), "green") {
        return Some(PaintColor { red: 0, green: 128, blue: 0, alpha: 255 });
    }
    if str_eq(normalized.as_str(), "blue") {
        return Some(PaintColor { red: 0, green: 0, blue: 255, alpha: 255 });
    }
    if str_eq(normalized.as_str(), "transparent") {
        return Some(PaintColor { red: 0, green: 0, blue: 0, alpha: 0 });
    }
    if v.len() == 0 || v[0] != '#' {
        return None;
    }
    if v.len() == 4 || v.len() == 5 {
        let red = match hex_digit(v[1]) {
            Some(d) => d,
            None => {
                return None;
            },
        };
        let green = match hex_digit(v[2]) {
            Some(d) => d,
            None => {
                return None;
            },
        };
        let blue = match hex_digit(v[3]) {
            Some(d) => d,
            None => {
                return None;
            },
        };
        let alpha = if v.len() == 5 {
            match hex_digit(v[4]) {
                Some(d) => d * 17,
                None => {
                    return None;
                },
            }
        } else {
            255
        };
        return Some(PaintColor { red: red * 17, green: green * 17, blue: blue * 17, alpha });
    }
    if v.len() == 7 || v.len() == 9 {
        let red = match read_hex_pair(v[1], v[2]) {
            Some(d) => d,
            None => {
                return None;
            },
        };
        let green = match read_hex_pair(v[3], v[4]) {
            Some(d) => d,
            None => {
                return None;
            },
        };
        let blue = match read_hex_pair(v[5], v[6]) {
            Some(d) => d,
            None => {
                return None;
            },
        };
        let alpha = if v.len() == 9 {
            match read_hex_pair(v[7], v[8]) {
                Some(d) => d,
                None => {
                    return None;
                },
            }
        } else {
            255
        };
        return Some(PaintColor { red, green, blue, alpha });
    }
    None
}

/// The channels of a colour in the order red, green, blue, opacity.
pub fn paint_rgba(color: PaintColor) -> (r: [u8; 4])
    ensures
        r@ == seq![color.red, color.green, color.blue, color.alpha],
{
    let r = [color.red, color.green, color.blue, color.alpha];
    proof {
        assert(r@ =~= seq![color.red, color.green, color.blue, color.alpha]);
    }
    r
}

/// One channel of `source` laid with opacity `alpha` over `destination`.
pub open spec fn blended(source: u8, destination: u8, alpha: u8) -> int {
    (source * alpha + destination * (255 - alpha)) / 255
}

fn blend_channel(source: u8, destination: u8, alpha: u8) -> (r: u8)
    ensures
        r == blended(source, destination, alpha),
{
    let s = source as u16;
    let d = destination as u16;
    let a = alpha as u16;
    proof {
        assert(s * a <= 255 * a) by (nonlinear_arith)
            requires
                s <= 255,
        ;
        assert(d * (255 - a) <= 255 * (255 - a)) by (nonlinear_arith)
            requires
                d <= 255,
                a <= 255,
        ;
        assert(s * a + d * (255 - a) <= 65025);
        assert((s * a + d * (255 - a)) / 255 <= 255) by (nonlinear_arith)
            requires
                s * a + d * (255 - a) <= 65025,
                s * a + d * (255 - a) >= 0,
        ;
    }
    ((s * a + d * (255 - a)) / 255) as u8
}

/// The pixel `pixel` with `source` laid over it at the source's opacity; the
/// result is opaque.
pub fn blend_rgba(pixel: [u8; 4], source: [u8; 4]) -> (r: [u8; 4])
    ensures
        r@[0] == blended(source@[0], pixel@[0], source@[3]),
        r@[1] == blended(source@[1], pixel@[1], source@[3]),
        r@[2] == blended(source@[2], pixel@[2], source@[3]),
        r@[3] == 255,
{
    let alpha = source[3];
    [
        blend_channel(source[0], pixel[0], alpha),
        blend_channel(source[1], pixel[1], alpha),
        blend_channel(source[2], pixel[2], alpha),
        255,
    ]
}

/// An opaque source covers what lies below it; a fully transparent one leaves
/// it; any other lies between the two.
pub proof fn law_blend_between(source: u8, destination: u8, alpha: u8)
    ensures
        alpha == 255 ==> blended(source, destination, alpha) == source,
        alpha == 0 ==> blended(source, destination, alpha) == destination,
        source <= destination ==> source <= blended(source, destination, alpha) <= destination,
        destination <= source ==> destination <= blended(source, destination, alpha) <= source,
{
    let s = source as int;
    let d = destination as int;
    let a = alpha as int;
    assert(alpha == 255 ==> blended(source, destination, alpha) == source) by (nonlinear_arith)
        requires
            0 <= s <= 255,
            0 <= d <= 255,
            a == alpha,
            s == source,
            d == destination,
    ;
    assert(alpha == 0 ==> blended(source, destination, alpha) == destination) by (nonlinear_arith)
        requires
            0 <= s <= 255,
            0 <= d <= 255,
            a == alpha,
            s == source,
            d == destination,
    ;
    assert(s <= d ==> s <= (s * a + d * (255 - a)) / 255 <= d) by (nonlinear_arith)
        requires
            0 <= s <= 255,
            0 <= d <= 255,
            0 <= a <= 255,
    ;
    assert(d <= s ==> d <= (s * a + d * (255 - a)) / 255 <= s) by (nonlinear_arith)
        requires
            0 <= s <= 255,
            0 <= d <= 255,
            0 <= a <= 255,
    ;
}

/// The short hexadecimal notations double each digit: for any hexadecimal
/// digits, `#rgb` is the colour of `#rrggbb`, and `#rgba` that of `#rrggbbaa`.
pub proof fn law_short_hex_doubles_digits(r: char, g: char, b: char, a: char)
    requires
        hex_value(r) is Some,
        hex_value(g) is Some,
        hex_value(b) is Some,
        hex_value(a) is Some,
    ensures
        color_value(seq!['#', r, g, b]) == color_value(seq!['#', r, r, g, g, b, b]),
        color_value(seq!['#', r, g, b, a]) == color_value(seq!['#', r, r, g, g, b, b, a, a]),
{
    lemma_color_names();
}

/// The long hexadecimal notations give each channel as a two-digit base-16
/// number, and full opacity where no alpha digits are written: for any
/// hexadecimal digits, `#rrggbb` has red `16 * r1 + r2` and so on.
pub proof fn law_long_hex_channels(r1: char, r2: char, g1: char, g2: char, b1: char, b2: char)
    requires
        hex_value(r1) is Some && hex_value(r2) is Some,
        hex_value(g1) is Some && hex_value(g2) is Some,
        hex_value(b1) is Some && hex_value(b2) is Some,
    ensures
        color_value(seq!['#', r1, r2, g1, g2, b1, b2]) matches Some(c) && c.red as int == hex_value(r1)->Some_0
            * 16 + hex_value(r2)->Some_0 && c.green as int == hex_value(g1)->Some_0 * 16 + hex_value(g2)->Some_0
            && c.blue as int == hex_value(b1)->Some_0 * 16 + hex_value(b2)->Some_0 && c.alpha == 255,
{
    lemma_color_names();
}

proof fn lemma_color_names()
    ensures
        "black"@.len() == 5 && "black"@[0] == 'b',
        "white"@.len() == 5 && "white"@[0] == 'w',
        "red"@.len() == 3 && "red"@[0] == 'r',
        "green"@.len() == 5 && "green"@[0] == 'g',
        "blue"@.len() == 4 && "blue"@[0] == 'b',
        "transparent"@.len() == 11 && "transparent"@[0] == 't',
{
    reveal_strlit("black");
    reveal_strlit("white");
    reveal_strlit("red");
    reveal_strlit("green");
    reveal_strlit("blue");
    reveal_strlit("transparent");
}

proof fn lemma_hex_digits()
    ensures
        hex_value('f') == Some(15u8),
        hex_value('0') == Some(0u8),
        hex_value('8') == Some(8u8),
        hex_pair('f', 'f') == Some(255u8),
        hex_pair('0', '0') == Some(0u8),
        hex_pair('8', '0') == Some(128u8),
{
}

proof fn lemma_long_hex(v: Seq<char>, red: u8, green: u8, blue: u8)
    requires
        v.len() == 7 && v[0] == '#',
        hex_pair(v[1], v[2]) == Some(red),
        hex_pair(v[3], v[4]) == Some(green),
        hex_pair(v[5], v[6]) == Some(blue),
    ensures
        color_value(v) == Some(rgba(red as int, green as int, blue as int, 255)),
{
    lemma_color_names();
}

/// Each colour name is the colour of its hexadecimal notation: `black` is
/// `#000000`, `white` `#ffffff`, `red` `#ff0000`, `green` `#008000` and `blue`
/// `#0000ff`.
pub proof fn law_colour_names_are_their_hex_values()
    ensures
        color_value("black"@) == color_value(seq!['#', '0', '0', '0', '0', '0', '0']),
        color_value("white"@) == color_value(seq!['#', 'f', 'f', 'f', 'f', 'f', 'f']),
        color_value("red"@) == color_value(seq!['#', 'f', 'f', '0', '0', '0', '0']),
        color_value("green"@) == color_value(seq!['#', '0', '0', '8', '0', '0', '0']),
        color_value("blue"@) == color_value(seq!['#', '0', '0', '0', '0', 'f', 'f']),
{
    lemma_color_names();
    lemma_hex_digits();
    assert("white"@[0] != "black"@[0]);
    assert("green"@[0] != "black"@[0]);
    assert("green"@[0] != "white"@[0]);
    lemma_long_hex(seq!['#', '0', '0', '0', '0', '0', '0'], 0, 0, 0);
    lemma_long_hex(seq!['#', 'f', 'f', 'f', 'f', 'f', 'f'], 255, 255, 255);
    lemma_long_hex(seq!['#', 'f', 'f', '0', '0', '0', '0'], 255, 0, 0);
    lemma_long_hex(seq!['#', '0', '0', '8', '0', '0', '0'], 0, 128, 0);
    lemma_long_hex(seq!['#', '0', '0', '0', '0', 'f', 'f'], 0, 0, 255);
}

/// `transparent` is black with no opacity, the colour of `#00000000`, and no
/// two colour names give one colour.
pub proof fn law_colour_names_are_distinct()
    ensures
        color_value("transparent"@) == color_value(seq!['#', '0', '0', '0', '0', '0', '0', '0', '0']),
        color_value("white"@) != color_value("black"@),
        color_value("red"@) != color_value("green"@),
        color_value("green"@) != color_value("blue"@),
        color_value("red"@) != color_value("blue"@),
        color_value("red"@) != color_value("white"@),
        color_value("black"@) != color_value("transparent"@),
{
    lemma_color_names();
    lemma_hex_digits();
    assert("white"@[0] != "black"@[0]);
    assert("green"@[0] != "black"@[0]);
    assert("green"@[0] != "white"@[0]);
    let v = seq!['#', '0', '0', '0', '0', '0', '0', '0', '0'];
    assert(v.len() == 9 && v[0] == '#');
}

/// Hexadecimal digits read as base-16 values: `0` to `9` are 0 to 9, `a` to `f`
/// and `A` to `F` are 10 to 15, an upper-case digit reads as its lower case,
/// and no other character is a digit.
pub proof fn law_hex_digit_values(c: char)
    ensures
        '0' <= c <= '9' ==> (hex_value(c) matches Some(v) && v as int == c as int - '0' as int),
        'a' <= c <= 'f' ==> (hex_value(c) matches Some(v) && v as int == c as int - 'a' as int + 10),
        'A' <= c <= 'F' ==> (hex_value(c) matches Some(v) && v as int == c as int - 'A' as int + 10),
        !('0' <= c <= '9' || 'a' <= c <= 'f' || 'A' <= c <= 'F') ==> hex_value(c) is None,
{
}

/// Two hexadecimal digits read as one byte, high digit first; a `+` before a
/// single digit reads as that digit, as `u8::from_str_radix` allows.
pub proof fn law_hex_pairs(high: char, low: char)
    ensures
        high != '+' && hex_value(high) is Some && hex_value(low) is Some ==> (hex_pair(high, low) matches Some(v) && v
            as int == hex_value(high)->Some_0 * 16 + hex_value(low)->Some_0),
        hex_value(high) is None && high != '+' ==> hex_pair(high, low) is None,
        hex_value(low) is None ==> hex_pair(high, low) is None,
        hex_pair('+', low) == hex_value(low),
{
    assert(hex_value('+') is None);
}

/// The four- and eight-digit notations carry the opacity in their last digits;
/// the three- and six-digit ones are fully opaque.
pub proof fn law_hex_alpha(r: char, g: char, b: char, a: char, a2: char)
    requires
        hex_value(r) is Some && hex_value(g) is Some && hex_value(b) is Some,
        hex_value(a) is Some && hex_value(a2) is Some,
        a != '+',
    ensures
        color_value(seq!['#', r, g, b]) matches Some(c) && c.alpha == 255,
        color_value(seq!['#', r, g, b, a]) matches Some(c) && c.alpha as int == hex_value(a)->Some_0 * 17,
        color_value(seq!['#', r, r, g, g, b, b]) matches Some(c) && c.alpha == 255,
        color_value(seq!['#', r, r, g, g, b, b, a, a2]) matches Some(c) && c.alpha as int == hex_value(a)->Some_0 * 16
            + hex_value(a2)->Some_0,
{
    lemma_color_names();
    assert(r != '+' && g != '+' && b != '+');
}

} // verus!
