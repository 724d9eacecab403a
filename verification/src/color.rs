//! Colors: a fixed palette addressed by one-letter mnemonics, and explicit
//! `#RRGGBB` triples.

use vstd::prelude::*;
use vstd::string::StrSliceExecFns;

verus! {

/// A color of the palette, or an explicit red/green/blue triple.
#[derive(Copy, Clone, Debug, PartialEq, Eq, Structural)]
pub enum Color {
    Blue,
    Green,
    Red,
    White,
    Yellow,
    Black,
    Rgb(u8, u8, u8),
}

impl Color {
    /// The red, green and blue channels of a color.
    pub open spec fn rgb(self) -> (u8, u8, u8) {
        match self {
            Color::Blue => (0, 0, 255),
            Color::Green => (0, 255, 0),
            Color::Red => (255, 0, 0),
            Color::White => (255, 255, 255),
            Color::Yellow => (255, 255, 0),
            Color::Black => (0, 0, 0),
            Color::Rgb(r, g, b) => (r, g, b),
        }
    }

    /// The channels that a canvas stores for this color.
    pub fn to_rgb(&self) -> (channels: (u8, u8, u8))
        ensures
            channels == self.rgb(),
    {
        match self {
            Color::Blue => (0, 0, 255),
            Color::Green => (0, 255, 0),
            Color::Red => (255, 0, 0),
            Color::White => (255, 255, 255),
            Color::Yellow => (255, 255, 0),
            Color::Black => (0, 0, 0),
            Color::Rgb(r, g, b) => (*r, *g, *b),
        }
    }

    /// Reads a color atom: a palette mnemonic or a hex literal.
    /// Returns the color exactly when [`color_of`] names one.
    pub fn from_atom(atom: &str) -> (color: Option<Color>)
        ensures
            color == color_of(atom@),
    {
        let len = atom.unicode_len();
        if len == 1 {
            let c = atom.get_char(0);
            if c == 'b' {
                Some(Color::Blue)
            } else if c == 'g' {
                Some(Color::Green)
            } else if c == 'r' {
                Some(Color::Red)
            } else if c == 'w' {
                Some(Color::White)
            } else if c == 'y' {
                Some(Color::Yellow)
            } else if c == 's' {
                Some(Color::Black)
            } else {
                None
            }
        } else {
            match to_hex_color(atom) {
                Some((r, g, b)) => Some(Color::Rgb(r, g, b)),
                None => None,
            }
        }
    }
}

impl std::str::FromStr for Color {
    type Err = ();

    fn from_str(s: &str) -> (color: Result<Self, ()>)
        ensures
            color == match color_of(s@) {
                Some(c) => Ok::<Color, ()>(c),
                None => Err::<Color, ()>(()),
            },
    {
        match Color::from_atom(s) {
            Some(color) => Ok(color),
            None => Err(()),
        }
    }
}

/// The color that the one-letter mnemonic `c` stands for.
pub open spec fn palette(c: char) -> Option<Color> {
    if c == 'b' {
        Some(Color::Blue)
    } else if c == 'g' {
        Some(Color::Green)
    } else if c == 'r' {
        Some(Color::Red)
    } else if c == 'w' {
        Some(Color::White)
    } else if c == 'y' {
        Some(Color::Yellow)
    } else if c == 's' {
        Some(Color::Black)
    } else {
        None
    }
}

/// The value of a hexadecimal digit, in either case.
pub open spec fn hex_digit_value(c: char) -> Option<u8> {
    if '0' <= c <= '9' {
        Some((c as int - '0' as int) as u8)
    } else if 'a' <= c <= 'f' {
        Some((c as int - 'a' as int + 10) as u8)
    } else if 'A' <= c <= 'F' {
        Some((c as int - 'A' as int + 10) as u8)
    } else {
        None
    }
}

/// The byte written by two hexadecimal digits, most significant first.
pub open spec fn hex_byte_value(high: char, low: char) -> Option<u8> {
    match (hex_digit_value(high), hex_digit_value(low)) {
        (Some(h), Some(l)) => Some((16 * h + l) as u8),
        _ => None,
    }
}

/// The channels of a hex literal: exactly seven characters, a `#` followed
/// by three bytes of two hexadecimal digits each, red first.
pub open spec fn hex_color(text: Seq<char>) -> Option<(u8, u8, u8)> {
    if text.len() == 7 && text[0] == '#' {
        match (
            hex_byte_value(text[1], text[2]),
            hex_byte_value(text[3], text[4]),
            hex_byte_value(text[5], text[6]),
        ) {
            (Some(r), Some(g), Some(b)) => Some((r, g, b)),
            _ => None,
        }
    } else {
        None
    }
}

/// The color that an atom denotes, if any: a single mnemonic letter of the
/// palette, or a hex literal.
pub open spec fn color_of(text: Seq<char>) -> Option<Color> {
    if text.len() == 1 {
        palette(text[0])
    } else {
        match hex_color(text) {
            Some((r, g, b)) => Some(Color::Rgb(r, g, b)),
            None => None,
        }
    }
}

/// Reads one hexadecimal digit.
pub fn hex_digit(c: char) -> (value: Option<u8>)
    ensures
        value == hex_digit_value(c),
{
    if c >= '0' && c <= '9' {
        Some(c as u8 - '0' as u8)
    } else if c >= 'a' && c <= 'f' {
        Some(c as u8 - 'a' as u8 + 10)
    } else if c >= 'A' && c <= 'F' {
        Some(c as u8 - 'A' as u8 + 10)
    } else {
        None
    }
}

/// Reads two hexadecimal digits as one byte.
fn hex_byte(high: char, low: char) -> (value: Option<u8>)
    ensures
        value == hex_byte_value(high, low),
{
    match (hex_digit(high), hex_digit(low)) {
        (Some(h), Some(l)) => Some(16 * h + l),
        _ => None,
    }
}

/// Reads a hex literal `#RRGGBB`. Anything else, a literal of another
/// length or with a digit outside `0-9a-fA-F` included, gives `None`.
pub fn to_hex_color(input: &str) -> (channels: Option<(u8, u8, u8)>)
    ensures
        channels == hex_color(input@),
{
    if input.unicode_len() != 7 {
        return None;
    }
    if input.get_char(0) != '#' {
        return None;
    }
    let red = hex_byte(input.get_char(1), input.get_char(2));
    let green = hex_byte(input.get_char(3), input.get_char(4));
    let blue = hex_byte(input.get_char(5), input.get_char(6));
    match (red, green, blue) {
        (Some(r), Some(g), Some(b)) => Some((r, g, b)),
        _ => None,
    }
}

} // verus!
