//! Colours and the visual style of an element.
//!
//! Colour channels are eight-bit values; `c` parses the common six-digit
//! hexadecimal notation. Lengths (border, padding) are whole pixels.

use vstd::prelude::*;
use vstd::string::StrSliceExecFns;

verus! {

/// An RGBA colour with eight-bit channels.
#[derive(Clone, Copy, Debug, PartialEq, Eq, Structural)]
pub struct Colour {
    pub r: u8,
    pub g: u8,
    pub b: u8,
    pub a: u8,
}

/// The value of one hexadecimal digit, or 16 for any other character.
pub open spec fn hex_digit_value(ch: char) -> u8 {
    if '0' <= ch <= '9' {
        (ch as u8 - '0' as u8) as u8
    } else if 'a' <= ch <= 'f' {
        (ch as u8 - 'a' as u8 + 10) as u8
    } else if 'A' <= ch <= 'F' {
        (ch as u8 - 'A' as u8 + 10) as u8
    } else {
        16
    }
}

/// Whether `s` is six hexadecimal digits.
pub open spec fn is_hex6(s: Seq<char>) -> bool {
    s.len() == 6 && forall|i: int| 0 <= i < 6 ==> hex_digit_value(#[trigger] s[i]) < 16
}

/// The channel encoded by two hexadecimal digits.
pub open spec fn hex_byte(hi: char, lo: char) -> u8
    recommends
        hex_digit_value(hi) < 16,
        hex_digit_value(lo) < 16,
{
    (hex_digit_value(hi) * 16 + hex_digit_value(lo)) as u8
}

fn hex_digit(ch: char) -> (r: u8)
    ensures
        r == hex_digit_value(ch),
{
    let code = ch as u32;
    if code >= '0' as u32 && code <= '9' as u32 {
        (code - '0' as u32) as u8
    } else if code >= 'a' as u32 && code <= 'f' as u32 {
        (code - 'a' as u32 + 10) as u8
    } else if code >= 'A' as u32 && code <= 'F' as u32 {
        (code - 'A' as u32 + 10) as u8
    } else {
        16
    }
}

/// Parses a six-digit hexadecimal colour such as `1a1a1a`, fully opaque.
pub fn c(col: &str) -> (r: Colour)
    requires
        is_hex6(col@),
    ensures
        r.r == hex_byte(col@[0], col@[1]),
        r.g == hex_byte(col@[2], col@[3]),
        r.b == hex_byte(col@[4], col@[5]),
        r.a == 255,
{
    let hr = hex_digit(col.get_char(0)) * 16 + hex_digit(col.get_char(1));
    let hg = hex_digit(col.get_char(2)) * 16 + hex_digit(col.get_char(3));
    let hb = hex_digit(col.get_char(4)) * 16 + hex_digit(col.get_char(5));
    Colour { r: hr, g: hg, b: hb, a: 255 }
}

/// Pure black, fully opaque.
pub fn black() -> (r: Colour)
    ensures
        r == (Colour { r: 0, g: 0, b: 0, a: 255 }),
{
    Colour { r: 0, g: 0, b: 0, a: 255 }
}

/// The style every element starts from: visible, self-rendering, black on
/// black, without border or padding.
pub open spec fn plain_style() -> Style {
    Style {
        visible: true,
        render_self: true,
        background_colour: Colour { r: 0, g: 0, b: 0, a: 255 },
        border_colour: Colour { r: 0, g: 0, b: 0, a: 255 },
        border_width: 0,
        padding: 0,
        padding_top: 0,
        padding_left: 0,
    }
}

/// How one element is drawn.
#[derive(Clone, Copy, Debug, PartialEq, Eq, Structural)]
pub struct Style {
    pub visible: bool,
    pub render_self: bool,
    pub background_colour: Colour,
    pub border_colour: Colour,
    pub border_width: i64,
    pub padding: i64,
    pub padding_top: i64,
    pub padding_left: i64,
}

impl Style {
    /// The plain starting style; see [`plain_style`].
    pub fn plain() -> (r: Self)
        ensures
            r == plain_style(),
    {
        Style {
            visible: true,
            render_self: true,
            background_colour: black(),
            border_colour: black(),
            border_width: 0,
            padding: 0,
            padding_top: 0,
            padding_left: 0,
        }
    }
}

impl Default for Style {
    fn default() -> (r: Self)
        ensures
            r == plain_style(),
    {
        Style::plain()
    }
}

/// The named colours of the editor's visual theme.
pub struct ColourPalette {
    pub bg_primary: Colour,
    pub text_primary: Colour,
    pub black: Colour,
    pub white: Colour,
    pub black_key: Colour,
    pub white_key: Colour,
    pub black_key_piano_roll_row: Colour,
    pub white_key_piano_roll_row: Colour,
    pub black_key_piano_roll_row_alt: Colour,
    pub white_key_piano_roll_row_alt: Colour,
    pub time_grid: Colour,
    pub selected: Colour,
    pub player_head: Colour,
}

impl Default for ColourPalette {
    fn default() -> (r: Self)
        ensures
            r.bg_primary == (Colour { r: 0x1a, g: 0x1a, b: 0x1a, a: 255 }),
            r.text_primary == (Colour { r: 0xff, g: 0xff, b: 0xff, a: 255 }),
            r.selected == (Colour { r: 0xff, g: 0, b: 0, a: 255 }),
    {
        ColourPalette {
            bg_primary: Colour { r: 0x1a, g: 0x1a, b: 0x1a, a: 255 },
            text_primary: Colour { r: 0xff, g: 0xff, b: 0xff, a: 255 },
            black: Colour { r: 0, g: 0, b: 0, a: 255 },
            white: Colour { r: 0xff, g: 0xff, b: 0xff, a: 255 },
            black_key: Colour { r: 0x22, g: 0x22, b: 0x22, a: 255 },
            white_key: Colour { r: 0xdd, g: 0xdd, b: 0xdd, a: 255 },
            black_key_piano_roll_row: Colour { r: 77, g: 77, b: 77, a: 255 },
            white_key_piano_roll_row: Colour { r: 115, g: 115, b: 115, a: 255 },
            black_key_piano_roll_row_alt: Colour { r: 64, g: 64, b: 64, a: 255 },
            white_key_piano_roll_row_alt: Colour { r: 102, g: 102, b: 102, a: 255 },
            time_grid: Colour { r: 0x44, g: 0x44, b: 0x44, a: 255 },
            selected: Colour { r: 0xff, g: 0, b: 0, a: 255 },
            player_head: Colour { r: 0xff, g: 0x44, b: 0x44, a: 255 },
        }
    }
}

} // verus!
