//! The text-mode colour and character cells: the sixteen hardware colours,
//! the packed colour byte (background in the high nibble, foreground in the
//! low one), and one character cell of the 80x25 grid.

use vstd::prelude::*;

verus! {

/// Rows of the text buffer.
pub const BUFFER_HEIGHT: usize = 25;

/// Columns of the text buffer.
pub const BUFFER_WIDTH: usize = 80;

/// The sixteen colours of the text mode.
#[derive(Clone, Copy, PartialEq, Eq, Structural, Debug)]
pub enum Color {
    Black,
    Blue,
    Green,
    Cyan,
    Red,
    Magenta,
    Brown,
    LightGray,
    DarkGray,
    LightBlue,
    LightGreen,
    LightCyan,
    LightRed,
    Pink,
    Yellow,
    White,
}

/// The hardware number of a colour.
pub open spec fn spec_color_value(c: Color) -> u8 {
    match c {
        Color::Black => 0x0,
        Color::Blue => 0x1,
        Color::Green => 0x2,
        Color::Cyan => 0x3,
        Color::Red => 0x4,
        Color::Magenta => 0x5,
        Color::Brown => 0x6,
        Color::LightGray => 0x7,
        Color::DarkGray => 0x8,
        Color::LightBlue => 0x9,
        Color::LightGreen => 0xA,
        Color::LightCyan => 0xB,
        Color::LightRed => 0xC,
        Color::Pink => 0xD,
        Color::Yellow => 0xE,
        Color::White => 0xF,
    }
}

/// The colour a hardware number names; numbers above 15 fall back to black.
pub open spec fn spec_color_of(val: u8) -> Color {
    if val == 0x1 {
        Color::Blue
    } else if val == 0x2 {
        Color::Green
    } else if val == 0x3 {
        Color::Cyan
    } else if val == 0x4 {
        Color::Red
    } else if val == 0x5 {
        Color::Magenta
    } else if val == 0x6 {
        Color::Brown
    } else if val == 0x7 {
        Color::LightGray
    } else if val == 0x8 {
        Color::DarkGray
    } else if val == 0x9 {
        Color::LightBlue
    } else if val == 0xA {
        Color::LightGreen
    } else if val == 0xB {
        Color::LightCyan
    } else if val == 0xC {
        Color::LightRed
    } else if val == 0xD {
        Color::Pink
    } else if val == 0xE {
        Color::Yellow
    } else if val == 0xF {
        Color::White
    } else {
        Color::Black
    }
}

impl Color {
    /// The hardware number of this colour.
    pub fn as_u8(self) -> (r: u8)
        ensures
            r == spec_color_value(self),
            r < 16,
    {
        match self {
            Color::Black => 0x0,
            Color::Blue => 0x1,
            Color::Green => 0x2,
            Color::Cyan => 0x3,
            Color::Red => 0x4,
            Color::Magenta => 0x5,
            Color::Brown => 0x6,
            Color::LightGray => 0x7,
            Color::DarkGray => 0x8,
            Color::LightBlue => 0x9,
            Color::LightGreen => 0xA,
            Color::LightCyan => 0xB,
            Color::LightRed => 0xC,
            Color::Pink => 0xD,
            Color::Yellow => 0xE,
            Color::White => 0xF,
        }
    }
}

/// The colour named by a hardware number; above 15, black.
pub fn convert_to_color(val: u8) -> (r: Color)
    ensures
        r == spec_color_of(val),
{
    match val {
        0x1 => Color::Blue,
        0x2 => Color::Green,
        0x3 => Color::Cyan,
        0x4 => Color::Red,
        0x5 => Color::Magenta,
        0x6 => Color::Brown,
        0x7 => Color::LightGray,
        0x8 => Color::DarkGray,
        0x9 => Color::LightBlue,
        0xA => Color::LightGreen,
        0xB => Color::LightCyan,
        0xC => Color::LightRed,
        0xD => Color::Pink,
        0xE => Color::Yellow,
        0xF => Color::White,
        _ => Color::Black,
    }
}

/// The packed colour byte: background in bits 4..8, foreground in bits 0..4.
#[derive(Clone, Copy, PartialEq, Eq, Structural, Debug)]
pub struct ColorCode(pub u8);

impl ColorCode {
    /// Packs a foreground and background colour.
    pub fn new(foreground: Color, background: Color) -> (r: ColorCode)
        ensures
            r.0 == 16 * spec_color_value(background) + spec_color_value(foreground),
    {
        let r = Self::generate(foreground.as_u8(), background.as_u8());
        proof {
            let f = spec_color_value(foreground);
            let b = spec_color_value(background);
            assert(f < 16 && b < 16 ==> (b << 4 | f) == 16 * b + f) by (bit_vector);
        }
        r
    }

    /// Packs two raw nibble values.
    fn generate(foreground: u8, background: u8) -> (r: ColorCode)
        ensures
            r.0 == (background << 4 | foreground),
    {
        ColorCode(background << 4 | foreground)
    }

    /// The (foreground, background) pair packed in this byte.
    pub fn get_colors(&self) -> (r: (u8, u8))
        ensures
            r.0 == self.0 % 16,
            r.1 == self.0 / 16,
    {
        proof {
            let v = self.0;
            assert(v >> 4u8 == v / 16) by (bit_vector);
        }
        (self.0 % 16u8, self.0 >> 4u8)
    }

    /// Swaps foreground and background.
    pub fn invert(&mut self)
        ensures
            final(self).0 == 16 * (old(self).0 % 16) + old(self).0 / 16,
    {
        let colors = self.get_colors();
        let r = Self::generate(colors.1, colors.0);
        proof {
            let v = old(self).0;
            assert((v % 16) << 4 | (v >> 4) == 16 * (v % 16) + v / 16) by (bit_vector);
            assert(v >> 4 == v / 16) by (bit_vector);
        }
        *self = r;
    }
}

/// One cell of the text grid: a code-page character and its colours.
#[derive(Clone, Copy, PartialEq, Eq, Structural, Debug)]
pub struct Char {
    pub ascii_character: u8,
    pub color_code: ColorCode,
}

impl Char {
    /// Swaps the cell's foreground and background.
    pub fn invert_colors(&mut self)
        ensures
            final(self).ascii_character == old(self).ascii_character,
            final(self).color_code.0 == 16 * (old(self).color_code.0 % 16) + old(
                self,
            ).color_code.0 / 16,
    {
        self.color_code.invert();
    }
}

} // verus!
