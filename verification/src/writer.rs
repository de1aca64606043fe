//! The text-mode writer: an 80x25 character grid with a cursor column and
//! a current colour. Characters are written on the bottom row; a newline
//! or an overfull row scrolls the grid up by one row. The grid is owned
//! here as a value; the embedding program copies it into the memory-mapped
//! hardware buffer.

use vstd::prelude::*;
use vstd::string::StringSliceAdditionalSpecFns;
use crate::vga_buffer::{Char, Color, ColorCode, BUFFER_HEIGHT, BUFFER_WIDTH};

verus! {

/// Cells of the whole grid.
pub const GRID_CELLS: usize = 2000;

/// Index of the first cell of the bottom row.
pub const LAST_ROW_START: usize = 1920;

/// A blank cell in the given colours.
pub open spec fn blank_char(cc: ColorCode) -> Char {
    Char { ascii_character: 32, color_code: cc }
}

/// The grid scrolled up one row, the freed bottom row blank.
pub open spec fn spec_scroll(g: Seq<Char>, blank: Char) -> Seq<Char> {
    g.subrange(80, 2000) + Seq::new(80, |i: int| blank)
}

/// A byte the writer prints as itself: the printable code page range and
/// the newline.
pub open spec fn printable_byte(b: u8) -> bool {
    (0x20 <= b <= 0x7e) || b == 10
}

/// Grid and cursor column after writing one byte.
pub open spec fn spec_write_byte(g: Seq<Char>, col: int, cc: ColorCode, byte: u8) -> (
    Seq<Char>,
    int,
) {
    if byte == 10 {
        (spec_scroll(g, blank_char(cc)), 0)
    } else {
        let scrolled = if col >= 80 {
            (spec_scroll(g, blank_char(cc)), 0)
        } else {
            (g, col)
        };
        (
            scrolled.0.update(1920 + scrolled.1, Char { ascii_character: byte, color_code: cc }),
            scrolled.1 + 1,
        )
    }
}

/// Grid and cursor column after printing one byte, substituting 0xfe for
/// anything unprintable.
pub open spec fn spec_print_byte(g: Seq<Char>, col: int, cc: ColorCode, byte: u8) -> (
    Seq<Char>,
    int,
) {
    spec_write_byte(
        g,
        col,
        cc,
        if printable_byte(byte) {
            byte
        } else {
            0xfe
        },
    )
}

/// Grid and cursor column after printing a byte string, left to right.
pub open spec fn spec_print_bytes(g: Seq<Char>, col: int, cc: ColorCode, bytes: Seq<u8>) -> (
    Seq<Char>,
    int,
)
    decreases bytes.len(),
{
    if bytes.len() == 0 {
        (g, col)
    } else {
        let st = spec_print_bytes(g, col, cc, bytes.drop_last());
        spec_print_byte(st.0, st.1, cc, bytes.last())
    }
}

/// The text-mode writer.
pub struct Writer {
    pub column_position: usize,
    pub color_code: ColorCode,
    pub buffer: Vec<Char>,
}

impl Writer {
    /// The grid has its full size and the cursor column is in range.
    pub open spec fn wf(&self) -> bool {
        &&& self.buffer@.len() == 2000
        &&& self.column_position <= 80
    }

    /// A writer over a blank grid, cursor at the start, in the given
    /// colours.
    pub fn new(foreground: Color, background: Color) -> (r: Writer)
        ensures
            r.wf(),
            r.column_position == 0,
            r.color_code.0 == 16 * crate::vga_buffer::spec_color_value(background)
                + crate::vga_buffer::spec_color_value(foreground),
            r.buffer@ =~= Seq::new(2000, |i: int| blank_char(r.color_code)),
    {
        let color_code = ColorCode::new(foreground, background);
        let buffer: Vec<Char> = vec![Char { ascii_character: 32, color_code }; 2000];
        Writer { column_position: 0, color_code, buffer }
    }

    /// Blanks one row in the writer's current colours.
    fn clear_row(&mut self, row: usize)
        requires
            old(self).wf(),
            row < 25,
        ensures
            final(self).wf(),
            final(self).column_position == old(self).column_position,
            final(self).color_code == old(self).color_code,
            forall|i: int|
                0 <= i < 2000 ==> final(self).buffer@[i] == if row * 80 <= i < row * 80 + 80 {
                    blank_char(old(self).color_code)
                } else {
                    old(self).buffer@[i]
                },
    {
        let blank = Char { ascii_character: 32u8, color_code: self.color_code };
        let mut col: usize = 0;
        while col < BUFFER_WIDTH
            invariant
                old(self).wf(),
                self.wf(),
                row < 25,
                col <= 80,
                blank == blank_char(old(self).color_code),
                self.column_position == old(self).column_position,
                self.color_code == old(self).color_code,
                forall|i: int|
                    0 <= i < 2000 ==> self.buffer@[i] == if row * 80 <= i < row * 80 + col {
                        blank_char(old(self).color_code)
                    } else {
                        old(self).buffer@[i]
                    },
            decreases 80 - col,
        {
            self.buffer[row * 80 + col] = blank;
            col = col + 1;
        }
    }

    /// Scrolls the grid up one row and returns the cursor to the start of
    /// the (blanked) bottom row.
    fn new_line(&mut self)
        requires
            old(self).wf(),
        ensures
            final(self).wf(),
            final(self).column_position == 0,
            final(self).color_code == old(self).color_code,
            final(self).buffer@ == spec_scroll(
                old(self).buffer@,
                blank_char(old(self).color_code),
            ),
    {
        let mut i: usize = 0;
        while i < LAST_ROW_START
            invariant
                old(self).wf(),
                self.wf(),
                i <= 1920,
                self.column_position == old(self).column_position,
                self.color_code == old(self).color_code,
                forall|j: int| 0 <= j < i ==> self.buffer@[j] == old(self).buffer@[j + 80],
                forall|j: int| i <= j < 2000 ==> self.buffer@[j] == old(self).buffer@[j],
            decreases 1920 - i,
        {
            let c = self.buffer[i + 80];
            self.buffer[i] = c;
            i = i + 1;
        }
        self.clear_row(BUFFER_HEIGHT - 1);
        self.column_position = 0;
        proof {
            assert(self.buffer@ =~= spec_scroll(old(self).buffer@, blank_char(self.color_code)));
        }
    }

    /// Writes one byte: a newline scrolls; anything else lands on the
    /// bottom row at the cursor, scrolling first if the row is full.
    pub fn write_byte(&mut self, byte: u8)
        requires
            old(self).wf(),
        ensures
            final(self).wf(),
            final(self).color_code == old(self).color_code,
            (final(self).buffer@, final(self).column_position as int) == spec_write_byte(
                old(self).buffer@,
                old(self).column_position as int,
                old(self).color_code,
                byte,
            ),
    {
        if byte == 10u8 {
            self.new_line();
        } else {
            if self.column_position >= BUFFER_WIDTH {
                self.new_line();
            }
            let row = BUFFER_HEIGHT - 1;
            let col = self.column_position;
            let color_code = self.color_code;
            self.buffer[row * 80 + col] = Char { ascii_character: byte, color_code };
            self.column_position = col + 1;
        }
    }

    /// Moves the cursor to the given column of the bottom row; anything
    /// out of range is ignored.
    pub fn set_cursor_pos(&mut self, row: usize, col: usize)
        requires
            old(self).wf(),
        ensures
            final(self).wf(),
            final(self).buffer == old(self).buffer,
            final(self).color_code == old(self).color_code,
            final(self).column_position == if row < 25 && col < 80 {
                col as int
            } else {
                old(self).column_position as int
            },
    {
        if row >= BUFFER_HEIGHT || col >= BUFFER_WIDTH {
            return ;
        }
        self.column_position = col;
    }

    /// Blanks the whole grid in the given colour and homes the cursor.
    /// The writer's own colour is left as it was.
    pub fn clear_screen(&mut self, color: Color)
        requires
            old(self).wf(),
        ensures
            final(self).wf(),
            final(self).color_code == old(self).color_code,
            final(self).column_position == 0,
            final(self).buffer@ =~= Seq::new(
                2000,
                |i: int|
                    Char {
                        ascii_character: 32,
                        color_code: ColorCode(
                            (16 * crate::vga_buffer::spec_color_value(color)
                                + crate::vga_buffer::spec_color_value(color)) as u8,
                        ),
                    },
            ),
    {
        let blank = Char { ascii_character: 32u8, color_code: ColorCode::new(color, color) };
        let mut i: usize = 0;
        while i < GRID_CELLS
            invariant
                old(self).wf(),
                self.wf(),
                i <= 2000,
                self.column_position == old(self).column_position,
                self.color_code == old(self).color_code,
                forall|j: int| 0 <= j < i ==> self.buffer@[j] == blank,
                forall|j: int| i <= j < 2000 ==> self.buffer@[j] == old(self).buffer@[j],
            decreases 2000 - i,
        {
            self.buffer[i] = blank;
            i = i + 1;
        }
        self.set_cursor_pos(0, 0);
    }

    /// Changes the colour used for subsequent writes.
    pub fn set_color(&mut self, foreground: Color, background: Color)
        requires
            old(self).wf(),
        ensures
            final(self).wf(),
            final(self).buffer == old(self).buffer,
            final(self).column_position == old(self).column_position,
            final(self).color_code.0 == 16 * crate::vga_buffer::spec_color_value(background)
                + crate::vga_buffer::spec_color_value(foreground),
    {
        self.color_code = ColorCode::new(foreground, background);
    }

    /// Prints a string byte by byte, substituting 0xfe for bytes outside
    /// the printable range.
    pub fn write_string(&mut self, s: &str)
        requires
            old(self).wf(),
        ensures
            final(self).wf(),
            final(self).color_code == old(self).color_code,
            (final(self).buffer@, final(self).column_position as int) == spec_print_bytes(
                old(self).buffer@,
                old(self).column_position as int,
                old(self).color_code,
                s.spec_bytes(),
            ),
    {
        let bytes = s.as_bytes();
        let mut i: usize = 0;
        while i < bytes.len()
            invariant
                old(self).wf(),
                self.wf(),
                i <= bytes@.len(),
                bytes@ == s.spec_bytes(),
                self.color_code == old(self).color_code,
                (self.buffer@, self.column_position as int) == spec_print_bytes(
                    old(self).buffer@,
                    old(self).column_position as int,
                    old(self).color_code,
                    bytes@.take(i as int),
                ),
            decreases bytes@.len() - i,
        {
            let b = bytes[i];
            proof {
                assert(bytes@.take(i + 1).drop_last() =~= bytes@.take(i as int));
                assert(bytes@.take(i + 1).last() == b);
            }
            if (0x20 <= b && b <= 0x7e) || b == 10u8 {
                self.write_byte(b);
            } else {
                self.write_byte(0xfe);
            }
            i = i + 1;
        }
        proof {
            assert(bytes@.take(bytes@.len() as int) =~= bytes@);
        }
    }
}

} // verus!
