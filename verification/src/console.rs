//! The command-driven console: a writer over the 80x25 grid whose cursor
//! cell is shown with inverted colours, driven by a small command
//! vocabulary (print, colour changes, clearing, backspace and cursor
//! movement). Input is limited to the first fifty columns.

use vstd::prelude::*;
use vstd::string::StringSliceAdditionalSpecFns;
use crate::vga_buffer::{Char, Color, ColorCode, BUFFER_HEIGHT, BUFFER_WIDTH};
use crate::writer::{blank_char, spec_scroll};

verus! {

/// Columns actually used for input.
pub const ACTUAL_BUFFER_WIDTH: usize = 50;

/// One request to the console writer.
pub enum CommandToWriter {
    Print(String),
    SetColor(Color, Color),
    ClearScreen(Color),
    Backspace,
    CursorBack,
    CursorFront,
}

/// A console request as mathematics: the printed text as a character
/// sequence.
pub enum CommandView {
    Print(Seq<char>),
    SetColor(Color, Color),
    ClearScreen(Color),
    Backspace,
    CursorBack,
    CursorFront,
}

impl View for CommandToWriter {
    type V = CommandView;

    open spec fn view(&self) -> CommandView {
        match self {
            CommandToWriter::Print(s) => CommandView::Print(s@),
            CommandToWriter::SetColor(f, b) => CommandView::SetColor(*f, *b),
            CommandToWriter::ClearScreen(c) => CommandView::ClearScreen(*c),
            CommandToWriter::Backspace => CommandView::Backspace,
            CommandToWriter::CursorBack => CommandView::CursorBack,
            CommandToWriter::CursorFront => CommandView::CursorFront,
        }
    }
}

/// Cell `(24, col + 1)` with its colours swapped: how the cursor is shown.
pub open spec fn spec_invert_at(g: Seq<Char>, col: int) -> Seq<Char> {
    g.update(
        1920 + col + 1,
        Char {
            ascii_character: g[1920 + col + 1].ascii_character,
            color_code: ColorCode(
                (16 * (g[1920 + col + 1].color_code.0 % 16) + g[1920 + col + 1].color_code.0
                    / 16) as u8,
            ),
        },
    )
}

/// Grid and column after moving the cursor to `c`: the old cursor cell is
/// restored, a zero target scrolls to a fresh line, and the new cursor
/// cell is inverted.
pub open spec fn spec_move_cursor(g: Seq<Char>, col: int, cc: ColorCode, c: int) -> (Seq<Char>, int) {
    let g1 = spec_invert_at(g, col);
    let moved = if c == 0 {
        (spec_scroll(g1, blank_char(cc)), 0)
    } else {
        (g1, c)
    };
    (spec_invert_at(moved.0, moved.1), moved.1)
}

/// The console writer: grid, cursor column and current colours.
pub struct Writer {
    pub column_position: usize,
    pub color_code: ColorCode,
    pub buffer: Vec<Char>,
}

impl Writer {
    /// The grid has its full size and the cursor stays within the input
    /// columns.
    pub open spec fn wf(&self) -> bool {
        &&& self.buffer@.len() == 2000
        &&& self.column_position <= 50
    }

    /// A console writer over a blank grid.
    pub fn new(column_position: usize, foreground: Color, background: Color) -> (r: Writer)
        requires
            column_position <= 50,
        ensures
            r.wf(),
            r.column_position == column_position,
            r.color_code.0 == 16 * crate::vga_buffer::spec_color_value(background)
                + crate::vga_buffer::spec_color_value(foreground),
            r.buffer@ =~= Seq::new(2000, |i: int| blank_char(r.color_code)),
    {
        let color_code = ColorCode::new(foreground, background);
        let buffer: Vec<Char> = vec![Char { ascii_character: 32, color_code }; 2000];
        Writer { column_position, color_code, buffer }
    }

    /// Restores the old cursor cell, moves to column `c` (scrolling on a
    /// zero target) and inverts the new cursor cell.
    fn move_cursor(&mut self, column_position: usize)
        requires
            old(self).wf(),
            column_position <= 50,
        ensures
            final(self).wf(),
            final(self).color_code == old(self).color_code,
            (final(self).buffer@, final(self).column_position as int) == spec_move_cursor(
                old(self).buffer@,
                old(self).column_position as int,
                old(self).color_code,
                column_position as int,
            ),
    {
        self.invert_cell();
        if column_position == 0 {
            self.next_line();
        } else {
            self.column_position = column_position;
        }
        self.invert_cell();
    }

    /// Swaps the colours of the cursor cell.
    fn invert_cell(&mut self)
        requires
            old(self).wf(),
        ensures
            final(self).wf(),
            final(self).color_code == old(self).color_code,
            final(self).column_position == old(self).column_position,
            final(self).buffer@ == spec_invert_at(
                old(self).buffer@,
                old(self).column_position as int,
            ),
    {
        let i = 1920 + self.column_position + 1;
        let mut cell = self.buffer[i];
        cell.invert_colors();
        self.buffer[i] = cell;
    }

    /// Scrolls the grid up one row, blanking the bottom row, and homes
    /// the cursor.
    fn next_line(&mut self)
        requires
            old(self).wf(),
        ensures
            final(self).wf(),
            final(self).column_position == 0,
            final(self).color_code == old(self).color_code,
            final(self).buffer@ == spec_scroll(
                old(self).buffer@,
                blank_char(old(self).color_code),
            ),
    {
        let mut i: usize = 0;
        while i < 1920
            invariant
                old(self).wf(),
                self.wf(),
                i <= 1920,
                self.column_position == old(self).column_position,
                self.color_code == old(self).color_code,
                forall|j: int| 0 <= j < i ==> self.buffer@[j] == old(self).buffer@[j + 80],
                forall|j: int| i <= j < 2000 ==> self.buffer@[j] == old(self).buffer@[j],
            decreases 1920 - i,
        {
            let c = self.buffer[i + 80];
            self.buffer[i] = c;
            i = i + 1;
        }
        self.clear_row(BUFFER_HEIGHT - 1);
        self.column_position = 0;
        proof {
            assert(self.buffer@ =~= spec_scroll(old(self).buffer@, blank_char(self.color_code)));
        }
    }

    /// Blanks one row in the writer's current colours.
    fn clear_row(&mut self, row: usize)
        requires
            old(self).wf(),
            row < 25,
        ensures
            final(self).wf(),
            final(self).column_position == old(self).column_position,
            final(self).color_code == old(self).color_code,
            forall|i: int|
                0 <= i < 2000 ==> final(self).buffer@[i] == if row * 80 <= i < row * 80 + 80 {
                    blank_char(old(self).color_code)
                } else {
                    old(self).buffer@[i]
                },
    {
        let blank = Char { ascii_character: 32, color_code: self.color_code };
        let mut col: usize = 0;
        while col < BUFFER_WIDTH
            invariant
                old(self).wf(),
                self.wf(),
                row < 25,
                col <= 80,
                blank == blank_char(old(self).color_code),
                self.column_position == old(self).column_position,
                self.color_code == old(self).color_code,
                forall|i: int|
                    0 <= i < 2000 ==> self.buffer@[i] == if row * 80 <= i < row * 80 + col {
                        blank_char(old(self).color_code)
                    } else {
                        old(self).buffer@[i]
                    },
            decreases 80 - col,
        {
            self.buffer[row * 80 + col] = blank;
            col = col + 1;
        }
    }

    /// Writes one byte at the cursor: a newline or a full input row moves
    /// to a fresh line; otherwise the cursor advances and the byte lands
    /// under it.
    pub fn write_byte(&mut self, byte: u8)
        requires
            old(self).wf(),
        ensures
            final(self).wf(),
            final(self).color_code == old(self).color_code,
            (final(self).buffer@, final(self).column_position as int) == spec_console_write_byte(
                old(self).buffer@,
                old(self).column_position as int,
                old(self).color_code,
                byte,
            ),
    {
        if byte == 10 || self.column_position >= ACTUAL_BUFFER_WIDTH {
            self.move_cursor(0);
            return ;
        }
        self.move_cursor(self.column_position + 1);
        self.set_char(byte);
    }

    /// Places a byte under the cursor in the current colours.
    fn set_char(&mut self, byte: u8)
        requires
            old(self).wf(),
        ensures
            final(self).wf(),
            final(self).color_code == old(self).color_code,
            final(self).column_position == old(self).column_position,
            final(self).buffer@ == old(self).buffer@.update(
                1920 + old(self).column_position as int,
                Char { ascii_character: byte, color_code: old(self).color_code },
            ),
    {
        let color_code = self.color_code;
        let i = 1920 + self.column_position;
        self.buffer[i] = Char { ascii_character: byte, color_code };
    }

    /// Blanks the whole grid in the given colour; cursor and current
    /// colours stay.
    fn clear_screen(&mut self, color: Color)
        requires
            old(self).wf(),
        ensures
            final(self).wf(),
            final(self).color_code == old(self).color_code,
            final(self).column_position == old(self).column_position,
            final(self).buffer@ =~= Seq::new(
                2000,
                |i: int|
                    Char {
                        ascii_character: 32,
                        color_code: ColorCode(
                            (16 * crate::vga_buffer::spec_color_value(color)
                                + crate::vga_buffer::spec_color_value(color)) as u8,
                        ),
                    },
            ),
    {
        let blank = Char { ascii_character: 32, color_code: ColorCode::new(color, color) };
        let mut i: usize = 0;
        while i < 2000
            invariant
                old(self).wf(),
                self.wf(),
                i <= 2000,
                self.column_position == old(self).column_position,
                self.color_code == old(self).color_code,
                forall|j: int| 0 <= j < i ==> self.buffer@[j] == blank,
                forall|j: int| i <= j < 2000 ==> self.buffer@[j] == old(self).buffer@[j],
            decreases 2000 - i,
        {
            self.buffer[i] = blank;
            i = i + 1;
        }
    }

    /// Changes the colour used for subsequent writes.
    fn set_color(&mut self, foreground: Color, background: Color)
        requires
            old(self).wf(),
        ensures
            final(self).wf(),
            final(self).buffer == old(self).buffer,
            final(self).column_position == old(self).column_position,
            final(self).color_code.0 == 16 * crate::vga_buffer::spec_color_value(background)
                + crate::vga_buffer::spec_color_value(foreground),
    {
        self.color_code = ColorCode::new(foreground, background);
    }

    /// Erases the character before the cursor and steps back; at the
    /// start of the line, nothing happens.
    fn backspace(&mut self)
        requires
            old(self).wf(),
        ensures
            final(self).wf(),
            final(self).color_code == old(self).color_code,
            (final(self).buffer@, final(self).column_position as int) == spec_console_backspace(
                old(self).buffer@,
                old(self).column_position as int,
                old(self).color_code,
            ),
    {
        if self.column_position == 0 {
            return ;
        }
        self.set_char(32);
        self.move_cursor(self.column_position - 1);
    }

    /// Steps the cursor back one column; at the start, nothing happens.
    fn cursor_back(&mut self)
        requires
            old(self).wf(),
        ensures
            final(self).wf(),
            final(self).color_code == old(self).color_code,
            (final(self).buffer@, final(self).column_position as int) == (if old(
                self,
            ).column_position == 0 {
                (old(self).buffer@, old(self).column_position as int)
            } else {
                spec_move_cursor(
                    old(self).buffer@,
                    old(self).column_position as int,
                    old(self).color_code,
                    old(self).column_position - 1,
                )
            }),
    {
        if self.column_position == 0 {
            return ;
        }
        self.move_cursor(self.column_position - 1);
    }

    /// Steps the cursor forward one column; at the input edge, nothing
    /// happens.
    fn cursor_front(&mut self)
        requires
            old(self).wf(),
        ensures
            final(self).wf(),
            final(self).color_code == old(self).color_code,
            (final(self).buffer@, final(self).column_position as int) == (if old(
                self,
            ).column_position == ACTUAL_BUFFER_WIDTH {
                (old(self).buffer@, old(self).column_position as int)
            } else {
                spec_move_cursor(
                    old(self).buffer@,
                    old(self).column_position as int,
                    old(self).color_code,
                    old(self).column_position + 1,
                )
            }),
    {
        if self.column_position == ACTUAL_BUFFER_WIDTH {
            return ;
        }
        self.move_cursor(self.column_position + 1);
    }

    /// Prints a string byte by byte.
    pub fn write_string(&mut self, s: &str)
        requires
            old(self).wf(),
        ensures
            final(self).wf(),
            final(self).color_code == old(self).color_code,
            (final(self).buffer@, final(self).column_position as int) == spec_console_write_bytes(
                old(self).buffer@,
                old(self).column_position as int,
                old(self).color_code,
                s.spec_bytes(),
            ),
    {
        let bytes = s.as_bytes();
        let mut i: usize = 0;
        while i < bytes.len()
            invariant
                old(self).wf(),
                self.wf(),
                i <= bytes@.len(),
                bytes@ == s.spec_bytes(),
                self.color_code == old(self).color_code,
                (self.buffer@, self.column_position as int) == spec_console_write_bytes(
                    old(self).buffer@,
                    old(self).column_position as int,
                    old(self).color_code,
                    bytes@.take(i as int),
                ),
            decreases bytes@.len() - i,
        {
            let b = bytes[i];
            proof {
                assert(bytes@.take(i + 1).drop_last() =~= bytes@.take(i as int));
                assert(bytes@.take(i + 1).last() == b);
            }
            self.write_byte(b);
            i = i + 1;
        }
        proof {
            assert(bytes@.take(bytes@.len() as int) =~= bytes@);
        }
    }

    /// Performs one console request.
    pub fn handle_command(&mut self, command: CommandToWriter)
        requires
            old(self).wf(),
        ensures
            final(self).wf(),
            (final(self).buffer@, final(self).column_position as int, final(self).color_code)
                == spec_handle_command(
                old(self).buffer@,
                old(self).column_position as int,
                old(self).color_code,
                command@,
            ),
    {
        match command {
            CommandToWriter::Backspace => self.backspace(),
            CommandToWriter::ClearScreen(color) => self.clear_screen(color),
            CommandToWriter::CursorBack => self.cursor_back(),
            CommandToWriter::CursorFront => self.cursor_front(),
            CommandToWriter::Print(s) => self.write_string(s.as_str()),
            CommandToWriter::SetColor(foreground, background) => self.set_color(
                foreground,
                background,
            ),
        }
    }
}

/// Grid and column after one byte written at the console.
pub open spec fn spec_console_write_byte(g: Seq<Char>, col: int, cc: ColorCode, byte: u8) -> (
    Seq<Char>,
    int,
) {
    if byte == 10 || col >= 50 {
        spec_move_cursor(g, col, cc, 0)
    } else {
        let moved = spec_move_cursor(g, col, cc, col + 1);
        (
            moved.0.update(1920 + moved.1, Char { ascii_character: byte, color_code: cc }),
            moved.1,
        )
    }
}

/// Grid and column after a byte string written at the console.
pub open spec fn spec_console_write_bytes(g: Seq<Char>, col: int, cc: ColorCode, bytes: Seq<u8>) -> (
    Seq<Char>,
    int,
)
    decreases bytes.len(),
{
    if bytes.len() == 0 {
        (g, col)
    } else {
        let st = spec_console_write_bytes(g, col, cc, bytes.drop_last());
        spec_console_write_byte(st.0, st.1, cc, bytes.last())
    }
}

/// Grid and column after a backspace.
pub open spec fn spec_console_backspace(g: Seq<Char>, col: int, cc: ColorCode) -> (Seq<Char>, int) {
    if col == 0 {
        (g, col)
    } else {
        let erased = g.update(1920 + col, Char { ascii_character: 32, color_code: cc });
        spec_move_cursor(erased, col, cc, col - 1)
    }
}

/// Writer state (grid, column, colours) after one console request.
pub open spec fn spec_handle_command(
    g: Seq<Char>,
    col: int,
    cc: ColorCode,
    command: CommandView,
) -> (Seq<Char>, int, ColorCode) {
    match command {
        CommandView::Backspace => {
            let st = spec_console_backspace(g, col, cc);
            (st.0, st.1, cc)
        },
        CommandView::ClearScreen(color) => (
            Seq::new(
                2000,
                |i: int|
                    Char {
                        ascii_character: 32,
                        color_code: ColorCode(
                            (16 * crate::vga_buffer::spec_color_value(color)
                                + crate::vga_buffer::spec_color_value(color)) as u8,
                        ),
                    },
            ),
            col,
            cc,
        ),
        CommandView::CursorBack => {
            if col == 0 {
                (g, col, cc)
            } else {
                let st = spec_move_cursor(g, col, cc, col - 1);
                (st.0, st.1, cc)
            }
        },
        CommandView::CursorFront => {
            if col == 50 {
                (g, col, cc)
            } else {
                let st = spec_move_cursor(g, col, cc, col + 1);
                (st.0, st.1, cc)
            }
        },
        CommandView::Print(text) => {
            let st = spec_console_write_bytes(g, col, cc, vstd::utf8::encode_utf8(text));
            (st.0, st.1, cc)
        },
        CommandView::SetColor(foreground, background) => (
            g,
            col,
            ColorCode(
                (16 * crate::vga_buffer::spec_color_value(background)
                    + crate::vga_buffer::spec_color_value(foreground)) as u8,
            ),
        ),
    }
}

} // verus!
