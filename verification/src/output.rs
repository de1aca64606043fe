//! Coloured messages for the console: a piece of text with the colours
//! it is printed in, turned into the command pair the console consumes.

use vstd::prelude::*;
use crate::console::{CommandToWriter, CommandView};
use crate::vga_buffer::Color;

verus! {

/// A string to print in a particular colour pair.
pub struct MessageToVga {
    pub foreground: Color,
    pub background: Color,
    pub string: String,
}

impl MessageToVga {
    /// A message in the given colours.
    pub fn new(foreground: Color, background: Color, string: String) -> (r: MessageToVga)
        ensures
            r.foreground == foreground,
            r.background == background,
            r.string@ == string@,
    {
        MessageToVga { foreground, background, string }
    }

    /// The console commands that print this message: set its colours,
    /// then print its text.
    pub fn to_commands(self) -> (r: Vec<CommandToWriter>)
        ensures
            r@.len() == 2,
            r@[0]@ == CommandView::SetColor(self.foreground, self.background),
            r@[1]@ == CommandView::Print(self.string@),
    {
        let mut out: Vec<CommandToWriter> = Vec::new();
        out.push(CommandToWriter::SetColor(self.foreground, self.background));
        out.push(CommandToWriter::Print(self.string));
        out
    }
}

} // verus!
