//! Fault capture and the panic report: the flat record of machine state
//! captured in a handler, the deterministic title drawn from it, and the
//! full-screen report rendered as a sequence of display commands. The
//! embedding program feeds the commands to the display and then parks the
//! processor; nothing here returns control to the faulting code.

use vstd::prelude::*;
use vstd::string::{StringExecFns, StringSliceAdditionalSpecFns};
use vstd::utf8::is_ascii_chars;
use crate::console::{CommandToWriter, CommandView};
use crate::vga_buffer::Color;

verus! {

/// Where a panic was raised.
pub struct SourceLocation {
    pub file: String,
    pub line: u32,
    pub column: u32,
}

/// Technical machine state captured at a fault: the trap-frame registers,
/// the faulting address, and the raw page-fault error bits.
pub struct PanicTechnicalInfo {
    pub instruction_pointer: u64,
    pub code_segment: u64,
    pub cpu_flags: u64,
    pub stack_pointer: u64,
    pub stack_segment: u64,
    pub memory_address: u64,
    pub code: u64,
}

impl Default for PanicTechnicalInfo {
    /// A record with every field clear.
    fn default() -> (r: Self)
        ensures
            r.instruction_pointer == 0,
            r.code_segment == 0,
            r.cpu_flags == 0,
            r.stack_pointer == 0,
            r.stack_segment == 0,
            r.memory_address == 0,
            r.code == 0,
    {
        PanicTechnicalInfo {
            instruction_pointer: 0,
            code_segment: 0,
            cpu_flags: 0,
            stack_pointer: 0,
            stack_segment: 0,
            memory_address: 0,
            code: 0,
        }
    }
}

/// 64-bit addition that wraps around.
pub open spec fn spec_wrapping_add64(a: u64, b: u64) -> u64 {
    if a + b > u64::MAX {
        (a + b - 0x1_0000_0000_0000_0000) as u64
    } else {
        (a + b) as u64
    }
}

/// The title seed: the captured register values summed with wraparound.
pub open spec fn spec_title_sum(info: PanicTechnicalInfo) -> u64 {
    spec_wrapping_add64(
        spec_wrapping_add64(
            spec_wrapping_add64(
                spec_wrapping_add64(info.stack_segment, info.stack_pointer),
                info.code_segment,
            ),
            info.cpu_flags,
        ),
        info.instruction_pointer,
    )
}

/// Which of the twelve titles the record selects.
pub open spec fn spec_title_index(info: PanicTechnicalInfo) -> int {
    spec_title_sum(info) as int % 12
}

/// The twelve report titles.
pub open spec fn spec_title(i: int) -> Seq<char> {
    if i == 0 {
        "Pop goes the kernel!"@
    } else if i == 1 {
        "Popcorn Pandemonium!"@
    } else if i == 2 {
        "Kernel Kablooey!"@
    } else if i == 3 {
        "Kernel Kablooey 2: Electric Boogaloo!"@
    } else if i == 4 {
        "Kernel Kablooey 3: The Reckoning!"@
    } else if i == 5 {
        "MEDIC!"@
    } else if i == 6 {
        "Oh, fiddlesticks, what now?"@
    } else if i == 7 {
        "Doc, come on, man!"@
    } else if i == 8 {
        "Don't Panic!"@
    } else if i == 9 {
        "Kernel Panic!"@
    } else if i == 10 {
        "Kernel Panic! (Not Clickbait)"@
    } else {
        "Kernel Panic! (Gone Wrong)"@
    }
}

/// Picks the report title: the wrapped sum of the captured registers,
/// taken modulo twelve, indexes a fixed list. The same record always
/// yields the same title.
pub fn knl_panic_get_title(stack_frame: &PanicTechnicalInfo) -> (r: &'static str)
    ensures
        r@ == spec_title(spec_title_index(*stack_frame)),
        0 < r@.len() <= 40,
        is_ascii_chars(r@),
{
    let x: u64 = stack_frame
        .stack_segment
        .wrapping_add(stack_frame.stack_pointer)
        .wrapping_add(stack_frame.code_segment)
        .wrapping_add(stack_frame.cpu_flags)
        .wrapping_add(stack_frame.instruction_pointer);
    let idx = x % 12;
    proof {
        assert(x == spec_title_sum(*stack_frame));
    }
    if idx == 0 {
        proof {
            reveal_strlit("Pop goes the kernel!");
        }
        "Pop goes the kernel!"
    } else if idx == 1 {
        proof {
            reveal_strlit("Popcorn Pandemonium!");
        }
        "Popcorn Pandemonium!"
    } else if idx == 2 {
        proof {
            reveal_strlit("Kernel Kablooey!");
        }
        "Kernel Kablooey!"
    } else if idx == 3 {
        proof {
            reveal_strlit("Kernel Kablooey 2: Electric Boogaloo!");
        }
        "Kernel Kablooey 2: Electric Boogaloo!"
    } else if idx == 4 {
        proof {
            reveal_strlit("Kernel Kablooey 3: The Reckoning!");
        }
        "Kernel Kablooey 3: The Reckoning!"
    } else if idx == 5 {
        proof {
            reveal_strlit("MEDIC!");
        }
        "MEDIC!"
    } else if idx == 6 {
        proof {
            reveal_strlit("Oh, fiddlesticks, what now?");
        }
        "Oh, fiddlesticks, what now?"
    } else if idx == 7 {
        proof {
            reveal_strlit("Doc, come on, man!");
        }
        "Doc, come on, man!"
    } else if idx == 8 {
        proof {
            reveal_strlit("Don't Panic!");
        }
        "Don't Panic!"
    } else if idx == 9 {
        proof {
            reveal_strlit("Kernel Panic!");
        }
        "Kernel Panic!"
    } else if idx == 10 {
        proof {
            reveal_strlit("Kernel Panic! (Not Clickbait)");
        }
        "Kernel Panic! (Not Clickbait)"
    } else {
        proof {
            reveal_strlit("Kernel Panic! (Gone Wrong)");
        }
        "Kernel Panic! (Gone Wrong)"
    }
}

/// The decimal digit character of `d`.
pub open spec fn spec_digit_char(d: int) -> char {
    if d == 0 {
        '0'
    } else if d == 1 {
        '1'
    } else if d == 2 {
        '2'
    } else if d == 3 {
        '3'
    } else if d == 4 {
        '4'
    } else if d == 5 {
        '5'
    } else if d == 6 {
        '6'
    } else if d == 7 {
        '7'
    } else if d == 8 {
        '8'
    } else {
        '9'
    }
}

/// The decimal digits of `n`, most significant first.
pub open spec fn spec_dec_digits(n: int) -> Seq<char>
    decreases n,
{
    if n < 10 {
        seq![spec_digit_char(n)]
    } else {
        spec_dec_digits(n / 10).push(spec_digit_char(n % 10))
    }
}

/// One decimal digit as a string slice.
fn digit_str(d: u64) -> (r: &'static str)
    requires
        d < 10,
    ensures
        r@ =~= seq![spec_digit_char(d as int)],
{
    if d == 0 {
        proof {
            reveal_strlit("0");
        }
        "0"
    } else if d == 1 {
        proof {
            reveal_strlit("1");
        }
        "1"
    } else if d == 2 {
        proof {
            reveal_strlit("2");
        }
        "2"
    } else if d == 3 {
        proof {
            reveal_strlit("3");
        }
        "3"
    } else if d == 4 {
        proof {
            reveal_strlit("4");
        }
        "4"
    } else if d == 5 {
        proof {
            reveal_strlit("5");
        }
        "5"
    } else if d == 6 {
        proof {
            reveal_strlit("6");
        }
        "6"
    } else if d == 7 {
        proof {
            reveal_strlit("7");
        }
        "7"
    } else if d == 8 {
        proof {
            reveal_strlit("8");
        }
        "8"
    } else {
        proof {
            reveal_strlit("9");
        }
        "9"
    }
}

/// Renders `n` in decimal.
pub fn u64_to_dec(n: u64) -> (r: String)
    ensures
        r@ == spec_dec_digits(n as int),
    decreases n,
{
    if n < 10 {
        let r = String::from_str(digit_str(n));
        proof {
            assert(r@ =~= spec_dec_digits(n as int));
        }
        r
    } else {
        let mut s = u64_to_dec(n / 10);
        s.append(digit_str(n % 10));
        proof {
            assert(s@ =~= spec_dec_digits(n as int / 10).push(spec_digit_char(n as int % 10)));
        }
        s
    }
}

/// How many newline bytes a string holds.
pub open spec fn spec_newline_count(bytes: Seq<u8>) -> int
    decreases bytes.len(),
{
    if bytes.len() == 0 {
        0int
    } else {
        spec_newline_count(bytes.drop_last()) + if bytes.last() == 10 {
            1int
        } else {
            0int
        }
    }
}

/// Counts the newlines of a string.
pub fn get_newline_count(string: &str) -> (r: usize)
    requires
        string.spec_bytes().len() <= usize::MAX,
    ensures
        r == spec_newline_count(string.spec_bytes()),
{
    let bytes = string.as_bytes();
    let mut count: usize = 0;
    let mut i: usize = 0;
    while i < bytes.len()
        invariant
            i <= bytes@.len(),
            bytes@ == string.spec_bytes(),
            count == spec_newline_count(bytes@.take(i as int)),
            count <= i,
        decreases bytes@.len() - i,
    {
        proof {
            assert(bytes@.take(i + 1).drop_last() =~= bytes@.take(i as int));
        }
        if bytes[i] == 10 {
            count = count + 1;
        }
        i = i + 1;
    }
    proof {
        assert(bytes@.take(bytes@.len() as int) =~= bytes@);
    }
    count
}

/// The views of a command list.
pub open spec fn views_of(s: Seq<CommandToWriter>) -> Seq<CommandView> {
    s.map_values(|c: CommandToWriter| c@)
}

/// The technical half of the report: each captured field on a line of its
/// own, after the panic's location and message.
pub open spec fn spec_report_body(
    file: Seq<char>,
    line: u32,
    column: u32,
    message: Seq<char>,
    info: PanicTechnicalInfo,
) -> Seq<CommandView> {
    seq![
        CommandView::Print("Location: "@),
        CommandView::Print(file),
        CommandView::Print(":"@),
        CommandView::Print(spec_dec_digits(line as int)),
        CommandView::Print(":"@),
        CommandView::Print(spec_dec_digits(column as int)),
        CommandView::Print("\n"@),
        CommandView::Print("Message: "@),
        CommandView::Print(message),
        CommandView::Print("\n"@),
        CommandView::Print("Instruction pointer: "@),
        CommandView::Print(spec_dec_digits(info.instruction_pointer as int)),
        CommandView::Print("\n"@),
        CommandView::Print("Code segment: "@),
        CommandView::Print(spec_dec_digits(info.code_segment as int)),
        CommandView::Print("\n"@),
        CommandView::Print("CPU flags: "@),
        CommandView::Print(spec_dec_digits(info.cpu_flags as int)),
        CommandView::Print("\n"@),
        CommandView::Print("Stack pointer: "@),
        CommandView::Print(spec_dec_digits(info.stack_pointer as int)),
        CommandView::Print("\n"@),
        CommandView::Print("Stack segment: "@),
        CommandView::Print(spec_dec_digits(info.stack_segment as int)),
        CommandView::Print("\n"@),
        CommandView::Print("Memory address: "@),
        CommandView::Print(spec_dec_digits(info.memory_address as int)),
        CommandView::Print("\n"@),
        CommandView::Print("Error code: "@),
        CommandView::Print(spec_dec_digits(info.code as int)),
        CommandView::Print("\n"@),
    ]
}

/// The whole report: clear the screen red, centre the title in yellow on
/// red, then the technical record in white on red.
pub open spec fn spec_panic_commands(
    title: Seq<char>,
    file: Seq<char>,
    line: u32,
    column: u32,
    message: Seq<char>,
    info: PanicTechnicalInfo,
) -> Seq<CommandView> {
    seq![
        CommandView::ClearScreen(Color::Red),
        CommandView::SetColor(Color::Red, Color::Red),
    ] + Seq::new((40 - title.len() / 2) as nat, |i: int| CommandView::Print(" "@)) + seq![
        CommandView::SetColor(Color::Yellow, Color::Red),
        CommandView::Print(title + "\n"@),
        CommandView::SetColor(Color::White, Color::Red),
    ] + spec_report_body(file, line, column, message, info)
}

/// Appends one display command.
fn push_cmd(out: &mut Vec<CommandToWriter>, c: CommandToWriter)
    ensures
        views_of(final(out)@) =~= views_of(old(out)@).push(c@),
{
    out.push(c);
    proof {
        assert(views_of(out@) =~= views_of(old(out)@).push(c@));
    }
}

/// Appends a printed string slice.
fn push_print(out: &mut Vec<CommandToWriter>, s: &str)
    ensures
        views_of(final(out)@) =~= views_of(old(out)@).push(CommandView::Print(s@)),
{
    push_cmd(out, CommandToWriter::Print(String::from_str(s)));
}

/// Appends a printed owned string.
fn push_print_string(out: &mut Vec<CommandToWriter>, s: String)
    ensures
        views_of(final(out)@) =~= views_of(old(out)@).push(CommandView::Print(s@)),
{
    push_cmd(out, CommandToWriter::Print(s));
}

/// Appends one labelled decimal field on a line of its own.
fn push_field(out: &mut Vec<CommandToWriter>, label: &str, value: String)
    ensures
        views_of(final(out)@) =~= views_of(old(out)@) + seq![
            CommandView::Print(label@),
            CommandView::Print(value@),
            CommandView::Print("\n"@),
        ],
{
    push_print(out, label);
    push_print_string(out, value);
    push_print(out, "\n");
}

/// Appends the technical half of the report.
fn push_report_body(
    out: &mut Vec<CommandToWriter>,
    location: &SourceLocation,
    message: &str,
    stack_frame: &PanicTechnicalInfo,
)
    ensures
        views_of(final(out)@) =~= views_of(old(out)@) + spec_report_body(
            location.file@,
            location.line,
            location.column,
            message@,
            *stack_frame,
        ),
{
    let ghost v0 = views_of(out@);
    push_print(out, "Location: ");
    push_print(out, location.file.as_str());
    push_print(out, ":");
    push_print_string(out, u64_to_dec(location.line as u64));
    push_print(out, ":");
    push_print_string(out, u64_to_dec(location.column as u64));
    push_print(out, "\n");
    push_print(out, "Message: ");
    push_print(out, message);
    push_print(out, "\n");
    let ghost v1 = views_of(out@);
    proof {
        assert(v1 =~= v0 + seq![
            CommandView::Print("Location: "@),
            CommandView::Print(location.file@),
            CommandView::Print(":"@),
            CommandView::Print(spec_dec_digits(location.line as int)),
            CommandView::Print(":"@),
            CommandView::Print(spec_dec_digits(location.column as int)),
            CommandView::Print("\n"@),
            CommandView::Print("Message: "@),
            CommandView::Print(message@),
            CommandView::Print("\n"@),
        ]);
    }
    push_field(out, "Instruction pointer: ", u64_to_dec(stack_frame.instruction_pointer));
    push_field(out, "Code segment: ", u64_to_dec(stack_frame.code_segment));
    push_field(out, "CPU flags: ", u64_to_dec(stack_frame.cpu_flags));
    push_field(out, "Stack pointer: ", u64_to_dec(stack_frame.stack_pointer));
    push_field(out, "Stack segment: ", u64_to_dec(stack_frame.stack_segment));
    push_field(out, "Memory address: ", u64_to_dec(stack_frame.memory_address));
    push_field(out, "Error code: ", u64_to_dec(stack_frame.code));
    proof {
        assert(views_of(out@) =~= v0 + spec_report_body(
            location.file@,
            location.line,
            location.column,
            message@,
            *stack_frame,
        ));
    }
}

/// Builds the full-screen report for a given title: the display commands
/// of `spec_panic_commands`, in order.
#[verifier::rlimit(80)]
pub fn knl_panic_print(
    title: &str,
    location: &SourceLocation,
    message: &str,
    stack_frame: &PanicTechnicalInfo,
) -> (r: Vec<CommandToWriter>)
    requires
        title@.len() <= 80,
        is_ascii_chars(title@),
    ensures
        views_of(r@) =~= spec_panic_commands(
            title@,
            location.file@,
            location.line,
            location.column,
            message@,
            *stack_frame,
        ),
{
    let mut out: Vec<CommandToWriter> = Vec::new();
    push_cmd(&mut out, CommandToWriter::ClearScreen(Color::Red));
    push_cmd(&mut out, CommandToWriter::SetColor(Color::Red, Color::Red));
    proof {
        vstd::utf8::is_ascii_chars_encode_utf8(title@);
    }
    let title_padding: usize = (80 / 2) - (title.len() / 2);
    let ghost head = seq![
        CommandView::ClearScreen(Color::Red),
        CommandView::SetColor(Color::Red, Color::Red),
    ];
    let mut i: usize = 0;
    while i < title_padding
        invariant
            i <= title_padding,
            title_padding == 40 - title@.len() / 2,
            head == seq![
                CommandView::ClearScreen(Color::Red),
                CommandView::SetColor(Color::Red, Color::Red),
            ],
            views_of(out@) =~= head + Seq::new(i as nat, |j: int| CommandView::Print(" "@)),
        decreases title_padding - i,
    {
        push_print(&mut out, " ");
        proof {
            assert(head + Seq::new((i + 1) as nat, |j: int| CommandView::Print(" "@)) =~= (head
                + Seq::new(i as nat, |j: int| CommandView::Print(" "@))).push(
                CommandView::Print(" "@),
            ));
        }
        i = i + 1;
    }
    push_cmd(&mut out, CommandToWriter::SetColor(Color::Yellow, Color::Red));
    push_print_string(&mut out, String::from_str(title).concat("\n"));
    push_cmd(&mut out, CommandToWriter::SetColor(Color::White, Color::Red));
    let ghost v1 = views_of(out@);
    proof {
        assert(v1 =~= head + Seq::new(title_padding as nat, |j: int| CommandView::Print(" "@))
            + seq![
            CommandView::SetColor(Color::Yellow, Color::Red),
            CommandView::Print(title@ + "\n"@),
            CommandView::SetColor(Color::White, Color::Red),
        ]);
    }
    push_report_body(&mut out, location, message, stack_frame);
    proof {
        assert(views_of(out@) =~= spec_panic_commands(
            title@,
            location.file@,
            location.line,
            location.column,
            message@,
            *stack_frame,
        ));
    }
    out
}

/// Produces the fatal report for a captured fault: picks the
/// deterministic title (falling back if it were ever empty) and renders
/// the full screen. The embedding program displays the commands and halts
/// the processor for good.
pub fn knl_panic(
    location: &SourceLocation,
    message: &str,
    stack_frame: &PanicTechnicalInfo,
) -> (r: Vec<CommandToWriter>)
    ensures
        views_of(r@) =~= spec_panic_commands(
            spec_title(spec_title_index(*stack_frame)),
            location.file@,
            location.line,
            location.column,
            message@,
            *stack_frame,
        ),
{
    let title = knl_panic_get_title(stack_frame);
    if title.is_empty() {
        proof {
            reveal_strlit("Kernel Panic!");
        }
        knl_panic_print("Kernel Panic!", location, message, stack_frame)
    } else {
        knl_panic_print(title, location, message, stack_frame)
    }
}

/// The string-message overload of `knl_panic`.
pub fn knl_panic_str(
    location: &SourceLocation,
    message: &str,
    stack_frame: &PanicTechnicalInfo,
) -> (r: Vec<CommandToWriter>)
    ensures
        views_of(r@) =~= spec_panic_commands(
            spec_title(spec_title_index(*stack_frame)),
            location.file@,
            location.line,
            location.column,
            message@,
            *stack_frame,
        ),
{
    knl_panic(location, message, stack_frame)
}

} // verus!
