//! The exception and device handlers' decisions. Each fault handler
//! captures the trap frame into a technical record and produces the fatal
//! report; each device handler acknowledges its line. The hardware side
//! of each — the interrupt calling convention, the scancode port read,
//! the port writes of the acknowledgement — lives in the embedding
//! program, which hands the plain values in and carries the results out.

use vstd::prelude::*;
use crate::console::CommandToWriter;
use crate::interrupts::InterruptIndex;
use crate::panic_report::{
    knl_panic_str, spec_panic_commands, spec_title, spec_title_index, views_of, PanicTechnicalInfo,
    SourceLocation,
};
use crate::pic::ChainedPics;

verus! {

/// The machine state the processor pushes when an interrupt fires.
pub struct InterruptStackFrame {
    pub instruction_pointer: u64,
    pub code_segment: u64,
    pub cpu_flags: u64,
    pub stack_pointer: u64,
    pub stack_segment: u64,
}

/// The technical record captured from a trap frame: the five pushed
/// registers, with no faulting address and no error bits.
pub open spec fn spec_captured(frame: InterruptStackFrame) -> PanicTechnicalInfo {
    PanicTechnicalInfo {
        instruction_pointer: frame.instruction_pointer,
        code_segment: frame.code_segment,
        cpu_flags: frame.cpu_flags,
        stack_pointer: frame.stack_pointer,
        stack_segment: frame.stack_segment,
        memory_address: 0,
        code: 0,
    }
}

/// Captures a trap frame into a technical record.
pub fn capture_stack_frame(frame: &InterruptStackFrame) -> (r: PanicTechnicalInfo)
    ensures
        r == spec_captured(*frame),
{
    PanicTechnicalInfo {
        instruction_pointer: frame.instruction_pointer,
        code_segment: frame.code_segment,
        cpu_flags: frame.cpu_flags,
        stack_pointer: frame.stack_pointer,
        stack_segment: frame.stack_segment,
        ..Default::default()
    }
}

/// The report a fault handler produces for a captured record and message.
pub open spec fn spec_fault_report(
    location: SourceLocation,
    message: Seq<char>,
    info: PanicTechnicalInfo,
) -> Seq<crate::console::CommandView> {
    spec_panic_commands(
        spec_title(spec_title_index(info)),
        location.file@,
        location.line,
        location.column,
        message,
        info,
    )
}

/// A double fault is fatal: capture the frame — on the dedicated stack,
/// since the interrupted one may be ruined — and report.
pub fn double_fault_handler(
    stack_frame: &InterruptStackFrame,
    _error_code: u64,
    location: &SourceLocation,
) -> (r: Vec<CommandToWriter>)
    ensures
        views_of(r@) =~= spec_fault_report(
            *location,
            "DOUBLE FAULT"@,
            spec_captured(*stack_frame),
        ),
{
    let panic_info = capture_stack_frame(stack_frame);
    knl_panic_str(location, "DOUBLE FAULT", &panic_info)
}

/// An arithmetic overflow exception is fatal: capture and report.
pub fn overflow_handler(stack_frame: &InterruptStackFrame, location: &SourceLocation) -> (r: Vec<
    CommandToWriter,
>)
    ensures
        views_of(r@) =~= spec_fault_report(
            *location,
            "ARITH OVERFLOW EXCEPTION"@,
            spec_captured(*stack_frame),
        ),
{
    let panic_info = capture_stack_frame(stack_frame);
    knl_panic_str(location, "ARITH OVERFLOW EXCEPTION", &panic_info)
}

/// A division exception is fatal: capture and report.
pub fn division_handler(stack_frame: &InterruptStackFrame, location: &SourceLocation) -> (r: Vec<
    CommandToWriter,
>)
    ensures
        views_of(r@) =~= spec_fault_report(
            *location,
            "DIVISION EXCEPTION"@,
            spec_captured(*stack_frame),
        ),
{
    let panic_info = capture_stack_frame(stack_frame);
    knl_panic_str(location, "DIVISION EXCEPTION", &panic_info)
}

/// An invalid opcode is fatal: capture and report.
pub fn invalid_opcode_handler(stack_frame: &InterruptStackFrame, location: &SourceLocation) -> (r:
    Vec<CommandToWriter>)
    ensures
        views_of(r@) =~= spec_fault_report(
            *location,
            "INVALID OPCODE"@,
            spec_captured(*stack_frame),
        ),
{
    let panic_info = capture_stack_frame(stack_frame);
    knl_panic_str(location, "INVALID OPCODE", &panic_info)
}

/// A page fault is fatal here: capture the frame together with the
/// faulting address and the raw error bits, and report.
pub fn page_fault_handler(
    stack_frame: &InterruptStackFrame,
    error_code: u64,
    faulting_address: u64,
    location: &SourceLocation,
) -> (r: Vec<CommandToWriter>)
    ensures
        views_of(r@) =~= spec_fault_report(
            *location,
            "PAGE FAULT"@,
            PanicTechnicalInfo {
                memory_address: faulting_address,
                code: error_code,
                ..spec_captured(*stack_frame)
            },
        ),
{
    let panic_info = PanicTechnicalInfo {
        instruction_pointer: stack_frame.instruction_pointer,
        code_segment: stack_frame.code_segment,
        cpu_flags: stack_frame.cpu_flags,
        stack_pointer: stack_frame.stack_pointer,
        stack_segment: stack_frame.stack_segment,
        memory_address: faulting_address,
        code: error_code,
    };
    knl_panic_str(location, "PAGE FAULT", &panic_info)
}

/// Services a timer tick: the only obligation is the explicit
/// end-of-interrupt, without which no further timer interrupts arrive.
pub fn timer_interrupt_handler(pics: &mut ChainedPics)
    requires
        old(pics).spec_handles(32),
    ensures
        *final(pics) == old(pics).spec_eoi(32),
        !final(pics).spec_in_service(old(pics).spec_line(32)),
{
    pics.notify_end_of_interrupt(InterruptIndex::Timer.as_u8());
}

/// Services a keypress: the scancode, read from the data port by the
/// embedding program, is handed onward elsewhere; here the line is
/// acknowledged.
pub fn keyboard_interrupt_handler(pics: &mut ChainedPics, _scancode: u8)
    requires
        old(pics).spec_handles(33),
    ensures
        *final(pics) == old(pics).spec_eoi(33),
        !final(pics).spec_in_service(old(pics).spec_line(33)),
{
    pics.notify_end_of_interrupt(InterruptIndex::Keyboard.as_u8());
}

} // verus!
