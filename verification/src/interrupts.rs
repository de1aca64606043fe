//! The interrupt dispatch table: 256 vectors, each either absent or
//! carrying a handler and an optional forced stack switch through the
//! interrupt stack table. The double-fault vector must switch stacks, or
//! a fault on a corrupted stack escalates past recovery. The table is
//! populated once, then loaded; a loaded table is never changed.

use vstd::prelude::*;
use crate::gdt::{TaskStateSegment, DOUBLE_FAULT_IST_INDEX};

verus! {

/// Vector base of the primary interrupt controller.
pub const PIC_1_OFFSET: u8 = 32;

/// Vector base of the secondary interrupt controller.
pub const PIC_2_OFFSET: u8 = PIC_1_OFFSET + 8;

/// Vector of the divide-error exception.
pub const DIVIDE_ERROR_VECTOR: u8 = 0;

/// Vector of the overflow exception.
pub const OVERFLOW_VECTOR: u8 = 4;

/// Vector of the invalid-opcode exception.
pub const INVALID_OPCODE_VECTOR: u8 = 6;

/// Vector of the double fault.
pub const DOUBLE_FAULT_VECTOR: u8 = 8;

/// Vector of the page fault.
pub const PAGE_FAULT_VECTOR: u8 = 14;

/// The device interrupts the kernel services.
#[derive(Clone, Copy, PartialEq, Eq, Structural, Debug)]
pub enum InterruptIndex {
    Timer,
    Keyboard,
}

impl InterruptIndex {
    /// The vector this device interrupt arrives on.
    pub fn as_u8(self) -> (r: u8)
        ensures
            r == spec_interrupt_vector(self),
    {
        match self {
            InterruptIndex::Timer => PIC_1_OFFSET,
            InterruptIndex::Keyboard => PIC_1_OFFSET + 1,
        }
    }

    /// The vector as a table index.
    pub fn as_usize(self) -> (r: usize)
        ensures
            r == spec_interrupt_vector(self),
    {
        let v: u8 = self.as_u8();
        v as usize
    }
}

/// The vector of a device interrupt.
pub open spec fn spec_interrupt_vector(i: InterruptIndex) -> u8 {
    match i {
        InterruptIndex::Timer => 32,
        InterruptIndex::Keyboard => 33,
    }
}

/// The handlers the kernel installs.
#[derive(Clone, Copy, PartialEq, Eq, Structural, Debug)]
pub enum HandlerId {
    DivideError,
    Overflow,
    InvalidOpcode,
    DoubleFault,
    PageFault,
    Timer,
    Keyboard,
}

/// One dispatch-table entry.
#[derive(Clone, Copy, PartialEq, Eq, Structural, Debug)]
pub struct IdtEntry {
    /// The installed handler; an absent entry makes its vector fatal.
    pub handler: Option<HandlerId>,
    /// Whether dispatch forces a switch to an interrupt-stack-table slot.
    pub stack_switch: bool,
    /// The slot used when a switch is forced.
    pub ist_index: u16,
}

/// An absent entry.
pub open spec fn absent_idt_entry() -> IdtEntry {
    IdtEntry { handler: None, stack_switch: false, ist_index: 0 }
}

/// The interrupt dispatch table.
pub struct InterruptDescriptorTable {
    pub entries: Vec<IdtEntry>,
    pub loaded: bool,
}

impl InterruptDescriptorTable {
    /// 256 entries, and no change after loading.
    pub open spec fn wf(&self) -> bool {
        self.entries@.len() == 256
    }

    /// The standard fault-and-device population: every exception handler
    /// in place, and the double fault forced onto the dedicated stack
    /// slot.
    pub open spec fn spec_populated(&self) -> bool {
        &&& self.entries@[DIVIDE_ERROR_VECTOR as int] == (IdtEntry {
            handler: Some(HandlerId::DivideError),
            stack_switch: false,
            ist_index: 0,
        })
        &&& self.entries@[OVERFLOW_VECTOR as int] == (IdtEntry {
            handler: Some(HandlerId::Overflow),
            stack_switch: false,
            ist_index: 0,
        })
        &&& self.entries@[INVALID_OPCODE_VECTOR as int] == (IdtEntry {
            handler: Some(HandlerId::InvalidOpcode),
            stack_switch: false,
            ist_index: 0,
        })
        &&& self.entries@[DOUBLE_FAULT_VECTOR as int] == (IdtEntry {
            handler: Some(HandlerId::DoubleFault),
            stack_switch: true,
            ist_index: DOUBLE_FAULT_IST_INDEX,
        })
        &&& self.entries@[PAGE_FAULT_VECTOR as int] == (IdtEntry {
            handler: Some(HandlerId::PageFault),
            stack_switch: false,
            ist_index: 0,
        })
        &&& self.entries@[32] == (IdtEntry {
            handler: Some(HandlerId::Timer),
            stack_switch: false,
            ist_index: 0,
        })
        &&& self.entries@[33] == (IdtEntry {
            handler: Some(HandlerId::Keyboard),
            stack_switch: false,
            ist_index: 0,
        })
    }

    /// An empty, unloaded table.
    pub fn new() -> (r: InterruptDescriptorTable)
        ensures
            r.wf(),
            !r.loaded,
            forall|v: int| 0 <= v < 256 ==> r.entries@[v] == absent_idt_entry(),
    {
        let entries: Vec<IdtEntry> = vec![IdtEntry { handler: None, stack_switch: false, ist_index: 0 }; 256];
        InterruptDescriptorTable { entries, loaded: false }
    }

    /// Installs a handler for a vector, optionally forcing a stack
    /// switch. Only an unloaded table can be changed.
    pub fn register(&mut self, vector: u8, handler: HandlerId, stack_switch: bool, ist_index: u16)
        requires
            old(self).wf(),
            !old(self).loaded,
        ensures
            final(self).wf(),
            !final(self).loaded,
            final(self).entries@ == old(self).entries@.update(
                vector as int,
                IdtEntry { handler: Some(handler), stack_switch, ist_index },
            ),
    {
        self.entries[vector as usize] = IdtEntry { handler: Some(handler), stack_switch, ist_index };
    }

    /// Activates the table. Only a fully populated table may be loaded:
    /// in particular the double-fault vector must already be forced onto
    /// the dedicated stack slot. On hardware this is the table-register
    /// load in the embedding program.
    pub fn load(&mut self)
        requires
            old(self).wf(),
            old(self).spec_populated(),
        ensures
            final(self).wf(),
            final(self).spec_populated(),
            final(self).entries@ == old(self).entries@,
            final(self).loaded,
    {
        self.loaded = true;
    }
}

/// Builds and loads the standard dispatch table.
pub fn init_idt() -> (r: InterruptDescriptorTable)
    ensures
        r.wf(),
        r.spec_populated(),
        r.loaded,
        forall|v: int|
            0 <= v < 256 && v != 0 && v != 4 && v != 6 && v != 8 && v != 14 && v != 32 && v != 33
                ==> r.entries@[v] == absent_idt_entry(),
{
    let mut idt = InterruptDescriptorTable::new();
    idt.register(DOUBLE_FAULT_VECTOR, HandlerId::DoubleFault, true, DOUBLE_FAULT_IST_INDEX);
    idt.register(OVERFLOW_VECTOR, HandlerId::Overflow, false, 0);
    idt.register(DIVIDE_ERROR_VECTOR, HandlerId::DivideError, false, 0);
    idt.register(INVALID_OPCODE_VECTOR, HandlerId::InvalidOpcode, false, 0);
    idt.register(InterruptIndex::Timer.as_u8(), HandlerId::Timer, false, 0);
    idt.register(PAGE_FAULT_VECTOR, HandlerId::PageFault, false, 0);
    idt.register(InterruptIndex::Keyboard.as_u8(), HandlerId::Keyboard, false, 0);
    idt.load();
    idt
}

/// The stack dispatch uses for a vector: the interrupt-stack-table slot
/// named by the entry where a switch is forced, the interrupted stack
/// otherwise.
pub open spec fn spec_dispatch_stack(
    idt: &InterruptDescriptorTable,
    tss: &TaskStateSegment,
    vector: int,
) -> Option<u64> {
    if idt.entries@[vector].stack_switch {
        Some(tss.interrupt_stack_table@[idt.entries@[vector].ist_index as int])
    } else {
        None
    }
}

/// The stack-switch invariant of the double-fault path: with the standard
/// table and a task state record built over a dedicated stack region, a
/// double fault is dispatched on that dedicated stack — the top of the
/// reserved region — and its handler is the fault-capture handler, whatever
/// state the interrupted stack is in.
pub proof fn lemma_double_fault_uses_dedicated_stack(
    idt: &InterruptDescriptorTable,
    tss: &TaskStateSegment,
    stack_start: u64,
)
    requires
        idt.spec_populated(),
        tss.interrupt_stack_table@.len() == 7,
        tss.interrupt_stack_table@[DOUBLE_FAULT_IST_INDEX as int] == stack_start
            + crate::gdt::STACK_SIZE,
    ensures
        spec_dispatch_stack(idt, tss, DOUBLE_FAULT_VECTOR as int) == Some(
            (stack_start + crate::gdt::STACK_SIZE) as u64,
        ),
        idt.entries@[DOUBLE_FAULT_VECTOR as int].handler == Some(HandlerId::DoubleFault),
{
}

} // verus!
