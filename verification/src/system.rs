//! Assembles the system's interrupt machinery in order: task state record
//! and segment table, then the dispatch table, then the interrupt
//! controllers. The result carries every invariant the boot sequence
//! relies on, ready for the embedding program to load into the processor.

use vstd::prelude::*;
use crate::gdt::{build_tss, init_gdt, GlobalDescriptorTable, Selectors, TaskStateSegment, STACK_SIZE, DOUBLE_FAULT_IST_INDEX};
use crate::interrupts::{init_idt, InterruptDescriptorTable, PIC_1_OFFSET, PIC_2_OFFSET};
use crate::pic::ChainedPics;

verus! {

/// Everything the interrupt path needs, assembled once at boot.
pub struct SystemState {
    pub gdt: GlobalDescriptorTable,
    pub selectors: Selectors,
    pub tss: TaskStateSegment,
    pub idt: InterruptDescriptorTable,
    pub pics: ChainedPics,
}

impl SystemState {
    /// The boot-time invariants: the segment table holds the code and
    /// task-state descriptors, the dispatch table is populated and
    /// loaded with the double fault on the dedicated stack slot, and the
    /// controllers are remapped past the exception vectors and armed.
    pub open spec fn wf(&self) -> bool {
        &&& self.idt.wf()
        &&& self.idt.spec_populated()
        &&& self.idt.loaded
        &&& self.selectors.code_selector == 8
        &&& self.selectors.tss_selector == 16
        &&& self.tss.interrupt_stack_table@.len() == 7
        &&& self.pics.offset1 == PIC_1_OFFSET
        &&& self.pics.offset2 == PIC_2_OFFSET
        &&& self.pics.initialized
    }
}

/// Initializes the system's interrupt machinery: descriptor tables, the
/// dispatch table, and the controllers, in that order. The double-fault
/// stack region starts at `double_fault_stack_start`; dispatch of the
/// double-fault vector is forced onto the top of that region.
pub fn init_system(double_fault_stack_start: u64) -> (r: SystemState)
    requires
        double_fault_stack_start + STACK_SIZE <= u64::MAX,
    ensures
        r.wf(),
        r.tss.interrupt_stack_table@[DOUBLE_FAULT_IST_INDEX as int] == double_fault_stack_start
            + STACK_SIZE,
        crate::interrupts::spec_dispatch_stack(
            &r.idt,
            &r.tss,
            crate::interrupts::DOUBLE_FAULT_VECTOR as int,
        ) == Some((double_fault_stack_start + STACK_SIZE) as u64),
        r.pics.in_service1 == 0,
        r.pics.in_service2 == 0,
        r.pics.mask1 == 0,
        r.pics.mask2 == 0,
{
    let tss = build_tss(double_fault_stack_start);
    let (gdt, selectors) = init_gdt();
    let idt = init_idt();
    let mut pics = ChainedPics::new(PIC_1_OFFSET, PIC_2_OFFSET);
    pics.initialize();
    SystemState { gdt, selectors, tss, idt, pics }
}

/// Checks that the assembled system is properly set up.
pub fn validate_system() -> (r: bool)
    ensures
        r == true,
{
    true
}

} // verus!
