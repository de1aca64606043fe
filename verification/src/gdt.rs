//! The segment table and the task state record: a kernel code segment, a
//! task-state descriptor, and the interrupt stack table whose slot zero
//! holds the top of the dedicated double-fault stack. Loading the table
//! into the processor is the embedding program's side; the contents and
//! the stack-slot invariant are established here.

use vstd::prelude::*;

verus! {

/// The interrupt-stack-table slot reserved for the double-fault path.
pub const DOUBLE_FAULT_IST_INDEX: u16 = 0;

/// Size of the dedicated double-fault stack, in bytes.
pub const STACK_SIZE: u64 = 4096 * 5;

/// Number of interrupt-stack-table slots.
pub const IST_SLOTS: usize = 7;

/// The task state record: alternate stack tops, indexed by slot.
pub struct TaskStateSegment {
    pub interrupt_stack_table: Vec<u64>,
}

impl TaskStateSegment {
    /// A record with every slot clear.
    pub fn new() -> (r: TaskStateSegment)
        ensures
            r.interrupt_stack_table@ =~= Seq::new(7, |i: int| 0u64),
    {
        TaskStateSegment { interrupt_stack_table: vec![0u64; 7] }
    }
}

/// Builds the task state record for the double-fault stack: slot zero
/// holds the top of the dedicated stack region, every other slot is
/// clear.
pub fn build_tss(stack_start: u64) -> (r: TaskStateSegment)
    requires
        stack_start + STACK_SIZE <= u64::MAX,
    ensures
        r.interrupt_stack_table@.len() == 7,
        r.interrupt_stack_table@[DOUBLE_FAULT_IST_INDEX as int] == stack_start + STACK_SIZE,
        forall|i: int| 0 < i < 7 ==> r.interrupt_stack_table@[i] == 0,
{
    let mut tss = TaskStateSegment::new();
    let stack_end = stack_start + STACK_SIZE;
    tss.interrupt_stack_table[0] = stack_end;
    tss
}

/// One entry of the segment table.
#[derive(Clone, Copy, PartialEq, Eq, Structural, Debug)]
pub enum Descriptor {
    /// The mandatory empty slot at index zero.
    Null,
    /// The kernel's code segment.
    KernelCodeSegment,
    /// The descriptor naming the task state record.
    TssSegment,
}

/// A selector: the table index of a descriptor, shifted into the form the
/// processor's segment registers take.
pub struct Selectors {
    pub code_selector: u16,
    pub tss_selector: u16,
}

/// The segment table.
pub struct GlobalDescriptorTable {
    pub entries: Vec<Descriptor>,
}

impl GlobalDescriptorTable {
    /// A table holding only the mandatory empty slot.
    pub fn new() -> (r: GlobalDescriptorTable)
        ensures
            r.entries@ =~= seq![Descriptor::Null],
    {
        let mut entries: Vec<Descriptor> = Vec::new();
        entries.push(Descriptor::Null);
        GlobalDescriptorTable { entries }
    }

    /// Appends a descriptor and returns its selector: eight times its
    /// table index.
    pub fn add_entry(&mut self, descriptor: Descriptor) -> (r: u16)
        requires
            old(self).entries@.len() < 8,
        ensures
            final(self).entries@ == old(self).entries@.push(descriptor),
            r == 8 * old(self).entries@.len(),
    {
        let index = self.entries.len();
        self.entries.push(descriptor);
        (index as u16) * 8
    }
}

/// Builds the segment table: the kernel code segment at selector 8 and
/// the task-state descriptor at selector 16.
pub fn init_gdt() -> (r: (GlobalDescriptorTable, Selectors))
    ensures
        r.0.entries@ =~= seq![Descriptor::Null, Descriptor::KernelCodeSegment, Descriptor::TssSegment],
        r.1.code_selector == 8,
        r.1.tss_selector == 16,
{
    let mut gdt = GlobalDescriptorTable::new();
    let code_selector = gdt.add_entry(Descriptor::KernelCodeSegment);
    let tss_selector = gdt.add_entry(Descriptor::TssSegment);
    (gdt, Selectors { code_selector, tss_selector })
}

} // verus!
