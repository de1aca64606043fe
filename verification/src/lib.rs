//! Core of a small teaching kernel: physical frame allocation from a boot
//! memory map, a four-level page-table model with mapping and translation,
//! heap-range setup, descriptor-table and interrupt-controller state, and
//! the panic capture/report path. Hardware access (port writes, descriptor
//! loads, the memory-mapped text buffer) lives outside this crate; the
//! decisions and data structures live here.

pub mod addr;
pub mod frames;
pub mod heap;
pub mod paging;
pub mod vga_buffer;
pub mod writer;
pub mod console;
pub mod panic_report;
pub mod pic;
pub mod gdt;
pub mod interrupts;
pub mod interrupt_handlers;
pub mod system;
pub mod memory;
pub mod testutils;
pub mod output;
pub mod vga_video;
