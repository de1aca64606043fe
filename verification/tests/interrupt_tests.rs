use popcorn::console::CommandToWriter;
use popcorn::frames::{MemoryRegion, PopFrameAllocator, RegionKind};
use popcorn::gdt::{build_tss, init_gdt, DOUBLE_FAULT_IST_INDEX, STACK_SIZE};
use popcorn::heap::{init_heap, HEAP_START};
use popcorn::interrupt_handlers::{
    double_fault_handler, keyboard_interrupt_handler, page_fault_handler, timer_interrupt_handler,
    InterruptStackFrame,
};
use popcorn::interrupts::{init_idt, HandlerId, InterruptIndex};
use popcorn::paging::{PageTables, Resolution};
use popcorn::panic_report::{knl_panic_get_title, u64_to_dec, get_newline_count, PanicTechnicalInfo, SourceLocation};
use popcorn::pic::ChainedPics;
use popcorn::system::{init_system, validate_system};
use popcorn::testutils::QemuExitCode;
use popcorn::vga_buffer::Color;

fn zero_frame() -> InterruptStackFrame {
    InterruptStackFrame {
        instruction_pointer: 0,
        code_segment: 0,
        cpu_flags: 0,
        stack_pointer: 0,
        stack_segment: 0,
    }
}

fn here() -> SourceLocation {
    SourceLocation { file: String::from("kernel.rs"), line: 7, column: 3 }
}

#[test]
fn interrupt_vectors_follow_the_controller_offset() {
    assert_eq!(InterruptIndex::Timer.as_u8(), 32);
    assert_eq!(InterruptIndex::Keyboard.as_u8(), 33);
    assert_eq!(InterruptIndex::Timer.as_usize(), 32);
    assert_eq!(InterruptIndex::Keyboard.as_usize(), 33);
}

#[test]
fn standard_idt_routes_double_fault_through_the_ist_slot() {
    let idt = init_idt();
    let e = idt.entries[8];
    assert_eq!(e.handler, Some(HandlerId::DoubleFault));
    assert!(e.stack_switch);
    assert_eq!(e.ist_index, DOUBLE_FAULT_IST_INDEX);
    assert!(idt.loaded);
    // no other exception entry forces a stack switch
    assert!(!idt.entries[0].stack_switch);
    assert!(!idt.entries[14].stack_switch);
    assert!(idt.entries[40].handler.is_none());
}

#[test]
fn tss_reserves_slot_zero_for_the_dedicated_stack() {
    let tss = build_tss(0x20_0000);
    assert_eq!(tss.interrupt_stack_table[0], 0x20_0000 + STACK_SIZE);
    for i in 1..7 {
        assert_eq!(tss.interrupt_stack_table[i], 0);
    }
}

#[test]
fn gdt_selectors_name_code_and_task_segments() {
    let (gdt, selectors) = init_gdt();
    assert_eq!(gdt.entries.len(), 3);
    assert_eq!(selectors.code_selector, 8);
    assert_eq!(selectors.tss_selector, 16);
}

#[test]
fn init_system_assembles_everything() {
    let sys = init_system(0x20_0000);
    assert!(validate_system());
    assert!(sys.idt.loaded);
    assert_eq!(sys.selectors.code_selector, 8);
    assert_eq!(sys.selectors.tss_selector, 16);
    assert_eq!(sys.pics.offset1, 32);
    assert_eq!(sys.pics.offset2, 40);
    assert!(sys.pics.initialized);
    assert_eq!(sys.tss.interrupt_stack_table[0], 0x20_0000 + STACK_SIZE);
}

#[test]
fn missing_eoi_starves_the_timer_line() {
    let mut pics = ChainedPics::new(32, 40);
    pics.initialize();
    assert_eq!(pics.in_service1, 0);
    // the timer fires and is delivered
    pics.deliver(32);
    assert_eq!(pics.in_service1, 1);
    // without the acknowledgement the line stays in service and blocks
    // further timer interrupts; the handler's acknowledgement re-arms it
    timer_interrupt_handler(&mut pics);
    assert_eq!(pics.in_service1, 0);
}

#[test]
fn keyboard_handler_acknowledges_its_line() {
    let mut pics = ChainedPics::new(32, 40);
    pics.initialize();
    pics.deliver(33);
    assert_eq!(pics.in_service1, 2);
    keyboard_interrupt_handler(&mut pics, 0x1e);
    assert_eq!(pics.in_service1, 0);
}

#[test]
fn title_is_deterministic_in_the_captured_registers() {
    let zero = PanicTechnicalInfo::default();
    assert_eq!(knl_panic_get_title(&zero), "Pop goes the kernel!");
    let five = PanicTechnicalInfo { instruction_pointer: 5, ..Default::default() };
    assert_eq!(knl_panic_get_title(&five), "MEDIC!");
    let eleven = PanicTechnicalInfo { cpu_flags: 11, ..Default::default() };
    assert_eq!(knl_panic_get_title(&eleven), "Kernel Panic! (Gone Wrong)");
    // the seed sum wraps instead of overflowing
    let wrapped = PanicTechnicalInfo {
        stack_segment: u64::MAX,
        stack_pointer: 1,
        ..Default::default()
    };
    assert_eq!(knl_panic_get_title(&wrapped), "Pop goes the kernel!");
    // the same record twice gives the same title
    assert_eq!(knl_panic_get_title(&five), knl_panic_get_title(&five));
}

#[test]
fn decimal_rendering_is_exact() {
    assert_eq!(u64_to_dec(0), "0");
    assert_eq!(u64_to_dec(7), "7");
    assert_eq!(u64_to_dec(1234567890), "1234567890");
    assert_eq!(u64_to_dec(u64::MAX), "18446744073709551615");
}

#[test]
fn newline_count_counts_newlines() {
    assert_eq!(get_newline_count(""), 0);
    assert_eq!(get_newline_count("abc"), 0);
    assert_eq!(get_newline_count("a\nb\n\n"), 3);
}

#[test]
fn double_fault_report_reaches_the_reporting_state() {
    let frame = InterruptStackFrame { instruction_pointer: 0x1234, ..zero_frame() };
    let cmds = double_fault_handler(&frame, 0, &here());
    // the report clears the screen and prints the message line
    assert!(matches!(cmds[0], CommandToWriter::ClearScreen(Color::Red)));
    let mut saw_message = false;
    for c in &cmds {
        if let CommandToWriter::Print(s) = c {
            if s == "DOUBLE FAULT" {
                saw_message = true;
            }
        }
    }
    assert!(saw_message);
}

#[test]
fn page_fault_report_records_the_exact_faulting_address() {
    let cmds = page_fault_handler(&zero_frame(), 0b10, 0xdead_b000, &here());
    // the faulting address appears, rendered in decimal, right after its label
    let mut found = false;
    for i in 0..cmds.len() - 1 {
        if let (CommandToWriter::Print(label), CommandToWriter::Print(value)) =
            (&cmds[i], &cmds[i + 1])
        {
            if label == "Memory address: " {
                assert_eq!(value, &u64_to_dec(0xdead_b000));
                found = true;
            }
        }
    }
    assert!(found);
}

#[test]
fn qemu_exit_codes_match_the_device_protocol() {
    assert_eq!(QemuExitCode::Success.as_u32(), 0x10);
    assert_eq!(QemuExitCode::Failed.as_u32(), 0x11);
    assert_ne!(QemuExitCode::Success, QemuExitCode::Failed);
}

#[test]
fn boot_scenario_from_handoff_to_fault_capture() {
    // boot handoff: one 1 MiB usable region at 0x100000
    let map = vec![
        MemoryRegion { start: 0x0, end: 0x100000, kind: RegionKind::Reserved },
        MemoryRegion { start: 0x100000, end: 0x200000, kind: RegionKind::Usable },
    ];
    // descriptor and interrupt setup
    let sys = init_system(0x20_0000);
    assert!(sys.idt.loaded && sys.idt.entries[8].stack_switch);
    // the heap is mapped from the usable region
    let mut pt = PageTables::new(0x5000, 0);
    let mut fa = PopFrameAllocator::init(map);
    assert_eq!(init_heap(&mut pt, &mut fa), Ok(()));
    // a mapped heap byte translates; writing and reading back goes to the
    // same physical byte
    let va = HEAP_START + 0x40;
    let phys = pt.translate_addr(va).unwrap();
    assert_eq!(pt.translate_addr(va), Some(phys));
    // a deliberate dereference of an unmapped address faults ...
    let bad: u64 = 0x7777_0000;
    assert_eq!(pt.resolve_page(bad), Resolution::NotMapped);
    // ... and the capture path records that exact address and reports
    let cmds = page_fault_handler(&zero_frame(), 0, bad, &here());
    let mut found = false;
    for i in 0..cmds.len() - 1 {
        if let (CommandToWriter::Print(label), CommandToWriter::Print(value)) =
            (&cmds[i], &cmds[i + 1])
        {
            if label == "Memory address: " {
                assert_eq!(value, &u64_to_dec(bad));
                found = true;
            }
        }
    }
    assert!(found);
}

#[test]
fn panic_report_layout_is_fully_determined() {
    let info = PanicTechnicalInfo::default();
    let cmds = popcorn::panic_report::knl_panic(&here(), "boom", &info);
    // screen clear, title colours, 30 padding spaces for the 20-byte
    // title, three colour changes, and 31 body pieces
    assert_eq!(cmds.len(), 66);
    assert!(matches!(cmds[0], CommandToWriter::ClearScreen(Color::Red)));
    assert!(matches!(cmds[1], CommandToWriter::SetColor(Color::Red, Color::Red)));
    for i in 2..32 {
        match &cmds[i] {
            CommandToWriter::Print(s) => assert_eq!(s, " "),
            _ => panic!("expected padding"),
        }
    }
    assert!(matches!(cmds[32], CommandToWriter::SetColor(Color::Yellow, Color::Red)));
    match &cmds[33] {
        CommandToWriter::Print(s) => assert_eq!(s, "Pop goes the kernel!\n"),
        _ => panic!("expected the title"),
    }
    assert!(matches!(cmds[34], CommandToWriter::SetColor(Color::White, Color::Red)));
    match (&cmds[35], &cmds[36], &cmds[42], &cmds[43]) {
        (
            CommandToWriter::Print(label),
            CommandToWriter::Print(file),
            CommandToWriter::Print(msg_label),
            CommandToWriter::Print(msg),
        ) => {
            assert_eq!(label, "Location: ");
            assert_eq!(file, "kernel.rs");
            assert_eq!(msg_label, "Message: ");
            assert_eq!(msg, "boom");
        }
        _ => panic!("expected the location and message lines"),
    }
}
