use popcorn::frames::{MemoryRegion, PopFrameAllocator, EmptyFrameAllocator, RegionKind};
use popcorn::heap::{init_heap, HEAP_SIZE, HEAP_START};
use popcorn::paging::{MapToError, PageTables, Resolution};

fn one_megabyte_map() -> Vec<MemoryRegion> {
    vec![
        MemoryRegion { start: 0x0, end: 0x100000, kind: RegionKind::Reserved },
        MemoryRegion { start: 0x100000, end: 0x200000, kind: RegionKind::Usable },
    ]
}

#[test]
fn allocates_consecutive_frames_from_usable_region() {
    let mut fa = PopFrameAllocator::init(one_megabyte_map());
    assert_eq!(fa.allocate_frame(), Some(0x100000));
    assert_eq!(fa.allocate_frame(), Some(0x101000));
    assert_eq!(fa.allocate_frame(), Some(0x102000));
}

#[test]
fn skips_reserved_regions_entirely() {
    let map = vec![
        MemoryRegion { start: 0x1000, end: 0x3000, kind: RegionKind::Reserved },
        MemoryRegion { start: 0x5000, end: 0x7000, kind: RegionKind::Usable },
        MemoryRegion { start: 0x8000, end: 0x9000, kind: RegionKind::Reserved },
        MemoryRegion { start: 0xa000, end: 0xc000, kind: RegionKind::Usable },
    ];
    let mut fa = PopFrameAllocator::init(map);
    let mut seen = Vec::new();
    loop {
        match fa.allocate_frame() {
            Some(f) => seen.push(f),
            None => break,
        }
    }
    assert_eq!(seen, vec![0x5000, 0x6000, 0xa000, 0xb000]);
    for f in seen {
        assert!(!(0x1000 <= f && f < 0x3000));
        assert!(!(0x8000 <= f && f < 0x9000));
    }
}

#[test]
fn never_returns_the_same_frame_twice() {
    let mut fa = PopFrameAllocator::init(one_megabyte_map());
    let mut seen = Vec::new();
    for _ in 0..256 {
        if let Some(f) = fa.allocate_frame() {
            assert!(!seen.contains(&f));
            seen.push(f);
        }
    }
    assert_eq!(seen.len(), 256);
}

#[test]
fn allocation_is_deterministic_across_instances() {
    let mut a = PopFrameAllocator::init(one_megabyte_map());
    let mut b = PopFrameAllocator::init(one_megabyte_map());
    for _ in 0..300 {
        assert_eq!(a.allocate_frame(), b.allocate_frame());
    }
}

#[test]
fn exhausted_map_yields_none() {
    let map = vec![MemoryRegion { start: 0x1000, end: 0x3000, kind: RegionKind::Usable }];
    let mut fa = PopFrameAllocator::init(map);
    assert_eq!(fa.allocate_frame(), Some(0x1000));
    assert_eq!(fa.allocate_frame(), Some(0x2000));
    assert_eq!(fa.allocate_frame(), None);
    assert_eq!(fa.allocate_frame(), None);
}

#[test]
fn empty_allocator_always_fails() {
    let mut fa = EmptyFrameAllocator;
    assert_eq!(fa.allocate_frame(), None);
}

#[test]
fn translate_unmapped_address_is_none() {
    let pt = PageTables::new(0x5000, 0);
    assert_eq!(pt.translate_addr(0x1234_5678), None);
    assert_eq!(pt.resolve_page(0xdead_beef), Resolution::NotMapped);
}

#[test]
fn mapped_page_translates_to_frame_base_plus_offset() {
    let mut pt = PageTables::new(0x5000, 0);
    let mut fa = PopFrameAllocator::init(one_megabyte_map());
    let page: u64 = 0x4000_0000;
    let frame: u64 = 0x180000;
    assert_eq!(pt.map_to(page, frame, true, &mut fa), Ok(()));
    assert_eq!(pt.translate_addr(page), Some(frame));
    assert_eq!(pt.translate_addr(page + 0x123), Some(frame + 0x123));
    assert_eq!(pt.translate_addr(page + 0xfff), Some(frame + 0xfff));
    // the neighbouring pages stay unmapped
    assert_eq!(pt.translate_addr(page - 1), None);
    assert_eq!(pt.translate_addr(page + 0x1000), None);
}

#[test]
fn double_mapping_is_a_checked_error() {
    let mut pt = PageTables::new(0x5000, 0);
    let mut fa = PopFrameAllocator::init(one_megabyte_map());
    let page: u64 = 0x4000_0000;
    assert_eq!(pt.map_to(page, 0x180000, true, &mut fa), Ok(()));
    assert_eq!(
        pt.map_to(page, 0x190000, true, &mut fa),
        Err(MapToError::PageAlreadyMapped)
    );
    // the first mapping stands
    assert_eq!(pt.translate_addr(page), Some(0x180000));
}

#[test]
fn mapping_without_frames_reports_allocation_failure() {
    let mut pt = PageTables::new(0x5000, 0);
    let empty_map = vec![MemoryRegion { start: 0, end: 0, kind: RegionKind::Usable }];
    let mut fa = PopFrameAllocator::init(empty_map);
    assert_eq!(
        pt.map_to(0x4000_0000, 0x180000, true, &mut fa),
        Err(MapToError::FrameAllocationFailed)
    );
}

#[test]
fn init_heap_maps_the_whole_range() {
    let mut pt = PageTables::new(0x5000, 0);
    let mut fa = PopFrameAllocator::init(one_megabyte_map());
    assert_eq!(init_heap(&mut pt, &mut fa), Ok(()));
    // every page of the range resolves, with a per-byte offset
    let mut va = HEAP_START;
    while va < HEAP_START + HEAP_SIZE {
        assert!(pt.translate_addr(va).is_some());
        va += 4096;
    }
    assert!(pt.translate_addr(HEAP_START + HEAP_SIZE - 1).is_some());
    // the pages right outside stay unmapped
    assert_eq!(pt.translate_addr(HEAP_START - 1), None);
    assert_eq!(pt.translate_addr(HEAP_START + HEAP_SIZE), None);
}

#[test]
fn draw_line_endpoints_are_painted() {
    let mut v = popcorn::vga_video::VGABuffer::new(6, 6, 0);
    v.draw_line(5, 1, 1, 4, 0x9);
    assert_eq!(v.get_pixel(5, 1), 0x9);
    assert_eq!(v.get_pixel(1, 4), 0x9);
}

#[test]
fn init_heap_backs_pages_with_distinct_frames() {
    let mut pt = PageTables::new(0x5000, 0);
    let mut fa = PopFrameAllocator::init(one_megabyte_map());
    assert_eq!(init_heap(&mut pt, &mut fa), Ok(()));
    let mut frames = Vec::new();
    let mut va = HEAP_START;
    while va < HEAP_START + HEAP_SIZE {
        let phys = pt.translate_addr(va).unwrap();
        assert!(!frames.contains(&phys));
        frames.push(phys);
        va += 4096;
    }
    assert_eq!(frames.len(), 25);
}

#[test]
fn init_heap_with_no_frames_fails_at_once_and_changes_nothing() {
    let mut pt = PageTables::new(0x5000, 0);
    let map = vec![MemoryRegion { start: 0x1000, end: 0x1000, kind: RegionKind::Usable }];
    let mut fa = PopFrameAllocator::init(map);
    assert_eq!(init_heap(&mut pt, &mut fa), Err(MapToError::FrameAllocationFailed));
    // nothing was mapped
    let mut va = HEAP_START;
    while va < HEAP_START + HEAP_SIZE {
        assert_eq!(pt.translate_addr(va), None);
        va += 4096;
    }
}

#[test]
fn init_heap_on_a_premapped_page_is_the_checked_double_mapping_error() {
    let mut pt = PageTables::new(0x5000, 0);
    let mut fa = PopFrameAllocator::init(one_megabyte_map());
    // one heap page is already mapped before initialization
    let premapped = HEAP_START + 3 * 4096;
    assert_eq!(pt.map_to(premapped, 0x1f0000, true, &mut fa), Ok(()));
    assert_eq!(init_heap(&mut pt, &mut fa), Err(MapToError::PageAlreadyMapped));
    // the pre-existing mapping is left standing
    assert_eq!(pt.translate_addr(premapped), Some(0x1f0000));
}

#[test]
fn init_heap_fails_cleanly_when_memory_runs_out() {
    let mut pt = PageTables::new(0x5000, 0);
    // three frames cannot back a 25-page heap
    let map = vec![MemoryRegion { start: 0x1000, end: 0x4000, kind: RegionKind::Usable }];
    let mut fa = PopFrameAllocator::init(map);
    assert_eq!(init_heap(&mut pt, &mut fa), Err(MapToError::FrameAllocationFailed));
}

#[test]
fn memcpy_copies_prefix() {
    let mut dst = vec![0u8; 8];
    let src = vec![1u8, 2, 3, 4, 5, 6, 7, 8];
    popcorn::memory::memcpy(&mut dst, &src, 5);
    assert_eq!(dst, vec![1, 2, 3, 4, 5, 0, 0, 0]);
}

#[test]
fn memset_fills_prefix_with_truncated_byte() {
    let mut dst = vec![9u8; 6];
    popcorn::memory::memset(&mut dst, 0x141, 4);
    assert_eq!(dst, vec![0x41, 0x41, 0x41, 0x41, 9, 9]);
}

#[test]
fn memcmp_finds_first_difference() {
    let a = vec![1u8, 2, 3, 4];
    let b = vec![1u8, 2, 9, 4];
    assert_eq!(popcorn::memory::memcmp(&a, &b, 2), 0);
    assert_eq!(popcorn::memory::memcmp(&a, &b, 3), 1);
    assert_eq!(popcorn::memory::memcmp(&a, &a, 4), 0);
}
