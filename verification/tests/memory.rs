use microkernel::memory::{
    map_heap, map_range, BootInfoFrameAllocator, MemoryRegion, HEAP_SIZE, HEAP_START,
};

fn usable(start: u64, end: u64) -> MemoryRegion {
    MemoryRegion { start_addr: start, end_addr: end, usable: true }
}

fn reserved(start: u64, end: u64) -> MemoryRegion {
    MemoryRegion { start_addr: start, end_addr: end, usable: false }
}

#[test]
fn allocate_frame_walks_usable_regions_in_order() {
    let map = vec![
        reserved(0, 0x1000),
        usable(0x1000, 0x3000),
        reserved(0x3000, 0x5000),
        usable(0x10000, 0x12000),
    ];
    let mut allocator = BootInfoFrameAllocator::init(map);
    assert_eq!(allocator.allocate_frame(), Some(0x1000));
    assert_eq!(allocator.allocate_frame(), Some(0x2000));
    assert_eq!(allocator.allocate_frame(), Some(0x10000));
    assert_eq!(allocator.allocate_frame(), Some(0x11000));
    assert_eq!(allocator.allocate_frame(), None);
    assert_eq!(allocator.allocate_frame(), None);
}

#[test]
fn allocate_frame_rounds_unaligned_addresses_to_frame_bases() {
    // An unaligned usable region: the enumeration steps from its start and
    // yields the containing frame of each step.
    let map = vec![usable(100, 8292)];
    let mut allocator = BootInfoFrameAllocator::init(map);
    assert_eq!(allocator.allocate_frame(), Some(0));
    assert_eq!(allocator.allocate_frame(), Some(4096));
    assert_eq!(allocator.allocate_frame(), None);
}

#[test]
fn allocate_frame_counts_partial_trailing_frame() {
    // 4097 bytes: two step addresses fall inside the region.
    let map = vec![usable(0x8000, 0x8000 + 4097)];
    let mut allocator = BootInfoFrameAllocator::init(map);
    assert_eq!(allocator.allocate_frame(), Some(0x8000));
    assert_eq!(allocator.allocate_frame(), Some(0x9000));
    assert_eq!(allocator.allocate_frame(), None);
}

#[test]
fn frames_are_never_returned_twice() {
    let map = vec![
        usable(0x1000, 0x6000),
        reserved(0x6000, 0x8000),
        usable(0x8000, 0xB000),
    ];
    let mut allocator = BootInfoFrameAllocator::init(map);
    let mut seen: Vec<u64> = Vec::new();
    while let Some(frame) = allocator.allocate_frame() {
        assert!(!seen.contains(&frame), "frame {frame:#x} handed out twice");
        seen.push(frame);
    }
    assert_eq!(seen.len(), 8);
}

#[test]
fn cursor_advances_even_when_exhausted() {
    // The lazily re-run enumeration steps its cursor on every call, found
    // or not; an empty map yields nothing from the start.
    let map = vec![reserved(0, 0x10_0000)];
    let mut allocator = BootInfoFrameAllocator::init(map);
    assert_eq!(allocator.next, 0);
    assert_eq!(allocator.allocate_frame(), None);
    assert_eq!(allocator.next, 1);
    assert_eq!(allocator.allocate_frame(), None);
    assert_eq!(allocator.next, 2);
}

#[test]
fn map_heap_covers_every_heap_page_once() {
    // A single region with more frames than the heap needs.
    let map = vec![usable(0x10_0000, 0x10_0000 + 0x40_0000)];
    let mut allocator = BootInfoFrameAllocator::init(map);
    let plan = map_heap(&mut allocator).expect("enough frames for the heap");
    assert_eq!(plan.len() as u64, HEAP_SIZE / 4096);
    // Each page of the window appears exactly once, in order.
    for (k, mapping) in plan.iter().enumerate() {
        assert_eq!(mapping.page, HEAP_START + 4096 * k as u64);
        assert!(mapping.page >= HEAP_START);
        assert!(mapping.page < HEAP_START + HEAP_SIZE);
    }
    // No frame backs two pages.
    for (i, a) in plan.iter().enumerate() {
        for b in plan.iter().skip(i + 1) {
            assert_ne!(a.frame, b.frame);
        }
    }
}

#[test]
fn map_heap_fails_when_frames_run_out() {
    // The firmware map reports fewer usable frames than the heap needs:
    // one frame short. Boot must fail before any task runs.
    let pages = HEAP_SIZE / 4096;
    let map = vec![usable(0x10_0000, 0x10_0000 + 4096 * (pages - 1))];
    let mut allocator = BootInfoFrameAllocator::init(map);
    assert!(map_heap(&mut allocator).is_none());
}

#[test]
fn map_range_pages_come_from_containing_pages() {
    // An unaligned range: the plan starts at the containing page and ends
    // at the page containing the last byte.
    let map = vec![usable(0x20_0000, 0x30_0000)];
    let mut allocator = BootInfoFrameAllocator::init(map);
    let plan = map_range(HEAP_START + 5, 8192, &mut allocator).expect("enough frames");
    assert_eq!(plan.len(), 3);
    assert_eq!(plan[0].page, HEAP_START);
    assert_eq!(plan[1].page, HEAP_START + 4096);
    assert_eq!(plan[2].page, HEAP_START + 8192);
    assert_eq!(plan[0].frame, 0x20_0000);
    assert_eq!(plan[1].frame, 0x20_1000);
    assert_eq!(plan[2].frame, 0x20_2000);
}
