use ferrix::memory::{
    active_level_4_table, regions_are_disjoint, regions_well_formed, BootInfoFrameAllocator,
    EmptyFrameAllocator, FrameAllocator, MemoryRegion, PhysFrame, PAGE_SIZE, PHYS_ADDR_LIMIT,
};

fn region(start: u64, end: u64, usable: bool) -> MemoryRegion {
    MemoryRegion { start, end, usable }
}

#[test]
fn allocates_every_usable_frame_once_then_nothing() {
    let regions = [
        region(0x0000, 0x1000, false),
        region(0x1000, 0x4000, true),
        region(0x4000, 0x8000, false),
        region(0x8000, 0xa000, true),
    ];
    assert!(regions_well_formed(&regions));
    let mut allocator = BootInfoFrameAllocator::init(&regions);
    let expected = [0x1000u64, 0x2000, 0x3000, 0x8000, 0x9000];
    let mut seen: Vec<u64> = Vec::new();
    for want in expected {
        let frame = allocator.allocate_frame().expect("a usable frame is left");
        assert_eq!(frame, PhysFrame { start_address: want });
        assert!(!seen.contains(&frame.start_address()));
        assert!(regions.iter().any(|r| r.usable
            && r.start <= frame.start_address()
            && frame.start_address() + 4096 <= r.end));
        seen.push(frame.start_address());
    }
    assert_eq!(allocator.allocate_frame(), None);
    assert_eq!(allocator.allocate_frame(), None);
    assert_eq!(allocator.next_index(), 7);
}

#[test]
fn allocation_order_is_the_same_for_the_same_regions() {
    let regions = [region(0x10_0000, 0x10_3000, true), region(0x20_0000, 0x20_2000, true)];
    let mut first = BootInfoFrameAllocator::init(&regions);
    let mut second = BootInfoFrameAllocator::init(&regions);
    for _ in 0..6 {
        assert_eq!(first.allocate_frame(), second.allocate_frame());
    }
}

#[test]
fn usable_frame_indexes_the_stream() {
    let regions = [region(0x3000, 0x5000, true), region(0x5000, 0x6000, false), region(0x9000, 0xa000, true)];
    let allocator = BootInfoFrameAllocator::init(&regions);
    assert_eq!(allocator.usable_frame(0), Some(PhysFrame { start_address: 0x3000 }));
    assert_eq!(allocator.usable_frame(1), Some(PhysFrame { start_address: 0x4000 }));
    assert_eq!(allocator.usable_frame(2), Some(PhysFrame { start_address: 0x9000 }));
    assert_eq!(allocator.usable_frame(3), None);
}

#[test]
fn empty_and_unusable_regions_give_no_frame() {
    let regions = [region(0x1000, 0x1000, true), region(0x2000, 0x9000, false)];
    let mut allocator = BootInfoFrameAllocator::init(&regions);
    assert_eq!(allocator.allocate_frame(), None);
    let none: [MemoryRegion; 0] = [];
    let mut allocator = BootInfoFrameAllocator::init(&none);
    assert_eq!(allocator.allocate_frame(), None);
}

#[test]
fn empty_frame_allocator_never_allocates() {
    let mut allocator = EmptyFrameAllocator;
    assert_eq!(allocator.allocate_frame(), None);
    assert_eq!(allocator.allocate_frame(), None);
}

#[test]
fn malformed_regions_are_detected() {
    assert!(!regions_well_formed(&[region(0x1001, 0x2000, true)]));
    assert!(!regions_well_formed(&[region(0x1000, 0x2800, true)]));
    assert!(!regions_well_formed(&[region(0x3000, 0x2000, true)]));
    assert!(regions_well_formed(&[region(0x3000, 0x2000, false)]));
    assert!(regions_well_formed(&[region(0x1001, 0x27ff, false), region(0x4000, 0x5000, true)]));
    assert!(!regions_well_formed(&[region(0x1000, 0x10_0000_0000_1000, true)]));
    assert!(regions_well_formed(&[region(0x1000, 0x10_0000_0000_0000, true)]));
    assert!(region(0x1000, 0x2000, false).is_well_formed());
}

#[test]
fn containing_address_aligns_down() {
    assert_eq!(PhysFrame::containing_address(0xb8000).start_address(), 0xb8000);
    assert_eq!(PhysFrame::containing_address(0xb8fff).start_address(), 0xb8000);
    assert_eq!(PhysFrame::containing_address(0).start_address(), 0);
}

#[test]
fn overlapping_usable_regions_are_detected() {
    assert!(regions_are_disjoint(&[]));
    assert!(regions_are_disjoint(&[region(0x1000, 0x3000, true), region(0x3000, 0x5000, true)]));
    assert!(regions_are_disjoint(&[region(0x1000, 0x3000, true), region(0x2000, 0x5000, false)]));
    assert!(!regions_are_disjoint(&[region(0x1000, 0x3000, true), region(0x2000, 0x5000, true)]));
    assert!(!regions_are_disjoint(&[
        region(0x1000, 0x3000, true),
        region(0x8000, 0x9000, true),
        region(0x0000, 0x2000, true)
    ]));
    assert!(!regions_are_disjoint(&[region(0x1000, 0x3000, true), region(0x1000, 0x3000, true)]));
}

#[test]
fn overlapping_regions_would_hand_a_frame_out_twice() {
    let regions = [region(0x1000, 0x3000, true), region(0x2000, 0x4000, true)];
    assert!(regions_well_formed(&regions));
    assert!(!regions_are_disjoint(&regions));
    let mut allocator = BootInfoFrameAllocator::init(&regions);
    let handed: Vec<u64> =
        (0..4).map(|_| allocator.allocate_frame().expect("a frame").start_address()).collect();
    assert_eq!(handed, vec![0x1000, 0x2000, 0x2000, 0x3000]);
}

#[test]
fn level_4_table_is_seen_at_offset_plus_frame() {
    assert_eq!(PAGE_SIZE, 4096);
    assert_eq!(PHYS_ADDR_LIMIT, 1 << 52);
    let frame = PhysFrame::containing_address(0x1000);
    assert_eq!(active_level_4_table(0xffff_8000_0000_0000, frame), 0xffff_8000_0000_1000);
    assert_eq!(active_level_4_table(0, PhysFrame::containing_address(0)), 0);
}
