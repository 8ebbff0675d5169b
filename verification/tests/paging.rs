use ferrix::host_memory::HostMemory;
use ferrix::memory::{
    create_example_mapping, init, BootInfoFrameAllocator, EmptyFrameAllocator, FrameAllocator,
    MemoryRegion, PhysFrame,
};
use ferrix::paging::{
    MapToError, OffsetPageTable, Page, PageTableEntry, PageTableFlags, PageTableMemory,
};

const OFFSET: u64 = 0x1000_0000_0000;
const ROOT: u64 = 0x1000;

fn present_writable() -> PageTableFlags {
    PageTableFlags { present: true, writable: true }
}

fn fresh_table() -> OffsetPageTable<HostMemory> {
    init(HostMemory::new(), OFFSET, PhysFrame::containing_address(ROOT))
}

fn usable(start: u64, end: u64) -> [MemoryRegion; 1] {
    [MemoryRegion { start, end, usable: true }]
}

#[test]
fn page_indices_follow_the_address_bits() {
    let page = Page::containing_address(0x4444_4444_0123);
    assert_eq!(page.start_address(), 0x4444_4444_0000);
    assert_eq!(page.p4_index(), 0x88);
    assert_eq!(page.p3_index(), 0x111);
    assert_eq!(page.p2_index(), 0x22);
    assert_eq!(page.p1_index(), 0x40);
    let high = Page::containing_address(0xffff_ffff_ffff_f000);
    assert_eq!(
        (high.p4_index(), high.p3_index(), high.p2_index(), high.p1_index()),
        (511, 511, 511, 511)
    );
    let zero = Page::containing_address(0xfff);
    assert_eq!((zero.p4_index(), zero.p3_index(), zero.p2_index(), zero.p1_index()), (0, 0, 0, 0));
}

#[test]
fn entries_round_trip_frame_and_flags() {
    let frame = PhysFrame::containing_address(0xb8000);
    let entry = PageTableEntry::new(frame, present_writable());
    assert_eq!(entry.bits, 0xb8003);
    assert_eq!(entry.frame(), frame);
    assert_eq!(entry.flags(), present_writable());
    assert!(!entry.is_unused());
    assert!(!entry.is_huge());
    let read_only = PageTableEntry::new(frame, PageTableFlags { present: true, writable: false });
    assert_eq!(read_only.bits, 0xb8001);
    assert!(PageTableEntry { bits: 0 }.is_unused());
    assert!(PageTableEntry { bits: 0x83 }.is_huge());
    assert_eq!(
        PageTableEntry { bits: 0x8000_0000_dead_b067 }.frame(),
        PhysFrame { start_address: 0xdead_b000 }
    );
}

#[test]
fn mapping_creates_three_tables_and_the_leaf() {
    let regions = usable(0x10_0000, 0x10_8000);
    let mut frames = BootInfoFrameAllocator::init(&regions);
    let mut table = fresh_table();
    let page = Page::containing_address(0x4444_4444_0000);
    let frame = PhysFrame::containing_address(0xb8000);
    assert_eq!(table.translate_page(page), None);
    assert_eq!(table.map_to(page, frame, present_writable(), &mut frames), Ok(()));
    assert_eq!(table.translate_page(page), Some((frame, present_writable())));
    assert_eq!(frames.next_index(), 3);
    assert_eq!(table.level_4_table_address(), OFFSET + ROOT);

    let memory = table.into_memory();
    assert_eq!(memory.invalidations().as_slice(), &[page]);
    let p3 = memory.read_slot(OFFSET + ROOT, page.p4_index());
    assert_eq!(p3, 0x10_0000 | 3);
    let p2 = memory.read_slot(OFFSET + 0x10_0000, page.p3_index());
    assert_eq!(p2, 0x10_1000 | 3);
    let p1 = memory.read_slot(OFFSET + 0x10_1000, page.p2_index());
    assert_eq!(p1, 0x10_2000 | 3);
    assert_eq!(memory.read_slot(OFFSET + 0x10_2000, page.p1_index()), 0xb8003);
    assert_eq!(memory.read_slot(OFFSET + 0x10_2000, page.p1_index() + 1), 0);
}

#[test]
fn mapping_again_without_unmapping_is_rejected() {
    let regions = usable(0x10_0000, 0x10_8000);
    let mut frames = BootInfoFrameAllocator::init(&regions);
    let mut table = fresh_table();
    let page = Page::containing_address(0x4444_4444_0000);
    let first = PhysFrame::containing_address(0xb8000);
    let second = PhysFrame::containing_address(0xc0000);
    assert_eq!(table.map_to(page, first, present_writable(), &mut frames), Ok(()));
    assert_eq!(
        table.map_to(page, second, present_writable(), &mut frames),
        Err(MapToError::PageAlreadyMapped(first))
    );
    assert_eq!(table.translate_page(page), Some((first, present_writable())));
    assert_eq!(frames.next_index(), 3);
    assert_eq!(table.memory_ref().invalidations().len(), 1);
    assert_eq!(
        table.map_to(page, first, present_writable(), &mut frames),
        Err(MapToError::PageAlreadyMapped(first))
    );
}

#[test]
fn neighbouring_pages_share_the_tables() {
    let regions = usable(0x10_0000, 0x10_8000);
    let mut frames = BootInfoFrameAllocator::init(&regions);
    let mut table = fresh_table();
    let a = Page::containing_address(0x4444_4444_0000);
    let b = Page::containing_address(0x4444_4444_1000);
    let far = Page::containing_address(0xffff_8000_0000_0000);
    let fa = PhysFrame::containing_address(0x20_0000);
    let fb = PhysFrame::containing_address(0x20_1000);
    let read_only = PageTableFlags { present: true, writable: false };
    assert_eq!(table.map_to(a, fa, present_writable(), &mut frames), Ok(()));
    assert_eq!(frames.next_index(), 3);
    assert_eq!(table.map_to(b, fb, read_only, &mut frames), Ok(()));
    assert_eq!(frames.next_index(), 3);
    assert_eq!(table.map_to(far, fa, present_writable(), &mut frames), Ok(()));
    assert_eq!(frames.next_index(), 6);
    assert_eq!(table.translate_page(a), Some((fa, present_writable())));
    assert_eq!(table.translate_page(b), Some((fb, read_only)));
    assert_eq!(table.translate_page(far), Some((fa, present_writable())));
    assert_eq!(table.translate_page(Page::containing_address(0x4444_4444_2000)), None);
    assert_eq!(table.memory_ref().invalidations().as_slice(), &[a, b, far]);
}

#[test]
fn mapping_fails_when_the_source_runs_out_of_frames() {
    let page = Page::containing_address(0x4444_4444_0000);
    let frame = PhysFrame::containing_address(0xb8000);

    let mut table = fresh_table();
    let mut none = EmptyFrameAllocator;
    assert_eq!(
        table.map_to(page, frame, present_writable(), &mut none),
        Err(MapToError::FrameAllocationFailed)
    );
    assert_eq!(table.translate_page(page), None);

    let regions = usable(0x10_0000, 0x10_2000);
    let mut two = BootInfoFrameAllocator::init(&regions);
    assert_eq!(
        table.map_to(page, frame, present_writable(), &mut two),
        Err(MapToError::FrameAllocationFailed)
    );
    assert_eq!(two.allocate_frame(), None);
    assert_eq!(table.translate_page(page), None);
    assert!(table.memory_ref().invalidations().is_empty());

    let more = usable(0x20_0000, 0x20_1000);
    let mut one = BootInfoFrameAllocator::init(&more);
    assert_eq!(table.map_to(page, frame, present_writable(), &mut one), Ok(()));
    assert_eq!(one.allocate_frame(), None);
    assert_eq!(table.translate_page(page), Some((frame, present_writable())));
}

#[test]
fn a_huge_page_above_blocks_the_mapping() {
    let page = Page::containing_address(0x4444_4444_0000);
    let mut memory = HostMemory::new();
    memory.write_slot(OFFSET + ROOT, page.p4_index(), 0x4000_0000 | 0x83);
    let mut table = init(memory, OFFSET, PhysFrame::containing_address(ROOT));
    let regions = usable(0x10_0000, 0x10_8000);
    let mut frames = BootInfoFrameAllocator::init(&regions);
    assert_eq!(
        table.map_to(page, PhysFrame::containing_address(0xb8000), present_writable(), &mut frames),
        Err(MapToError::ParentEntryHugePage)
    );
    assert_eq!(frames.next_index(), 0);
    assert_eq!(table.translate_page(page), None);
}

#[test]
fn an_entry_without_a_bit_counts_as_unused() {
    let regions = usable(0x10_0000, 0x10_8000);
    let mut frames = BootInfoFrameAllocator::init(&regions);
    let mut table = fresh_table();
    let page = Page::containing_address(0x2000);
    let nothing = PageTableFlags { present: false, writable: false };
    let zero = PhysFrame::containing_address(0);
    assert_eq!(table.map_to(page, zero, nothing, &mut frames), Ok(()));
    assert_eq!(table.translate_page(page), None);
    let frame = PhysFrame::containing_address(0x5000);
    assert_eq!(table.map_to(page, frame, nothing, &mut frames), Ok(()));
    assert_eq!(table.translate_page(page), Some((frame, nothing)));
    assert_eq!(
        table.map_to(page, zero, present_writable(), &mut frames),
        Err(MapToError::PageAlreadyMapped(frame))
    );
}

#[test]
fn example_mapping_points_at_the_display_memory() {
    let regions = usable(0x10_0000, 0x10_8000);
    let mut frames = BootInfoFrameAllocator::init(&regions);
    let mut table = fresh_table();
    let page = Page::containing_address(0);
    assert_eq!(create_example_mapping(page, &mut table, &mut frames), Ok(()));
    assert_eq!(
        table.translate_page(page),
        Some((PhysFrame { start_address: 0xb8000 }, present_writable()))
    );
    assert_eq!(
        create_example_mapping(page, &mut table, &mut frames),
        Err(MapToError::PageAlreadyMapped(PhysFrame { start_address: 0xb8000 }))
    );
}

#[test]
fn host_memory_reads_zero_until_written() {
    let mut memory = HostMemory::new();
    assert_eq!(memory.read_slot(0x5000, 7), 0);
    memory.write_slot(0x5000, 7, 0xabcd);
    memory.write_slot(0x6000, 7, 0x1234);
    memory.write_slot(0x5000, 8, 0x9999);
    assert_eq!(memory.read_slot(0x5000, 7), 0xabcd);
    assert_eq!(memory.read_slot(0x5000, 8), 0x9999);
    assert_eq!(memory.read_slot(0x6000, 7), 0x1234);
    assert_eq!(memory.read_slot(0x6000, 8), 0);
    memory.write_slot(0x5000, 7, 1);
    assert_eq!(memory.read_slot(0x5000, 7), 1);
    assert_eq!(memory.read_slot(0x6000, 7), 0x1234);
    let page = Page::containing_address(0x7000);
    memory.invalidate(page);
    assert_eq!(memory.invalidations().as_slice(), &[page]);
    assert_eq!(memory.read_slot(0x5000, 7), 1);
}
