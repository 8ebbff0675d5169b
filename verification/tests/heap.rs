use ferrix::allocator::{init_heap, HeapRegion, HEAP_PAGES, HEAP_SIZE, HEAP_START};
use ferrix::host_memory::HostMemory;
use ferrix::memory::{init, BootInfoFrameAllocator, EmptyFrameAllocator, FrameAllocator, MemoryRegion, PhysFrame};
use ferrix::paging::{MapToError, OffsetPageTable, Page, PageTableFlags};

const ROOT: u64 = 0x1000;

fn present_writable() -> PageTableFlags {
    PageTableFlags { present: true, writable: true }
}

fn fresh_table() -> OffsetPageTable<HostMemory> {
    init(HostMemory::new(), 0, PhysFrame::containing_address(ROOT))
}

fn heap_page(k: u64) -> Page {
    Page::containing_address(HEAP_START + k * 4096)
}

#[test]
fn heap_constants_describe_the_window() {
    assert_eq!(HEAP_START, 0x4444_4444_0000);
    assert_eq!(HEAP_SIZE, 100 * 1024);
    assert_eq!(HEAP_PAGES, 25);
    assert_eq!((HEAP_START + HEAP_SIZE - 1) / 4096 - HEAP_START / 4096 + 1, HEAP_PAGES);
}

#[test]
fn every_heap_page_is_mapped_present_and_writable() {
    let regions = [MemoryRegion { start: 0x10_0000, end: 0x14_0000, usable: true }];
    let mut frames = BootInfoFrameAllocator::init(&regions);
    let mut table = fresh_table();
    assert_eq!(
        init_heap(&mut table, &mut frames),
        Ok(HeapRegion { start: HEAP_START, size: HEAP_SIZE })
    );
    assert_eq!(frames.next_index(), 28);
    let mut seen: Vec<u64> = Vec::new();
    for k in 0..HEAP_PAGES {
        let (frame, flags) = table.translate_page(heap_page(k)).expect("heap page is mapped");
        assert_eq!(flags, present_writable());
        let position = if k == 0 { 0 } else { 3 + k };
        assert_eq!(frame.start_address(), 0x10_0000 + position * 4096);
        assert!(!seen.contains(&frame.start_address()));
        seen.push(frame.start_address());
    }
    assert_eq!(table.translate_page(heap_page(25)), None);
    assert_eq!(table.translate_page(Page::containing_address(HEAP_START - 4096)), None);
    assert_eq!(table.memory_ref().invalidations().len(), 25);
    assert_eq!(table.memory_ref().invalidations()[0], heap_page(0));
    assert_eq!(table.memory_ref().invalidations()[24], heap_page(24));
}

#[test]
fn every_address_of_the_window_lies_in_a_mapped_page() {
    let regions = [MemoryRegion { start: 0x10_0000, end: 0x14_0000, usable: true }];
    let mut frames = BootInfoFrameAllocator::init(&regions);
    let mut table = fresh_table();
    let region = init_heap(&mut table, &mut frames).expect("enough frames");
    for addr in [region.start, region.start + 8, region.start + 64, region.start + 4096, region.start + region.size - 1] {
        assert!(table.translate_page(Page::containing_address(addr)).is_some());
    }
    assert!(table.translate_page(Page::containing_address(region.start + region.size)).is_none());
}

#[test]
fn heap_provisioning_fails_without_frames() {
    let mut table = fresh_table();
    let mut none = EmptyFrameAllocator;
    assert_eq!(init_heap(&mut table, &mut none), Err(MapToError::FrameAllocationFailed));
    assert_eq!(table.translate_page(heap_page(0)), None);
}

#[test]
fn heap_provisioning_stops_when_frames_run_out_and_keeps_what_it_mapped() {
    let regions = [MemoryRegion { start: 0x10_0000, end: 0x10_a000, usable: true }];
    let mut frames = BootInfoFrameAllocator::init(&regions);
    let mut table = fresh_table();
    assert_eq!(init_heap(&mut table, &mut frames), Err(MapToError::FrameAllocationFailed));
    assert_eq!(frames.allocate_frame(), None);
    for k in 0..7 {
        assert!(table.translate_page(heap_page(k)).is_some());
    }
    for k in 7..HEAP_PAGES {
        assert_eq!(table.translate_page(heap_page(k)), None);
    }
}

#[test]
fn twenty_seven_frames_are_one_too_few() {
    let regions = [MemoryRegion { start: 0x10_0000, end: 0x11_b000, usable: true }];
    let mut frames = BootInfoFrameAllocator::init(&regions);
    let mut table = fresh_table();
    assert_eq!(init_heap(&mut table, &mut frames), Err(MapToError::FrameAllocationFailed));
    let regions = [MemoryRegion { start: 0x20_0000, end: 0x21_c000, usable: true }];
    let mut frames = BootInfoFrameAllocator::init(&regions);
    let mut table = fresh_table();
    assert!(init_heap(&mut table, &mut frames).is_ok());
    assert_eq!(frames.allocate_frame(), None);
}

#[test]
fn heap_provisioning_reports_a_page_that_is_already_mapped() {
    let regions = [MemoryRegion { start: 0x10_0000, end: 0x14_0000, usable: true }];
    let mut frames = BootInfoFrameAllocator::init(&regions);
    let mut table = fresh_table();
    let taken = PhysFrame::containing_address(0xb8000);
    assert_eq!(table.map_to(heap_page(5), taken, present_writable(), &mut frames), Ok(()));
    assert_eq!(init_heap(&mut table, &mut frames), Err(MapToError::PageAlreadyMapped(taken)));
    for k in 0..5 {
        assert!(table.translate_page(heap_page(k)).is_some());
    }
    assert_eq!(table.translate_page(heap_page(5)), Some((taken, present_writable())));
    assert_eq!(table.translate_page(heap_page(6)), None);
}

#[test]
fn provisioning_twice_is_rejected() {
    let regions = [MemoryRegion { start: 0x10_0000, end: 0x14_0000, usable: true }];
    let mut frames = BootInfoFrameAllocator::init(&regions);
    let mut table = fresh_table();
    assert!(init_heap(&mut table, &mut frames).is_ok());
    assert_eq!(
        init_heap(&mut table, &mut frames),
        Err(MapToError::PageAlreadyMapped(PhysFrame { start_address: 0x10_0000 }))
    );
}

#[test]
fn region_tells_objects_inside_from_objects_outside() {
    let region = HeapRegion { start: HEAP_START, size: HEAP_SIZE };
    assert!(region.contains(HEAP_START, 8));
    assert!(region.contains(HEAP_START + 8, 64));
    assert!(region.contains(HEAP_START + 4096, 4096));
    assert!(region.contains(HEAP_START, HEAP_SIZE));
    assert!(region.contains(HEAP_START + HEAP_SIZE, 0));
    assert!(!region.contains(HEAP_START - 1, 8));
    assert!(!region.contains(HEAP_START + HEAP_SIZE - 4, 8));
    assert!(!region.contains(HEAP_START, HEAP_SIZE + 1));
    assert!(!region.contains(HEAP_START + HEAP_SIZE + 1, 0));
    assert!(!region.contains(u64::MAX, 2));
    let top = HeapRegion { start: u64::MAX - 15, size: 16 };
    assert!(top.contains(u64::MAX - 7, 8));
    assert!(!top.contains(u64::MAX - 7, 9));
}

#[test]
fn objects_of_a_heap_lie_inside_the_region_it_was_given() {
    let memory = Vec::leak(vec![std::mem::MaybeUninit::<u8>::uninit(); HEAP_SIZE as usize]);
    let region = HeapRegion { start: memory.as_ptr() as usize as u64, size: memory.len() as u64 };
    let mut heap = linked_list_allocator::Heap::empty();
    heap.init_from_slice(memory);
    let mut seen: Vec<(u64, u64)> = Vec::new();
    for size in [8u64, 64, 4096] {
        let layout = std::alloc::Layout::from_size_align(size as usize, 8).expect("a layout");
        let object = heap.allocate_first_fit(layout).expect("room in the heap");
        let addr = object.as_ptr() as usize as u64;
        assert!(region.contains(addr, size));
        assert!(seen.iter().all(|&(a, s)| a + s <= addr || addr + size <= a));
        seen.push((addr, size));
    }
}
