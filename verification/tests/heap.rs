use ros::allocator::{
    init_heap, power_of_two, size_class, Heap, HeapError, CLASS_COUNT, HEAP_SIZE, HEAP_START,
    MAX_CLASS_SIZE,
};
use ros::memory::address_space::AddressSpace;
use ros::memory::frame_allocator::{FrameAllocator, MemoryRegion, RegionKind};
use ros::memory::paging::PhysicalMemory;

fn space_with(usable: u64) -> AddressSpace {
    let map = vec![
        MemoryRegion { start_frame: 0, end_frame: 2, kind: RegionKind::Kernel },
        MemoryRegion { start_frame: 2, end_frame: 2 + usable, kind: RegionKind::Usable },
    ];
    let allocator = FrameAllocator::init(map).unwrap();
    match AddressSpace::new(PhysicalMemory::new(64), allocator) {
        Ok(space) => space,
        Err(_) => panic!("no address space"),
    }
}

fn heap(start: u64, size: u64) -> Heap {
    match Heap::new(start, size) {
        Some(heap) => heap,
        None => panic!("no heap"),
    }
}

#[test]
fn heap_constants() {
    assert_eq!(HEAP_START, 0x4444_4444_0000);
    assert_eq!(HEAP_SIZE, 100 * 1024);
    assert_eq!(CLASS_COUNT, 9);
    assert_eq!(MAX_CLASS_SIZE, 2048);
}

#[test]
fn size_classes_are_powers_of_two_from_8_to_2048() {
    assert_eq!(size_class(1, 1), Some((0, 8)));
    assert_eq!(size_class(0, 1), Some((0, 8)));
    assert_eq!(size_class(8, 8), Some((0, 8)));
    assert_eq!(size_class(9, 1), Some((1, 16)));
    assert_eq!(size_class(17, 2), Some((2, 32)));
    assert_eq!(size_class(33, 64), Some((3, 64)));
    assert_eq!(size_class(100, 1), Some((4, 128)));
    assert_eq!(size_class(1, 256), Some((5, 256)));
    assert_eq!(size_class(257, 8), Some((6, 512)));
    assert_eq!(size_class(1024, 1024), Some((7, 1024)));
    assert_eq!(size_class(1025, 1), Some((8, 2048)));
    assert_eq!(size_class(2048, 2048), Some((8, 2048)));
    assert_eq!(size_class(2049, 1), None);
    assert_eq!(size_class(8, 4096), None);
    assert_eq!(size_class(u64::MAX, 1), None);
}

#[test]
fn powers_of_two_are_recognised() {
    for shift in 0..64 {
        assert!(power_of_two(1u64 << shift));
    }
    assert!(!power_of_two(0));
    assert!(!power_of_two(3));
    assert!(!power_of_two(6));
    assert!(!power_of_two(100));
    assert!(!power_of_two(u64::MAX));
}

#[test]
fn heap_range_must_end_within_the_address_space() {
    assert!(Heap::new(u64::MAX, 1).is_none());
    assert!(Heap::new(u64::MAX - 4096, 4097).is_none());
    assert!(Heap::new(u64::MAX - 4096, 4096).is_some());
    assert!(Heap::new(0, 0).is_some());
}

#[test]
fn a_freed_block_is_used_again() {
    let mut heap = heap(HEAP_START, 128);
    let mut bytes = vec![0u8; 128];
    let first = heap.allocate(100, 1).unwrap();
    assert!(HEAP_START <= first && first + 100 <= HEAP_START + 128);
    let at = (first - HEAP_START) as usize;
    for i in 0..100 {
        bytes[at + i] = (i as u8) ^ 0x5a;
    }
    for i in 0..100 {
        assert_eq!(bytes[at + i], (i as u8) ^ 0x5a);
    }
    assert_eq!(heap.allocate(100, 1), None);
    heap.dealloc(first, 100, 1);
    let second = heap.allocate(100, 1).unwrap();
    assert_eq!(second, first);
    assert_eq!(heap.allocate(100, 1), None);
}

#[test]
fn blocks_come_from_the_first_hole_that_fits() {
    let mut heap = heap(0x1000, 0x1000);
    assert_eq!(heap.allocate(100, 1), Some(0x1000));
    assert_eq!(heap.allocate(100, 1), Some(0x1080));
    assert_eq!(heap.allocate(8, 8), Some(0x1100));
    assert_eq!(heap.allocate(3000, 1), Some(0x1108));
    assert_eq!(heap.allocate(512, 512), Some(0x1e00));
    assert_eq!(heap.allocate(512, 1), None);
    heap.dealloc(0x1e00, 512, 512);
    assert_eq!(heap.allocate(300, 4), Some(0x1e00));
    heap.dealloc(0x1108, 3000, 1);
    assert_eq!(heap.allocate(2100, 4), Some(0x1108));
    assert_eq!(heap.allocate(900, 1), None);
    assert_eq!(heap.allocate(8, 1), Some(0x1cc0));
}

#[test]
fn the_part_before_an_aligned_block_stays_free() {
    let mut heap = heap(0x1008, 0x1000);
    assert_eq!(heap.allocate(1024, 1024), Some(0x1400));
    assert_eq!(heap.allocate(8, 1), Some(0x1800));
    assert_eq!(heap.allocate(1024, 8), Some(0x1c00));
    assert_eq!(heap.allocate(1000, 8), None);
    assert_eq!(heap.allocate(512, 8), Some(0x1200));
    assert_eq!(heap.allocate(512, 8), Some(0x1a00));
    assert_eq!(heap.allocate(512, 8), None);
    assert_eq!(heap.allocate(256, 8), Some(0x1100));
}

#[test]
fn free_lists_hand_out_the_block_freed_last() {
    let mut heap = heap(0x8000, 0x100);
    let a = heap.allocate(8, 1).unwrap();
    let b = heap.allocate(8, 1).unwrap();
    let c = heap.allocate(8, 1).unwrap();
    assert_eq!((a, b, c), (0x8000, 0x8008, 0x8010));
    heap.dealloc(a, 8, 1);
    heap.dealloc(b, 8, 1);
    heap.dealloc(c, 8, 1);
    assert_eq!(heap.allocate(5, 2), Some(c));
    assert_eq!(heap.allocate(5, 2), Some(b));
    assert_eq!(heap.allocate(5, 2), Some(a));
    assert_eq!(heap.allocate(5, 2), Some(0x8018));
}

#[test]
fn a_freed_large_block_is_used_again() {
    let mut heap = heap(0x10_0000, 8192);
    let big = heap.allocate(5000, 16).unwrap();
    assert_eq!(big, 0x10_0000);
    assert_eq!(heap.allocate(5000, 16), None);
    heap.dealloc(big, 5000, 16);
    assert_eq!(heap.allocate(5000, 16), Some(big));
}

#[test]
fn requests_that_cannot_be_served_are_refused() {
    let mut heap = heap(0x1000, 0x1000);
    assert_eq!(heap.allocate(0, 1), None);
    assert_eq!(heap.allocate(8, 0), None);
    assert_eq!(heap.allocate(8, 3), None);
    assert_eq!(heap.allocate(8, 24), None);
    assert_eq!(heap.allocate(0x1001, 1), None);
    assert_eq!(heap.allocate(16, 8192), None);
    assert_eq!(heap.allocate(u64::MAX, 1), None);
    assert_eq!(heap.allocate(4096, 4096), Some(0x1000));
    assert_eq!(heap.allocate(1, 1), None);
}

#[test]
fn an_empty_heap_has_no_block() {
    let mut heap = heap(0x1000, 0);
    assert_eq!(heap.allocate(1, 1), None);
}

#[test]
fn live_blocks_are_aligned_inside_the_heap_and_apart() {
    let mut heap = heap(0x4000_0000, 16 * 1024);
    let requests: [(u64, u64); 10] = [
        (100, 1),
        (8, 8),
        (3000, 64),
        (17, 16),
        (2048, 2048),
        (1, 1),
        (700, 4),
        (4096, 4096),
        (64, 64),
        (9, 2),
    ];
    let mut live: Vec<(u64, u64)> = Vec::new();
    for (size, align) in requests {
        if let Some(ptr) = heap.allocate(size, align) {
            assert_eq!(ptr % align, 0);
            assert!(0x4000_0000 <= ptr && ptr + size <= 0x4000_0000 + 16 * 1024);
            for (other, other_size) in &live {
                assert!(ptr + size <= *other || other + other_size <= ptr);
            }
            live.push((ptr, size));
        }
    }
    assert!(live.len() >= 8);
}

#[test]
fn init_heap_maps_every_page_to_a_frame_of_its_own() {
    let mut space = space_with(40);
    let heap = init_heap(&mut space, HEAP_START, HEAP_SIZE);
    assert!(heap.is_ok());
    assert_eq!(space.translate(HEAP_START), Some(3 * 4096));
    assert_eq!(space.translate(HEAP_START + 0xfff), Some(3 * 4096 + 0xfff));
    for page in 1..25u64 {
        let addr = HEAP_START + page * 4096 + 7;
        assert_eq!(space.translate(addr), Some((6 + page) * 4096 + 7));
    }
    assert_eq!(space.translate(HEAP_START - 1), None);
    assert_eq!(space.translate(HEAP_START + HEAP_SIZE), None);
    assert_eq!(space.allocate_frame().unwrap().number(), 31);
}

#[test]
fn init_heap_returns_a_heap_with_every_byte_free() {
    let mut space = space_with(40);
    match init_heap(&mut space, HEAP_START, HEAP_SIZE) {
        Ok(mut heap) => {
            assert_eq!(heap.allocate(HEAP_SIZE, 4096), Some(HEAP_START));
            assert_eq!(heap.allocate(1, 1), None);
        }
        Err(_) => panic!("no heap"),
    }
}

#[test]
fn init_heap_covers_a_range_that_is_not_page_aligned() {
    let mut space = space_with(16);
    assert!(init_heap(&mut space, 0x1800, 0x1000).is_ok());
    assert_eq!(space.translate(0x0fff), None);
    assert!(space.translate(0x1000).is_some());
    assert!(space.translate(0x1800).is_some());
    assert!(space.translate(0x27ff).is_some());
    assert!(space.translate(0x2fff).is_some());
    assert_eq!(space.translate(0x3000), None);
}

#[test]
fn init_heap_keeps_what_was_mapped_before() {
    let mut space = space_with(40);
    let page = ros::memory::Page::containing_address(0x4444_4443_f000).unwrap();
    let frame = ros::memory::PhysFrame::from_number(60).unwrap();
    let flags = ros::memory::page_table::PageFlags {
        writable: false,
        user_accessible: false,
        no_execute: true,
    };
    assert!(space.map_page(page, frame, flags).is_ok());
    assert!(init_heap(&mut space, HEAP_START, HEAP_SIZE).is_ok());
    assert_eq!(space.translate(0x4444_4443_f123), Some(60 * 4096 + 0x123));
}

#[test]
fn init_heap_refuses_ranges_that_are_no_heap() {
    let mut space = space_with(16);
    let cases: [(u64, u64); 6] = [
        (HEAP_START, 0),
        (u64::MAX - 10, 100),
        (0x0000_8000_0000_0000, 4096),
        (0x0000_7fff_ffff_f000, 0x2000),
        (0x0000_7fff_ffff_f000, 0xffff_0000_0000_2000),
        (0xffff_7fff_ffff_f000, 4096),
    ];
    for (start, size) in cases {
        match init_heap(&mut space, start, size) {
            Err(e) => assert_eq!(e, HeapError::InvalidRange),
            Ok(_) => panic!("heap over an invalid range"),
        }
    }
    assert_eq!(space.allocate_frame().unwrap().number(), 3);
}

#[test]
fn init_heap_fails_when_frames_run_out() {
    let mut space = space_with(10);
    match init_heap(&mut space, HEAP_START, HEAP_SIZE) {
        Err(e) => assert_eq!(e, HeapError::OutOfFrames),
        Ok(_) => panic!("heap without frames"),
    }
    assert!(space.allocate_frame().is_none());
}

#[test]
fn init_heap_in_the_upper_half() {
    let mut space = space_with(16);
    assert!(init_heap(&mut space, 0xffff_ffff_ffff_e000, 0x1fff).is_ok());
    assert!(space.translate(0xffff_ffff_ffff_e000).is_some());
    assert!(space.translate(0xffff_ffff_ffff_fffe).is_some());
    assert_eq!(space.translate(0xffff_ffff_ffff_d000), None);
}

#[test]
fn init_heap_takes_a_frame_for_each_page_and_each_missing_table() {
    let mut space = space_with(29);
    assert!(init_heap(&mut space, HEAP_START, HEAP_SIZE).is_ok());
    assert!(space.allocate_frame().is_none());
    let mut space = space_with(28);
    match init_heap(&mut space, HEAP_START, HEAP_SIZE) {
        Err(e) => assert_eq!(e, HeapError::OutOfFrames),
        Ok(_) => panic!("heap with a frame too few"),
    }
    let mut space = space_with(40);
    assert!(init_heap(&mut space, 0x1f_f000, 0x2000).is_ok());
    assert_eq!(space.allocate_frame().unwrap().number(), 9);
}
