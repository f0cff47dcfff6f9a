use ros::memory::frame_allocator::{is_valid_memory_map, FrameAllocator, MemoryRegion, RegionKind};
use ros::memory::{Page, PhysFrame, MAX_FRAMES, PAGE_SIZE};

fn region(start_frame: u64, end_frame: u64, kind: RegionKind) -> MemoryRegion {
    MemoryRegion { start_frame, end_frame, kind }
}

fn boot_map() -> Vec<MemoryRegion> {
    vec![
        region(0, 1, RegionKind::Reserved),
        region(1, 4, RegionKind::Usable),
        region(4, 16, RegionKind::Kernel),
        region(16, 20, RegionKind::Bootloader),
        region(20, 22, RegionKind::Usable),
        region(22, 22, RegionKind::Usable),
        region(30, 31, RegionKind::Usable),
    ]
}

#[test]
fn frame_addresses_are_numbers_times_page_size() {
    assert_eq!(PAGE_SIZE, 4096);
    let frame = PhysFrame::from_number(5).unwrap();
    assert_eq!(frame.number(), 5);
    assert_eq!(frame.start_address(), 0x5000);
    let frame = PhysFrame::containing_address(0x5fff).unwrap();
    assert_eq!(frame.number(), 5);
    let frame = PhysFrame::containing_address(0x6000).unwrap();
    assert_eq!(frame.number(), 6);
}

#[test]
fn frames_end_at_the_physical_address_limit() {
    assert_eq!(MAX_FRAMES, 1 << 40);
    assert!(PhysFrame::from_number(MAX_FRAMES - 1).is_some());
    assert!(PhysFrame::from_number(MAX_FRAMES).is_none());
    assert!(PhysFrame::containing_address((1 << 52) - 1).is_some());
    assert!(PhysFrame::containing_address(1 << 52).is_none());
}

#[test]
fn pages_exist_for_canonical_addresses_only() {
    let page = Page::containing_address(0x4444_4444_0123).unwrap();
    assert_eq!(page.start_address(), 0x4444_4444_0000);
    assert!(Page::containing_address(0x0000_7fff_ffff_ffff).is_some());
    assert!(Page::containing_address(0x0000_8000_0000_0000).is_none());
    assert!(Page::containing_address(0xffff_7fff_ffff_ffff).is_none());
    let high = Page::containing_address(0xffff_8000_0000_0fff).unwrap();
    assert_eq!(high.start_address(), 0xffff_8000_0000_0000);
}

#[test]
fn allocator_hands_out_usable_frames_in_map_order() {
    let mut allocator = FrameAllocator::init(boot_map()).unwrap();
    let mut numbers = Vec::new();
    while let Some(frame) = allocator.allocate_frame() {
        numbers.push(frame.number());
    }
    assert_eq!(numbers, vec![1, 2, 3, 20, 21, 30]);
}

#[test]
fn allocated_frames_are_distinct_aligned_and_do_not_overlap() {
    let mut allocator = FrameAllocator::init(boot_map()).unwrap();
    let mut addresses = Vec::new();
    for _ in 0..6 {
        addresses.push(allocator.allocate_frame().unwrap().start_address());
    }
    for (i, a) in addresses.iter().enumerate() {
        assert_eq!(a % 4096, 0);
        for b in addresses.iter().skip(i + 1) {
            assert!(a + 4096 <= *b || b + 4096 <= *a);
        }
    }
    assert!(allocator.allocate_frame().is_none());
    assert!(allocator.allocate_frame().is_none());
}

#[test]
fn allocator_skips_regions_that_are_not_usable() {
    let map = vec![
        region(0, 8, RegionKind::Reserved),
        region(8, 16, RegionKind::Kernel),
        region(16, 24, RegionKind::Bootloader),
    ];
    let mut allocator = FrameAllocator::init(map).unwrap();
    assert!(allocator.allocate_frame().is_none());
}

#[test]
fn allocator_over_an_empty_map_has_no_frame() {
    let mut allocator = FrameAllocator::init(Vec::new()).unwrap();
    assert!(allocator.allocate_frame().is_none());
}

#[test]
fn overlapping_usable_regions_are_refused() {
    let map = vec![region(1, 5, RegionKind::Usable), region(4, 8, RegionKind::Usable)];
    assert!(!is_valid_memory_map(&map));
    assert!(FrameAllocator::init(map).is_none());
}

#[test]
fn usable_region_beyond_the_address_limit_is_refused() {
    let map = vec![region(MAX_FRAMES - 1, MAX_FRAMES + 1, RegionKind::Usable)];
    assert!(!is_valid_memory_map(&map));
    assert!(FrameAllocator::init(map).is_none());
}

#[test]
fn overlap_with_a_reserved_region_is_no_fault_of_the_map() {
    let map = vec![
        region(0, 8, RegionKind::Reserved),
        region(4, 6, RegionKind::Usable),
        region(9, 3, RegionKind::Usable),
        region(MAX_FRAMES, MAX_FRAMES + 5, RegionKind::Kernel),
    ];
    assert!(is_valid_memory_map(&map));
    let mut allocator = FrameAllocator::init(map).unwrap();
    assert_eq!(allocator.allocate_frame().unwrap().number(), 4);
    assert_eq!(allocator.allocate_frame().unwrap().number(), 5);
    assert!(allocator.allocate_frame().is_none());
}

#[test]
fn fits_within_compares_every_usable_frame() {
    let allocator = FrameAllocator::init(boot_map()).unwrap();
    assert!(allocator.fits_within(31));
    assert!(!allocator.fits_within(30));
    assert!(allocator.fits_within(1000));
}
