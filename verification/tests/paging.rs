use ros::memory::address_space::{AddressSpace, MapError, SpaceError, TlbFlush};
use ros::memory::frame_allocator::{FrameAllocator, MemoryRegion, RegionKind};
use ros::memory::page_table::{
    index_at, PageFlags, PageTableEntry, ADDRESS_MASK, FLAG_HUGE_PAGE, FLAG_NO_EXECUTE,
    FLAG_PRESENT, FLAG_USER_ACCESSIBLE, FLAG_WRITABLE,
};
use ros::memory::paging::{
    address_under, entry_address, walk_step, PhysicalMemory, WalkStep,
};
use ros::memory::{Page, PhysFrame};
use x86_64::structures::paging::PageTableFlags;
use x86_64::VirtAddr;

const RW: PageFlags = PageFlags { writable: true, user_accessible: false, no_execute: false };

fn frame(number: u64) -> PhysFrame {
    PhysFrame::from_number(number).unwrap()
}

fn page(addr: u64) -> Page {
    Page::containing_address(addr).unwrap()
}

fn space_with(usable: u64) -> AddressSpace {
    let map = vec![
        MemoryRegion { start_frame: 0, end_frame: 2, kind: RegionKind::Reserved },
        MemoryRegion { start_frame: 2, end_frame: 2 + usable, kind: RegionKind::Usable },
    ];
    let allocator = FrameAllocator::init(map).unwrap();
    match AddressSpace::new(PhysicalMemory::new(64), allocator) {
        Ok(space) => space,
        Err(_) => panic!("no address space"),
    }
}

#[test]
fn flag_bits_stand_where_the_hardware_reads_them() {
    assert_eq!(FLAG_PRESENT, 1);
    assert_eq!(FLAG_WRITABLE, 1 << 1);
    assert_eq!(FLAG_USER_ACCESSIBLE, 1 << 2);
    assert_eq!(FLAG_HUGE_PAGE, 1 << 7);
    assert_eq!(FLAG_NO_EXECUTE, 1 << 63);
    assert_eq!(ADDRESS_MASK, 0x000f_ffff_ffff_f000);
    let none = PageFlags { writable: false, user_accessible: false, no_execute: false };
    assert_eq!(none.bits(), 1);
    assert_eq!(RW.bits(), 3);
    let all = PageFlags { writable: true, user_accessible: true, no_execute: true };
    assert_eq!(all.bits(), 0x8000_0000_0000_0007);
}

#[test]
fn flag_bits_agree_with_the_x86_64_crate() {
    assert_eq!(FLAG_PRESENT, PageTableFlags::PRESENT.bits());
    assert_eq!(FLAG_WRITABLE, PageTableFlags::WRITABLE.bits());
    assert_eq!(FLAG_USER_ACCESSIBLE, PageTableFlags::USER_ACCESSIBLE.bits());
    assert_eq!(FLAG_HUGE_PAGE, PageTableFlags::HUGE_PAGE.bits());
    assert_eq!(FLAG_NO_EXECUTE, PageTableFlags::NO_EXECUTE.bits());
    let all = PageFlags { writable: true, user_accessible: true, no_execute: true };
    let theirs = PageTableFlags::PRESENT
        | PageTableFlags::WRITABLE
        | PageTableFlags::USER_ACCESSIBLE
        | PageTableFlags::NO_EXECUTE;
    assert_eq!(all.bits(), theirs.bits());
}

#[test]
fn leaf_entry_holds_frame_and_flags() {
    let flags = PageFlags { writable: true, user_accessible: false, no_execute: true };
    let entry = PageTableEntry::leaf(frame(0x12345), flags);
    assert_eq!(entry.bits, 0x8000_0000_1234_5003);
    assert!(entry.is_present());
    assert!(!entry.is_huge());
    assert_eq!(entry.frame().number(), 0x12345);
    assert_eq!(entry.flags(), flags);
}

#[test]
fn table_entry_is_present_writable_and_user_accessible() {
    let entry = PageTableEntry::table(frame(7));
    assert_eq!(entry.bits, 0x7007);
    assert!(entry.is_present());
    assert!(!entry.is_huge());
    assert_eq!(entry.frame().number(), 7);
}

#[test]
fn unused_entry_is_zero() {
    let entry = PageTableEntry::unused();
    assert_eq!(entry.bits, 0);
    assert!(!entry.is_present());
}

#[test]
fn entry_frame_ignores_flag_bits() {
    let entry = PageTableEntry { bits: 0xfff0_0000_0000_0fff };
    assert_eq!(entry.frame().number(), 0);
    let entry = PageTableEntry { bits: 0xffff_ffff_ffff_ffff };
    assert_eq!(entry.frame().number(), (1 << 40) - 1);
    assert!(entry.is_huge());
}

#[test]
fn indices_are_the_four_nine_bit_fields() {
    let addr: u64 = 0x4444_4444_0000;
    assert_eq!(index_at(addr, 4), 0x88);
    assert_eq!(index_at(addr, 3), 0x111);
    assert_eq!(index_at(addr, 2), 0x22);
    assert_eq!(index_at(addr, 1), 0x40);
    assert_eq!(index_at(0xffff_ffff_ffff_ffff, 4), 511);
    assert_eq!(index_at(0xffff_ffff_ffff_ffff, 1), 511);
    assert_eq!(index_at(0, 1), 0);
}

#[test]
fn indices_agree_with_the_x86_64_crate() {
    for addr in [0u64, 0x1000, 0x4444_4444_0000, 0x7fff_ffff_f000, 0xffff_8000_0012_3000] {
        let theirs = VirtAddr::new(addr);
        assert_eq!(index_at(addr, 4), usize::from(theirs.p4_index()));
        assert_eq!(index_at(addr, 3), usize::from(theirs.p3_index()));
        assert_eq!(index_at(addr, 2), usize::from(theirs.p2_index()));
        assert_eq!(index_at(addr, 1), usize::from(theirs.p1_index()));
    }
}

#[test]
fn memory_reads_back_what_was_written() {
    let mut memory = PhysicalMemory::new(4);
    assert_eq!(memory.frame_count(), 4);
    assert!(memory.holds(frame(3)));
    assert!(!memory.holds(frame(4)));
    let entry = PageTableEntry { bits: 0xdead_beef };
    assert!(memory.write(frame(2), 511, entry));
    assert_eq!(memory.read(frame(2), 511), Some(entry));
    assert_eq!(memory.read(frame(2), 510), Some(PageTableEntry { bits: 0 }));
    assert_eq!(memory.read(frame(3), 0), Some(PageTableEntry { bits: 0 }));
    assert!(memory.zero_frame(frame(2)));
    assert_eq!(memory.read(frame(2), 511), Some(PageTableEntry { bits: 0 }));
}

#[test]
fn memory_refuses_what_it_does_not_hold() {
    let mut memory = PhysicalMemory::new(4);
    assert_eq!(memory.read(frame(4), 0), None);
    assert_eq!(memory.read(frame(0), 512), None);
    assert!(!memory.write(frame(4), 0, PageTableEntry { bits: 1 }));
    assert!(!memory.write(frame(0), 512, PageTableEntry { bits: 1 }));
    assert!(!memory.zero_frame(frame(4)));
}

#[test]
fn translate_walks_four_levels_by_hand() {
    let mut memory = PhysicalMemory::new(8);
    let addr: u64 = 0x4444_4444_0abc;
    memory.write(frame(1), 0x88, PageTableEntry::table(frame(2)));
    memory.write(frame(2), 0x111, PageTableEntry::table(frame(3)));
    memory.write(frame(3), 0x22, PageTableEntry::table(frame(4)));
    memory.write(frame(4), 0x40, PageTableEntry::leaf(frame(0x99), RW));
    assert_eq!(memory.translate(frame(1), addr), Some(0x99abc));
    assert_eq!(memory.translate(frame(1), addr + 0x1000), None);
    assert_eq!(memory.translate(frame(2), addr), None);
}

#[test]
fn translate_stops_at_huge_pages() {
    let mut memory = PhysicalMemory::new(8);
    memory.write(frame(1), 0, PageTableEntry::table(frame(2)));
    memory.write(frame(2), 1, PageTableEntry { bits: 0x1_4000_0000 | 0x83 });
    memory.write(frame(2), 0, PageTableEntry::table(frame(3)));
    memory.write(frame(3), 5, PageTableEntry { bits: 0x2_0060_0000 | 0x83 });
    assert_eq!(memory.translate(frame(1), 0x4000_0000 + 0x123_4567), Some(0x1_4000_0000 + 0x123_4567));
    assert_eq!(memory.translate(frame(1), 5 * 0x20_0000 + 0x1_2345), Some(0x2_0060_0000 + 0x1_2345));
    memory.write(frame(1), 3, PageTableEntry { bits: 0x5000 | 0x83 });
    assert_eq!(memory.translate(frame(1), 3 << 39), None);
}

#[test]
fn translate_refuses_addresses_that_are_not_canonical() {
    let mut memory = PhysicalMemory::new(8);
    memory.write(frame(1), 0, PageTableEntry::table(frame(2)));
    memory.write(frame(2), 0, PageTableEntry::table(frame(3)));
    memory.write(frame(3), 0, PageTableEntry::table(frame(4)));
    memory.write(frame(4), 0, PageTableEntry::leaf(frame(6), RW));
    assert_eq!(memory.translate(frame(1), 0x123), Some(0x6123));
    assert_eq!(memory.translate(frame(1), 0x0001_0000_0000_0123), None);
}

#[test]
fn translate_treats_tables_outside_memory_as_unmapped() {
    let mut memory = PhysicalMemory::new(8);
    memory.write(frame(1), 0, PageTableEntry::table(frame(100)));
    assert_eq!(memory.translate(frame(1), 0), None);
    assert_eq!(memory.translate(frame(9), 0), None);
}

#[test]
fn a_new_address_space_maps_nothing() {
    let space = space_with(8);
    for addr in [0u64, 0x1000, 0x4444_4444_0000, 0xffff_8000_0000_0000, 0xffff_ffff_ffff_ffff] {
        assert_eq!(space.translate(addr), None);
    }
}

#[test]
fn a_mapped_page_translates_at_every_offset() {
    let mut space = space_with(8);
    let target = frame(40);
    assert_eq!(space.map_page(page(0x4444_4444_0000), target, RW), Ok(TlbFlush::NotNeeded));
    for offset in [0u64, 1, 8, 0x7ff, 0xffe, 0xfff] {
        assert_eq!(space.translate(0x4444_4444_0000 + offset), Some(40 * 4096 + offset));
    }
    assert_eq!(space.translate(0x4444_4443_ffff), None);
    assert_eq!(space.translate(0x4444_4444_1000), None);
    assert_eq!(space.translate(0), None);
}

#[test]
fn mapping_the_first_page_takes_three_tables() {
    let mut space = space_with(8);
    assert!(space.map_page(page(0x4444_4444_0000), frame(40), RW).is_ok());
    assert_eq!(space.allocate_frame().unwrap().number(), 6);
    assert!(space.map_page(page(0x4444_4444_1000), frame(41), RW).is_ok());
    assert_eq!(space.allocate_frame().unwrap().number(), 7);
    assert!(space.map_page(page(0x4444_4464_0000), frame(42), RW).is_ok());
    assert_eq!(space.allocate_frame().unwrap().number(), 9);
}

#[test]
fn mapping_leaves_other_pages_as_they_were() {
    let mut space = space_with(16);
    let pages = [0x1000u64, 0x20_0000, 0x4000_0000, 0x80_0000_0000, 0xffff_ffff_ffff_f000];
    for (i, base) in pages.iter().enumerate() {
        assert!(space.map_page(page(*base), frame(30 + i as u64), RW).is_ok());
        for (j, other) in pages.iter().enumerate() {
            let expected = if j <= i { Some((30 + j as u64) * 4096 + 5) } else { None };
            assert_eq!(space.translate(other + 5), expected);
        }
    }
}

#[test]
fn remapping_a_page_replaces_it_and_asks_for_a_flush() {
    let mut space = space_with(8);
    let p = page(0x7000);
    assert_eq!(space.map_page(p, frame(20), RW), Ok(TlbFlush::NotNeeded));
    assert_eq!(space.map_page(p, frame(21), RW), Ok(TlbFlush::Page(p)));
    assert_eq!(space.translate(0x7010), Some(21 * 4096 + 0x10));
    assert_eq!(space.map_page(page(0x8000), frame(22), RW), Ok(TlbFlush::NotNeeded));
}

#[test]
fn mapping_fails_when_no_frame_is_left_for_a_table() {
    let mut space = space_with(3);
    assert_eq!(
        space.map_page(page(0x4444_4444_0000), frame(40), RW),
        Err(MapError::FrameAllocationFailed)
    );
    assert_eq!(space.translate(0x4444_4444_0000), None);
    assert!(space.allocate_frame().is_none());
}

#[test]
fn mapping_needs_no_frame_when_the_tables_exist() {
    let mut space = space_with(4);
    assert!(space.map_page(page(0x1000), frame(40), RW).is_ok());
    assert!(space.allocate_frame().is_none());
    assert!(space.map_page(page(0x2000), frame(41), RW).is_ok());
    assert_eq!(space.translate(0x2fff), Some(41 * 4096 + 0xfff));
    assert_eq!(space.map_page(page(0x20_0000), frame(42), RW), Err(MapError::FrameAllocationFailed));
}

#[test]
fn address_space_needs_a_frame_for_its_root() {
    let allocator = FrameAllocator::init(Vec::new()).unwrap();
    match AddressSpace::new(PhysicalMemory::new(4), allocator) {
        Err(e) => assert_eq!(e, SpaceError::OutOfFrames),
        Ok(_) => panic!("address space without a root"),
    }
}

#[test]
fn address_space_refuses_frames_outside_memory() {
    let map = vec![MemoryRegion { start_frame: 2, end_frame: 5, kind: RegionKind::Usable }];
    let allocator = FrameAllocator::init(map).unwrap();
    match AddressSpace::new(PhysicalMemory::new(4), allocator) {
        Err(e) => assert_eq!(e, SpaceError::RegionOutsideMemory),
        Ok(_) => panic!("address space over missing memory"),
    }
}

#[test]
fn address_space_clears_the_frame_of_its_root() {
    let mut memory = PhysicalMemory::new(4);
    memory.write(frame(2), 0, PageTableEntry::leaf(frame(3), RW));
    let map = vec![MemoryRegion { start_frame: 2, end_frame: 4, kind: RegionKind::Usable }];
    let allocator = FrameAllocator::init(map).unwrap();
    match AddressSpace::new(memory, allocator) {
        Ok(space) => assert_eq!(space.translate(0), None),
        Err(_) => panic!("no address space"),
    }
}

#[test]
fn walk_step_decides_by_present_and_huge_bits() {
    let addr: u64 = 0x1234_5678;
    assert_eq!(walk_step(PageTableEntry { bits: 0x5000 }, 4, addr), WalkStep::Unmapped);
    assert_eq!(walk_step(PageTableEntry { bits: 0x5001 }, 4, addr), WalkStep::Descend(frame(5)));
    assert_eq!(walk_step(PageTableEntry { bits: 0x5081 }, 4, addr), WalkStep::Unmapped);
    assert_eq!(walk_step(PageTableEntry { bits: 0x5001 }, 1, addr), WalkStep::Mapped(0x5678));
    assert_eq!(walk_step(PageTableEntry { bits: 0x5081 }, 1, addr), WalkStep::Mapped(0x5678));
    assert_eq!(
        walk_step(PageTableEntry { bits: 0x4000_0081 }, 3, addr),
        WalkStep::Mapped(0x5234_5678)
    );
    assert_eq!(
        walk_step(PageTableEntry { bits: 0x4020_0081 }, 2, addr),
        WalkStep::Mapped(0x4034_5678)
    );
    assert_eq!(walk_step(PageTableEntry { bits: 0x4020_0001 }, 2, addr), WalkStep::Descend(frame(0x40200)));
}

#[test]
fn entries_stand_in_the_direct_view_of_physical_memory() {
    let offset: u64 = 0xffff_8000_0000_0000;
    assert_eq!(entry_address(offset, frame(3), 0), Some(0xffff_8000_0000_3000));
    assert_eq!(entry_address(offset, frame(3), 511), Some(0xffff_8000_0000_3ff8));
    assert_eq!(entry_address(offset, frame(3), 512), None);
    assert_eq!(entry_address(u64::MAX - 0x3000, frame(3), 0), Some(u64::MAX));
    assert_eq!(entry_address(u64::MAX - 0x3000, frame(3), 1), None);
}

#[test]
fn lookup_reads_frame_and_flags_off_the_tables() {
    let mut space = space_with(8);
    let read_only = PageFlags { writable: false, user_accessible: true, no_execute: true };
    let p = page(0xffff_8000_0000_3000);
    assert_eq!(space.lookup(p), None);
    assert!(space.map_page(p, frame(50), read_only).is_ok());
    let found = space.lookup(p).unwrap();
    assert_eq!(found.frame.number(), 50);
    assert_eq!(found.flags, read_only);
    assert_eq!(space.lookup(page(0xffff_8000_0000_4000)), None);
    assert!(space.map_page(p, frame(51), RW).is_ok());
    let found = space.lookup(p).unwrap();
    assert_eq!(found.frame.number(), 51);
    assert_eq!(found.flags, RW);
}

#[test]
fn resolve_returns_the_entry_and_its_level() {
    let mut memory = PhysicalMemory::new(8);
    let huge = PageTableEntry { bits: 0x4000_0000 | 0x83 };
    let leaf = PageTableEntry::leaf(frame(6), RW);
    memory.write(frame(1), 0, PageTableEntry::table(frame(2)));
    memory.write(frame(2), 1, huge);
    memory.write(frame(2), 0, PageTableEntry::table(frame(3)));
    memory.write(frame(3), 0, PageTableEntry::table(frame(4)));
    memory.write(frame(4), 2, leaf);
    assert_eq!(memory.resolve(frame(1), 0x4000_0000), Some((huge, 3)));
    assert_eq!(memory.resolve(frame(1), 0x2abc), Some((leaf, 1)));
    assert_eq!(memory.resolve(frame(1), 0x3000), None);
    assert_eq!(memory.resolve(frame(7), 0), None);
}

#[test]
fn address_under_an_entry_keeps_the_offset_of_its_level() {
    let entry = PageTableEntry { bits: 0x8000_0007_ffff_f0e7 };
    let addr: u64 = 0xffff_ffff_ffff_ffff;
    assert_eq!(address_under(entry, 1, addr), 0x0000_0007_ffff_ffff);
    assert_eq!(address_under(entry, 2, addr), 0x0000_0007_ffff_ffff);
    assert_eq!(address_under(entry, 3, addr), 0x0000_0007_ffff_ffff);
    let entry = PageTableEntry { bits: 0x0000_0007_c000_0081 };
    assert_eq!(address_under(entry, 1, 0x1234_5678), 0x0000_0007_c000_0678);
    assert_eq!(address_under(entry, 2, 0x1234_5678), 0x0000_0007_c014_5678);
    assert_eq!(address_under(entry, 3, 0x1234_5678), 0x0000_0007_d234_5678);
}
