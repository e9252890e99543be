use minikernel::memory::area_frame_allocator::MemoryArea;
use minikernel::memory::paging::entry::{
    EntryFlags, HUGE_PAGE, NO_EXECUTE, PRESENT, USER_ACCESSIBLE, WRITABLE,
};
use minikernel::memory::paging::table::{Level, MapError, Table};
use minikernel::memory::paging::{ActivePageTable, Page, Unmapped};
use minikernel::memory::{AreaFrameAllocator, Frame, FrameAllocator};

/// Hands out the frames from `next` up to, not including, `limit`, and
/// keeps count.
struct Pool {
    next: u64,
    limit: u64,
    taken: usize,
    returned: Vec<u64>,
}

impl Pool {
    fn new(next: u64, limit: u64) -> Pool {
        Pool { next, limit, taken: 0, returned: Vec::new() }
    }
}

impl FrameAllocator for Pool {
    fn allocate_frame(&mut self) -> Option<Frame> {
        if self.next < self.limit {
            let frame = Frame::from_number(self.next);
            self.next += 1;
            self.taken += 1;
            Some(frame)
        } else {
            None
        }
    }

    fn deallocate_frame(&mut self, frame: Frame) {
        self.returned.push(frame.number());
    }
}

fn flags(bits: u64) -> EntryFlags {
    EntryFlags::from_bits_truncate(bits)
}

fn address(p4: u64, p3: u64, p2: u64, p1: u64, offset: u64) -> u64 {
    let low = (p4 << 39) | (p3 << 30) | (p2 << 21) | (p1 << 12) | offset;
    if p4 >= 256 {
        low | 0xffff_0000_0000_0000
    } else {
        low
    }
}

#[test]
fn nothing_translates_in_a_new_address_space() {
    let table = ActivePageTable::new();
    assert_eq!(table.translate(0), None);
    assert_eq!(table.translate(0x1234_5678), None);
    assert_eq!(table.translate(0xffff_ffff_ffff_ffff), None);
    assert_eq!(table.translate_page(Page::containing_address(0x7fff_ffff_f000)), None);
}

#[test]
fn mapped_address_translates_with_its_offset() {
    let mut table = ActivePageTable::new();
    let mut pool = Pool::new(100, 200);
    let addr = address(3, 4, 5, 6, 0);
    let page = Page::containing_address(addr);
    let result = table.map_to(page, Frame::from_number(0x1234), flags(WRITABLE), &mut pool);
    assert_eq!(result, Ok(()));
    assert_eq!(table.translate(addr), Some(0x1234000));
    assert_eq!(table.translate(addr + 0x2a7), Some(0x1234000 + 0x2a7));
    assert_eq!(table.translate(addr + 0xfff), Some(0x1234fff));
    assert_eq!(table.translate_page(page), Some(Frame::from_number(0x1234)));
    assert_eq!(table.translate(addr + 0x1000), None);
    assert_eq!(table.translate(addr - 1), None);
}

#[test]
fn translation_is_frame_start_plus_offset() {
    let mut table = ActivePageTable::new();
    let mut pool = Pool::new(100, 200);
    let number = 0xab_cdef;
    let base = address(0, 0, 1, 2, 0);
    table
        .map_to(Page::containing_address(base), Frame::from_number(number), flags(0), &mut pool)
        .unwrap();
    for offset in [0u64, 1, 7, 0x800, 0xffe, 0xfff] {
        let v_addr = base + offset;
        assert_eq!(table.translate(v_addr), Some(number * 4096 + v_addr % 4096));
    }
}

#[test]
fn map_translate_unmap_round_trip() {
    let mut allocator = AreaFrameAllocator::new(
        0x100000,
        0x200000,
        0x9000,
        0xA000,
        vec![MemoryArea { base_addr: 0x100000, length: 0xF00000 }],
    );
    let mut page_table = ActivePageTable::new();
    let addr = 42 * 512 * 512 * 4096;
    let page = Page::containing_address(addr);
    let frame = allocator.allocate_frame().unwrap();
    assert_eq!(frame.number(), 0x200);
    assert_eq!(page_table.translate(addr), None);
    assert_eq!(page_table.map_to(page, frame, EntryFlags::empty(), &mut allocator), Ok(()));
    assert_eq!(page_table.translate(addr), Some(0x200000));
    let unmapped = page_table.unmap(Page::containing_address(addr), &mut allocator);
    assert_eq!(unmapped, Unmapped { frame, flush: addr });
    assert_eq!(page_table.translate(addr), None);
    assert_eq!(allocator.allocate_frame(), Some(Frame::from_number(0x204)));
    assert_eq!(allocator.allocate_frame(), Some(Frame::from_number(0x205)));
}

#[test]
fn unmapped_page_no_longer_translates() {
    let mut table = ActivePageTable::new();
    let mut pool = Pool::new(100, 200);
    let first = address(1, 2, 3, 4, 0);
    let second = address(1, 2, 3, 5, 0);
    table.map_to(Page::containing_address(first), Frame::from_number(7), flags(0), &mut pool).unwrap();
    table.map_to(Page::containing_address(second), Frame::from_number(8), flags(0), &mut pool).unwrap();
    let unmapped = table.unmap(Page::containing_address(first), &mut pool);
    assert_eq!(unmapped.frame, Frame::from_number(7));
    assert_eq!(unmapped.flush, first);
    assert_eq!(table.translate(first), None);
    assert_eq!(table.translate(first + 0x123), None);
    assert_eq!(table.translate(first + 0xfff), None);
    assert_eq!(table.translate(second + 0x123), Some(0x8123));
}

#[test]
fn unmap_leaves_the_allocator_alone() {
    let mut table = ActivePageTable::new();
    let mut pool = Pool::new(100, 200);
    let page = Page::containing_address(address(9, 8, 7, 6, 0));
    table.map_to(page, Frame::from_number(7), flags(0), &mut pool).unwrap();
    let taken = pool.taken;
    table.unmap(page, &mut pool);
    assert_eq!(pool.taken, taken);
    assert!(pool.returned.is_empty());
}

#[test]
fn a_mapped_page_is_not_free_for_a_second_mapping() {
    let mut table = ActivePageTable::new();
    let mut pool = Pool::new(100, 200);
    let page = Page::containing_address(address(0, 0, 0, 1, 0));
    assert!(table.translate_page(page).is_none());
    table.map_to(page, Frame::from_number(50), flags(WRITABLE), &mut pool).unwrap();
    assert_eq!(table.translate_page(page), Some(Frame::from_number(50)));
    table.unmap(page, &mut pool);
    assert!(table.translate_page(page).is_none());
    table.map_to(page, Frame::from_number(51), flags(WRITABLE), &mut pool).unwrap();
    assert_eq!(table.translate_page(page), Some(Frame::from_number(51)));
}

#[test]
fn mapping_stores_flags_with_present() {
    let mut table = ActivePageTable::new();
    let mut pool = Pool::new(100, 200);
    let page = Page::containing_address(address(2, 3, 4, 5, 0));
    table
        .map_to(page, Frame::from_number(0x77), flags(USER_ACCESSIBLE | NO_EXECUTE), &mut pool)
        .unwrap();
    let p3 = table.p4().next_table(2).unwrap();
    let p2 = p3.next_table(3).unwrap();
    let p1 = p2.next_table(4).unwrap();
    let entry = p1.entry(5);
    assert_eq!(entry.bits(), 0x8000_0000_0007_7005);
    assert_eq!(entry.flags().bits(), PRESENT | USER_ACCESSIBLE | NO_EXECUTE);
    assert_eq!(table.p4().entry(2).flags().bits(), PRESENT | WRITABLE);
    assert_eq!(table.p4().entry(2).pointed_frame(), Some(Frame::from_number(100)));
    assert_eq!(p3.entry(3).pointed_frame(), Some(Frame::from_number(101)));
    assert_eq!(p2.entry(4).pointed_frame(), Some(Frame::from_number(102)));
    assert_eq!(p3.level(), Level::P3);
    assert_eq!(p2.level(), Level::P2);
    assert_eq!(p1.level(), Level::P1);
}

#[test]
fn mapping_makes_only_the_missing_tables() {
    let mut table = ActivePageTable::new();
    let mut pool = Pool::new(100, 200);
    table.map_to(Page::containing_address(address(1, 1, 1, 1, 0)), Frame::from_number(1), flags(0), &mut pool).unwrap();
    assert_eq!(pool.taken, 3);
    table.map_to(Page::containing_address(address(1, 1, 1, 2, 0)), Frame::from_number(2), flags(0), &mut pool).unwrap();
    assert_eq!(pool.taken, 3);
    table.map_to(Page::containing_address(address(1, 1, 2, 1, 0)), Frame::from_number(3), flags(0), &mut pool).unwrap();
    assert_eq!(pool.taken, 4);
    table.map_to(Page::containing_address(address(1, 2, 1, 1, 0)), Frame::from_number(4), flags(0), &mut pool).unwrap();
    assert_eq!(pool.taken, 6);
    table.map_to(Page::containing_address(address(2, 1, 1, 1, 0)), Frame::from_number(5), flags(0), &mut pool).unwrap();
    assert_eq!(pool.taken, 9);
    assert_eq!(table.translate(address(1, 1, 1, 1, 5)), Some(0x1005));
    assert_eq!(table.translate(address(1, 1, 1, 2, 5)), Some(0x2005));
    assert_eq!(table.translate(address(1, 1, 2, 1, 5)), Some(0x3005));
    assert_eq!(table.translate(address(1, 2, 1, 1, 5)), Some(0x4005));
    assert_eq!(table.translate(address(2, 1, 1, 1, 5)), Some(0x5005));
    assert_eq!(table.translate(address(2, 2, 1, 1, 5)), None);
}

#[test]
fn map_and_unmap_cycles_take_no_more_frames() {
    let mut table = ActivePageTable::new();
    let mut pool = Pool::new(100, 200);
    let page = Page::containing_address(address(5, 6, 7, 8, 0));
    table.map_to(page, Frame::from_number(1), flags(0), &mut pool).unwrap();
    assert_eq!(pool.taken, 3);
    for round in 0..10 {
        table.unmap(page, &mut pool);
        assert_eq!(table.translate_page(page), None);
        assert_eq!(table.map_to(page, Frame::from_number(round), flags(0), &mut pool), Ok(()));
        assert_eq!(table.translate_page(page), Some(Frame::from_number(round)));
        assert_eq!(pool.taken, 3);
    }
    assert!(pool.returned.is_empty());
}

#[test]
fn mapping_fails_without_frames_for_tables() {
    let mut table = ActivePageTable::new();
    let page = Page::containing_address(address(1, 2, 3, 4, 0));
    let mut empty = Pool::new(0, 0);
    assert_eq!(
        table.map_to(page, Frame::from_number(9), flags(0), &mut empty),
        Err(MapError::OutOfMemory)
    );
    assert_eq!(table.translate_page(page), None);
    let mut two = Pool::new(10, 12);
    assert_eq!(
        table.map_to(page, Frame::from_number(9), flags(0), &mut two),
        Err(MapError::OutOfMemory)
    );
    assert_eq!(two.taken, 2);
    assert_eq!(table.translate_page(page), None);
    assert_eq!(table.translate(address(1, 2, 3, 4, 0x10)), None);
    let mut one = Pool::new(20, 21);
    assert_eq!(table.map_to(page, Frame::from_number(9), flags(0), &mut one), Ok(()));
    assert_eq!(one.taken, 1);
    assert_eq!(table.translate(address(1, 2, 3, 4, 0x10)), Some(0x9010));
}

#[test]
fn map_takes_a_frame_for_the_page() {
    let mut table = ActivePageTable::new();
    let mut pool = Pool::new(100, 200);
    let page = Page::containing_address(address(0, 1, 0, 1, 0));
    let frame = table.map(page, flags(WRITABLE), &mut pool).unwrap();
    assert_eq!(frame, Frame::from_number(100));
    assert_eq!(pool.taken, 4);
    assert_eq!(table.translate(address(0, 1, 0, 1, 0x321)), Some(100 * 4096 + 0x321));
}

#[test]
fn map_gives_the_frame_back_when_tables_cannot_be_made() {
    let mut table = ActivePageTable::new();
    let page = Page::containing_address(address(0, 1, 0, 1, 0));
    let mut none = Pool::new(0, 0);
    assert_eq!(table.map(page, flags(0), &mut none), Err(MapError::OutOfMemory));
    assert!(none.returned.is_empty());
    let mut one = Pool::new(30, 31);
    assert_eq!(table.map(page, flags(0), &mut one), Err(MapError::OutOfMemory));
    assert_eq!(one.returned, vec![30]);
    assert_eq!(table.translate_page(page), None);
}

#[test]
fn identity_map_maps_an_address_to_itself() {
    let mut table = ActivePageTable::new();
    let mut pool = Pool::new(100, 200);
    let frame = Frame::containing_address(0xb8000);
    assert!(Page::is_canonical(frame.start_address()));
    assert_eq!(table.identity_map(frame, flags(WRITABLE), &mut pool), Ok(()));
    assert_eq!(table.translate(0xb8000), Some(0xb8000));
    assert_eq!(table.translate(0xb8f9e), Some(0xb8f9e));
    assert_eq!(table.translate(0xb9000), None);
}

#[test]
fn huge_page_of_one_gib_translates_by_offset() {
    let mut table = ActivePageTable::new();
    let mut pool = Pool::new(100, 200);
    let start = Frame::from_number(262144 * 5);
    let huge = flags(HUGE_PAGE | WRITABLE);
    assert!(Level::P3.accepts(start, huge));
    let p3 = table.p4_mut().next_table_create(1, &mut pool).unwrap();
    p3.set_entry(2, start, huge);
    assert_eq!(
        table.translate(address(1, 2, 7, 9, 0x123)),
        Some((262144 * 5 + 7 * 512 + 9) * 4096 + 0x123)
    );
    assert_eq!(table.translate(address(1, 2, 0, 0, 0)), Some(262144 * 5 * 4096));
    assert_eq!(
        table.translate(address(1, 2, 511, 511, 0xfff)),
        Some((262144 * 5 + 511 * 512 + 511) * 4096 + 0xfff)
    );
    assert_eq!(
        table.translate_page(Page::containing_address(address(1, 2, 300, 17, 0))),
        Some(Frame::from_number(262144 * 5 + 300 * 512 + 17))
    );
    assert_eq!(table.translate(address(1, 3, 0, 0, 0)), None);
    assert_eq!(table.translate(address(2, 2, 7, 9, 0)), None);
}

#[test]
fn misaligned_huge_frames_are_not_accepted() {
    let huge = flags(HUGE_PAGE);
    assert!(Level::P3.accepts(Frame::from_number(0), huge));
    assert!(Level::P3.accepts(Frame::from_number(262144), huge));
    assert!(!Level::P3.accepts(Frame::from_number(262143), huge));
    assert!(!Level::P3.accepts(Frame::from_number(262145), huge));
    assert!(!Level::P3.accepts(Frame::from_number(512), huge));
    assert!(!Level::P3.accepts(Frame::from_number(262144), flags(WRITABLE)));
    assert!(Level::P2.accepts(Frame::from_number(512), huge));
    assert!(Level::P2.accepts(Frame::from_number(262144), huge));
    assert!(!Level::P2.accepts(Frame::from_number(513), huge));
    assert!(!Level::P2.accepts(Frame::from_number(1024), flags(0)));
    assert!(!Level::P4.accepts(Frame::from_number(0), huge));
    assert!(Level::P1.accepts(Frame::from_number(513), flags(0)));
    assert!(Level::P1.accepts(Frame::from_number(513), huge));
}

#[test]
fn huge_page_of_two_mib_translates_by_offset() {
    let mut table = ActivePageTable::new();
    let mut pool = Pool::new(100, 200);
    let start = Frame::from_number(512 * 3);
    let p3 = table.p4_mut().next_table_create(0, &mut pool).unwrap();
    let p2 = p3.next_table_create(1, &mut pool).unwrap();
    p2.set_entry(4, start, flags(HUGE_PAGE));
    assert_eq!(table.translate(address(0, 1, 4, 0, 0)), Some(512 * 3 * 4096));
    assert_eq!(table.translate(address(0, 1, 4, 9, 0x55)), Some((512 * 3 + 9) * 4096 + 0x55));
    assert_eq!(table.translate(address(0, 1, 4, 511, 0xfff)), Some((512 * 3 + 511) * 4096 + 0xfff));
    assert_eq!(table.translate(address(0, 1, 5, 0, 0)), None);
    assert_eq!(pool.taken, 2);
}

#[test]
fn pages_map_next_to_a_huge_page() {
    let mut table = ActivePageTable::new();
    let mut pool = Pool::new(100, 200);
    let p3 = table.p4_mut().next_table_create(0, &mut pool).unwrap();
    let p2 = p3.next_table_create(0, &mut pool).unwrap();
    p2.set_entry(0, Frame::from_number(0), flags(HUGE_PAGE));
    let page = Page::containing_address(address(0, 0, 1, 0, 0));
    assert_eq!(table.translate_page(page), None);
    assert_eq!(table.map_to(page, Frame::from_number(0x999), flags(0), &mut pool), Ok(()));
    assert_eq!(table.translate(address(0, 0, 1, 0, 4)), Some(0x999004));
    assert_eq!(table.translate(address(0, 0, 0, 3, 4)), Some(0x3004));
}

#[test]
fn high_half_pages_map_too() {
    let mut table = ActivePageTable::new();
    let mut pool = Pool::new(100, 200);
    let addr = 0xffff_8000_0000_0000;
    let page = Page::containing_address(addr);
    assert_eq!(page.p4_index(), 256);
    assert_eq!(table.map_to(page, Frame::from_number(0x42), flags(0), &mut pool), Ok(()));
    assert_eq!(table.translate(addr + 0x10), Some(0x42010));
    assert_eq!(table.translate(0), None);
    let top = 0xffff_ffff_ffff_f000;
    assert_eq!(table.map_to(Page::containing_address(top), Frame::from_number(0x43), flags(0), &mut pool), Ok(()));
    assert_eq!(table.translate(0xffff_ffff_ffff_ffff), Some(0x43fff));
}

#[test]
fn page_of_an_address() {
    let page = Page::containing_address(0x1234_5678_9abc);
    assert_eq!(page.number(), 0x1_2345_6789);
    assert_eq!(page.start_address(), 0x1234_5678_9000);
    assert_eq!(page.p4_index(), 0x24);
    assert_eq!(page.p3_index(), 0xd1);
    assert_eq!(page.p2_index(), 0xb3);
    assert_eq!(page.p1_index(), 0x189);
    let assembled = Page::containing_address(address(511, 510, 509, 508, 0xabc));
    assert_eq!(assembled.p4_index(), 511);
    assert_eq!(assembled.p3_index(), 510);
    assert_eq!(assembled.p2_index(), 509);
    assert_eq!(assembled.p1_index(), 508);
    assert_eq!(Page::containing_address(0).number(), 0);
    assert_eq!(Page::containing_address(0xfff).number(), 0);
    assert_eq!(Page::containing_address(0x1000).number(), 1);
}

#[test]
fn canonical_addresses() {
    assert!(Page::is_canonical(0));
    assert!(Page::is_canonical(0x0000_7fff_ffff_ffff));
    assert!(!Page::is_canonical(0x0000_8000_0000_0000));
    assert!(!Page::is_canonical(0xffff_7fff_ffff_ffff));
    assert!(Page::is_canonical(0xffff_8000_0000_0000));
    assert!(Page::is_canonical(0xffff_ffff_ffff_ffff));
}

#[test]
fn new_table_is_empty() {
    let table = Table::new(Level::P3);
    assert_eq!(table.level(), Level::P3);
    for index in [0usize, 1, 255, 511] {
        assert!(table.entry(index).is_unused());
        assert!(table.next_table(index).is_none());
    }
}

#[test]
fn next_table_create_reuses_an_existing_table() {
    let mut table = Table::new(Level::P4);
    let mut pool = Pool::new(100, 200);
    {
        let p3 = table.next_table_create(7, &mut pool).unwrap();
        assert_eq!(p3.level(), Level::P3);
        assert!(p3.entry(0).is_unused());
        p3.next_table_create(1, &mut pool).unwrap();
    }
    assert_eq!(pool.taken, 2);
    {
        let p3 = table.next_table_create(7, &mut pool).unwrap();
        assert!(p3.next_table(1).is_some());
        assert!(p3.next_table(2).is_none());
    }
    assert_eq!(pool.taken, 2);
    assert_eq!(table.entry(7).pointed_frame(), Some(Frame::from_number(100)));
    assert!(table.next_table_mut(7).is_some());
    assert!(table.next_table_mut(8).is_none());
}

#[test]
fn next_table_create_fails_without_a_frame() {
    let mut table = Table::new(Level::P2);
    let mut pool = Pool::new(0, 0);
    assert!(matches!(table.next_table_create(3, &mut pool), Err(MapError::OutOfMemory)));
    assert!(table.entry(3).is_unused());
    assert!(table.next_table(3).is_none());
}

#[test]
fn clearing_an_entry_drops_what_lies_below() {
    let mut table = ActivePageTable::new();
    let mut pool = Pool::new(100, 200);
    table.map_to(Page::containing_address(address(4, 0, 0, 0, 0)), Frame::from_number(1), flags(0), &mut pool).unwrap();
    table.map_to(Page::containing_address(address(5, 0, 0, 0, 0)), Frame::from_number(2), flags(0), &mut pool).unwrap();
    table.p4_mut().clear_entry(4);
    assert!(table.p4().entry(4).is_unused());
    assert!(table.p4().next_table(4).is_none());
    assert_eq!(table.translate(address(4, 0, 0, 0, 0)), None);
    assert_eq!(table.translate(address(5, 0, 0, 0, 0)), Some(0x2000));
}

#[test]
fn set_entry_overwrites_a_table_with_a_huge_page() {
    let mut table = ActivePageTable::new();
    let mut pool = Pool::new(100, 200);
    table.map_to(Page::containing_address(address(0, 1, 2, 3, 0)), Frame::from_number(1), flags(0), &mut pool).unwrap();
    let p3 = table.p4_mut().next_table_mut(0).unwrap();
    p3.set_entry(1, Frame::from_number(262144), flags(HUGE_PAGE));
    assert!(p3.next_table(1).is_none());
    assert_eq!(table.translate(address(0, 1, 2, 3, 0)), Some((262144 + 2 * 512 + 3) * 4096));
}

#[test]
fn levels_go_down_to_p1() {
    assert_eq!(Level::P4.next_level(), Some(Level::P3));
    assert_eq!(Level::P3.next_level(), Some(Level::P2));
    assert_eq!(Level::P2.next_level(), Some(Level::P1));
    assert_eq!(Level::P1.next_level(), None);
}

#[test]
fn installed_table_lives_in_the_given_frame() {
    let mut table = Table::new(Level::P3);
    table.install_table(9, Frame::from_number(0x4321));
    let entry = table.entry(9);
    assert_eq!(entry.bits(), 0x4321003);
    assert_eq!(entry.pointed_frame(), Some(Frame::from_number(0x4321)));
    assert_eq!(entry.flags().bits(), PRESENT | WRITABLE);
    let below = table.next_table(9).unwrap();
    assert_eq!(below.level(), Level::P2);
    for index in [0usize, 100, 511] {
        assert!(below.entry(index).is_unused());
    }
    assert!(table.next_table(8).is_none());
}

#[test]
fn map_allocated_maps_the_frame_it_is_given() {
    let mut table = ActivePageTable::new();
    let mut pool = Pool::new(100, 200);
    let page = Page::containing_address(address(3, 2, 1, 0, 0));
    assert_eq!(
        table.map_allocated(page, None, flags(WRITABLE), &mut pool),
        Err(MapError::OutOfMemory)
    );
    assert_eq!(pool.taken, 0);
    assert!(pool.returned.is_empty());
    assert_eq!(table.translate_page(page), None);
    assert!(table.p4().entry(3).is_unused());
    assert_eq!(
        table.map_allocated(page, Some(Frame::from_number(0x55)), flags(WRITABLE), &mut pool),
        Ok(Frame::from_number(0x55))
    );
    assert_eq!(pool.taken, 3);
    assert_eq!(table.translate(address(3, 2, 1, 0, 0x9)), Some(0x55009));
    let other = Page::containing_address(address(4, 0, 0, 0, 0));
    let mut dry = Pool::new(0, 0);
    assert_eq!(
        table.map_allocated(other, Some(Frame::from_number(0x66)), flags(0), &mut dry),
        Err(MapError::OutOfMemory)
    );
    assert_eq!(dry.returned, vec![0x66]);
    assert_eq!(table.translate_page(other), None);
    let neighbour = Page::containing_address(address(3, 2, 1, 1, 0));
    assert_eq!(
        table.map_allocated(neighbour, Some(Frame::from_number(0x66)), flags(0), &mut dry),
        Ok(Frame::from_number(0x66))
    );
    assert_eq!(table.translate(address(3, 2, 1, 1, 0)), Some(0x66000));
}
