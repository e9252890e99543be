//! Virtual memory: pages and the four-level table hierarchy that maps them.

use crate::memory::{Frame, FrameAllocator, PAddr, MAX_FRAME_NUMBER, PAGE_SIZE};
use vstd::pervasive::unreached;
use vstd::prelude::*;

pub mod entry;
pub mod table;

use self::entry::{EntryFlags, PRESENT};
use self::table::{Level, MapError, Mapping, PageSize, Table};

verus! {

/// A virtual address.
pub type VAddr = u64;

/// One page of virtual memory, identified by its number: the page with
/// number `n` covers the addresses `n * 4096 .. (n + 1) * 4096`.
///
/// Every `Page` lies in the canonical part of the address space, where bits
/// 47 to 63 of an address are all equal.
#[derive(Debug, Clone, Copy, PartialEq, Eq, Structural)]
pub struct Page {
    pub(crate) number: u64,
}

impl View for Page {
    type V = nat;

    /// The page number.
    closed spec fn view(&self) -> nat {
        self.number as nat
    }
}

impl Page {
    /// Bits 47 to 63 of `address` are all zero or all one.
    pub open spec fn canonical(address: VAddr) -> bool {
        address < 0x0000_8000_0000_0000 || address >= 0xffff_8000_0000_0000
    }

    /// `number` is the number of a page of canonical addresses.
    pub open spec fn canonical_number(number: nat) -> bool {
        number < 0x8_0000_0000 || (0xf_fff8_0000_0000 <= number <= 0xf_ffff_ffff_ffff)
    }

    /// The index that page number `number` selects in a table of `level`:
    /// nine bits of the number, the lowest nine for `P1`.
    pub open spec fn index_of(number: nat, level: Level) -> nat {
        (number / level.pages_per_entry()) % 512
    }

    /// Page numbers `a` and `b` select the same entry in a table of `level`
    /// and in every table below it on the way down.
    pub open spec fn same_slot(a: nat, b: nat, level: Level) -> bool {
        &&& Self::index_of(a, Level::P1) == Self::index_of(b, Level::P1)
        &&& level.rank() >= 2 ==> Self::index_of(a, Level::P2) == Self::index_of(b, Level::P2)
        &&& level.rank() >= 3 ==> Self::index_of(a, Level::P3) == Self::index_of(b, Level::P3)
        &&& level.rank() >= 4 ==> Self::index_of(a, Level::P4) == Self::index_of(b, Level::P4)
    }

    /// The page lies in the canonical part of the address space.
    #[verifier::type_invariant]
    pub open spec fn wf(self) -> bool {
        Self::canonical_number(self@)
    }

    /// Whether `address` is canonical, that is, whether
    /// `containing_address` accepts it.
    pub fn is_canonical(address: VAddr) -> (ok: bool)
        ensures
            ok <==> Self::canonical(address),
    {
        address < 0x0000_8000_0000_0000 || address >= 0xffff_8000_0000_0000
    }

    /// The page that contains the virtual address `addr`.
    pub fn containing_address(addr: VAddr) -> (page: Page)
        requires
            Self::canonical(addr),
        ensures
            page@ == addr as nat / 4096,
            page.wf(),
    {
        assert({
            let number = addr / 4096;
            number < 0x8_0000_0000 || (0xf_fff8_0000_0000 <= number && number
                <= 0xf_ffff_ffff_ffff)
        }) by (bit_vector)
            requires
                addr < 0x0000_8000_0000_0000 || addr >= 0xffff_8000_0000_0000,
        ;
        Page { number: addr / PAGE_SIZE }
    }

    /// The first virtual address of the page.
    pub fn start_address(&self) -> (address: VAddr)
        ensures
            address == self@ * 4096,
            Self::canonical(address),
    {
        proof {
            use_type_invariant(&*self);
        }
        self.number * PAGE_SIZE
    }

    /// The page number.
    pub fn number(&self) -> (number: u64)
        ensures
            number == self@,
            self.wf(),
    {
        proof {
            use_type_invariant(&*self);
        }
        self.number
    }

    /// The index of the page in the P4 table.
    pub fn p4_index(&self) -> (index: usize)
        ensures
            index == Self::index_of(self@, Level::P4),
            index < 512,
    {
        let number = self.number;
        assert((number >> 27) & 0x1ff == (number / 134217728) % 512) by (bit_vector);
        ((number >> 27) & 0x1ff) as usize
    }

    /// The index of the page in its P3 table.
    pub fn p3_index(&self) -> (index: usize)
        ensures
            index == Self::index_of(self@, Level::P3),
            index < 512,
    {
        let number = self.number;
        assert((number >> 18) & 0x1ff == (number / 262144) % 512) by (bit_vector);
        ((number >> 18) & 0x1ff) as usize
    }

    /// The index of the page in its P2 table.
    pub fn p2_index(&self) -> (index: usize)
        ensures
            index == Self::index_of(self@, Level::P2),
            index < 512,
    {
        let number = self.number;
        assert((number >> 9) & 0x1ff == (number / 512) % 512) by (bit_vector);
        ((number >> 9) & 0x1ff) as usize
    }

    /// The index of the page in its P1 table.
    pub fn p1_index(&self) -> (index: usize)
        ensures
            index == Self::index_of(self@, Level::P1),
            index < 512,
    {
        let number = self.number;
        assert((number >> 0) & 0x1ff == (number / 1) % 512) by (bit_vector);
        ((number >> 0) & 0x1ff) as usize
    }

    /// A page is determined by its number.
    pub proof fn lemma_number_determines_page(a: Page, b: Page)
        requires
            a@ == b@,
        ensures
            a == b,
    {
    }

    /// Two canonical pages with the same four table indices are the same
    /// page: no two pages share a slot of the hierarchy.
    pub proof fn lemma_indices_determine_page(a: nat, b: nat)
        requires
            Self::canonical_number(a),
            Self::canonical_number(b),
            Self::index_of(a, Level::P4) == Self::index_of(b, Level::P4),
            Self::index_of(a, Level::P3) == Self::index_of(b, Level::P3),
            Self::index_of(a, Level::P2) == Self::index_of(b, Level::P2),
            Self::index_of(a, Level::P1) == Self::index_of(b, Level::P1),
        ensures
            a == b,
    {
        let x = a as u64;
        let y = b as u64;
        assert(x == y) by (bit_vector)
            requires
                x < 0x8_0000_0000 || (0xf_fff8_0000_0000 <= x && x <= 0xf_ffff_ffff_ffff),
                y < 0x8_0000_0000 || (0xf_fff8_0000_0000 <= y && y <= 0xf_ffff_ffff_ffff),
                (x / 134217728) % 512 == (y / 134217728) % 512,
                (x / 262144) % 512 == (y / 262144) % 512,
                (x / 512) % 512 == (y / 512) % 512,
                (x / 1) % 512 == (y / 1) % 512,
        ;
    }

    /// The offset of a page within the span of one entry, in terms of the
    /// indices below that entry.
    pub proof fn lemma_offset_in_span(number: nat)
        ensures
            number % 512 == Self::index_of(number, Level::P1),
            number % 262144 == Self::index_of(number, Level::P2) * 512 + Self::index_of(
                number,
                Level::P1,
            ),
    {
    }
}

/// What `unmap` hands back: the frame that the page was mapped to, which is
/// the caller's again, and the address whose cached translation the caller
/// has to invalidate on the processor.
#[derive(Debug, Clone, Copy, PartialEq, Eq, Structural)]
pub struct Unmapped {
    /// The frame that the page was mapped to.
    pub frame: Frame,
    /// The first address of the page that was unmapped.
    pub flush: VAddr,
}

/// The page tables of the running address space: a P4 table and everything
/// below it.
pub struct ActivePageTable {
    p4: Table,
}

impl View for ActivePageTable {
    type V = Map<nat, Mapping>;

    /// The mapping of the address space: for the number of every mapped
    /// page, what the page is mapped to.
    open spec fn view(&self) -> Map<nat, Mapping> {
        Map::new(
            |page: nat| Page::canonical_number(page) && self.spec_p4().resolve(page) is Some,
            |page: nat| self.spec_p4().resolve(page).unwrap(),
        )
    }
}

impl ActivePageTable {
    /// The root of the hierarchy.
    pub closed spec fn spec_p4(&self) -> Table {
        self.p4
    }

    /// The hierarchy is well formed and its root is a P4 table.
    pub open spec fn wf(&self) -> bool {
        self.spec_p4().wf() && self.spec_p4().spec_level() == Level::P4
    }

    /// The P1 table that would hold the entry of page number `page`
    /// exists, along with the P3 and P2 tables on the way to it.
    pub open spec fn has_leaf_table(&self, page: nat) -> bool {
        &&& self.spec_p4().spec_children()[Page::index_of(page, Level::P4) as int] matches Some(p3)
        &&& p3.spec_children()[Page::index_of(page, Level::P3) as int] matches Some(p2)
        &&& p2.spec_children()[Page::index_of(page, Level::P2) as int] is Some
    }

    /// The physical address that `v_addr` translates to: the frame of its
    /// page, at the same offset within the page.
    pub open spec fn translate_spec(&self, v_addr: VAddr) -> Option<PAddr> {
        let page = v_addr as nat / 4096;
        if self@.contains_key(page) {
            Some((self@[page].frame * 4096 + v_addr as nat % 4096) as u64)
        } else {
            None
        }
    }

    /// An address space in which nothing is mapped.
    pub fn new() -> (table: ActivePageTable)
        ensures
            table.wf(),
            table@ == Map::<nat, Mapping>::empty(),
    {
        let table = ActivePageTable { p4: Table::new(Level::P4) };
        assert(table@ =~= Map::<nat, Mapping>::empty());
        table
    }

    /// The root of the hierarchy.
    pub fn p4(&self) -> (p4: &Table)
        ensures
            *p4 == self.spec_p4(),
    {
        &self.p4
    }

    /// The frame that `page` is mapped to, if it is mapped.
    ///
    /// The walk goes from the P4 table down. A huge page in the P3 or the
    /// P2 table ends it early: the frame is then the one at the page's
    /// offset within the huge page.
    pub fn translate_page(&self, page: Page) -> (frame: Option<Frame>)
        requires
            self.wf(),
        ensures
            frame is Some <==> self@.contains_key(page@),
            frame matches Some(f) ==> f@ == self@[page@].frame,
    {
        proof {
            use_type_invariant(&page);
            Page::lemma_offset_in_span(page@);
        }
        let p4_index = page.p4_index();
        let p3 = match self.p4.next_table(p4_index) {
            Some(p3) => p3,
            None => {
                return None;
            },
        };
        proof {
            self.p4.lemma_walk_step(page@);
            p3.lemma_walk_step(page@);
        }
        let p3_index = page.p3_index();
        let p3_entry = p3.entry(p3_index);
        if let Some(start_frame) = p3_entry.pointed_frame() {
            if p3_entry.is_huge_page() {
                assert(start_frame@ % 262144 == 0);
                let number = start_frame.number() + (page.p2_index() as u64) * 512 + (
                page.p1_index() as u64);
                return Some(Frame::from_number(number));
            }
        }
        let p2 = match p3.next_table(p3_index) {
            Some(p2) => p2,
            None => {
                return None;
            },
        };
        proof {
            p2.lemma_walk_step(page@);
        }
        let p2_index = page.p2_index();
        let p2_entry = p2.entry(p2_index);
        if let Some(start_frame) = p2_entry.pointed_frame() {
            if p2_entry.is_huge_page() {
                assert(start_frame@ % 512 == 0);
                let number = start_frame.number() + (page.p1_index() as u64);
                return Some(Frame::from_number(number));
            }
        }
        let p1 = match p2.next_table(p2_index) {
            Some(p1) => p1,
            None => {
                return None;
            },
        };
        proof {
            p1.lemma_walk_step(page@);
        }
        p1.entry(page.p1_index()).pointed_frame()
    }

    /// Whether `page` is mapped as an ordinary page, by an entry of a P1
    /// table, and not as part of a huge page: whether `unmap` accepts it.
    pub fn is_mapped_small(&self, page: Page) -> (small: bool)
        requires
            self.wf(),
        ensures
            small <==> self@.contains_key(page@) && self@[page@].size == PageSize::Size4KiB,
    {
        proof {
            use_type_invariant(&page);
            self.p4.lemma_walk_step(page@);
        }
        let p3 = match self.p4.next_table(page.p4_index()) {
            Some(p3) => p3,
            None => {
                return false;
            },
        };
        proof {
            p3.lemma_walk_step(page@);
        }
        let p2 = match p3.next_table(page.p3_index()) {
            Some(p2) => p2,
            None => {
                return false;
            },
        };
        proof {
            p2.lemma_walk_step(page@);
        }
        let p1 = match p2.next_table(page.p2_index()) {
            Some(p1) => p1,
            None => {
                return false;
            },
        };
        proof {
            p1.lemma_walk_step(page@);
        }
        p1.entry(page.p1_index()).pointed_frame().is_some()
    }

    /// The physical address that the virtual address `v_addr` translates
    /// to, if its page is mapped.
    pub fn translate(&self, v_addr: VAddr) -> (p_addr: Option<PAddr>)
        requires
            self.wf(),
            Page::canonical(v_addr),
        ensures
            p_addr == self.translate_spec(v_addr),
    {
        let offset = v_addr % PAGE_SIZE;
        match self.translate_page(Page::containing_address(v_addr)) {
            Some(frame) => Some(frame.start_address() + offset),
            None => None,
        }
    }

    /// The root of the hierarchy, for changing it. What the address space
    /// holds afterwards is what the caller leaves in the table handed out.
    pub fn p4_mut(&mut self) -> (p4: &mut Table)
        ensures
            *p4 == old(self).spec_p4(),
            final(self).spec_p4() == *final(p4),
    {
        &mut self.p4
    }

    /// Maps `page` to `frame` with `flags` and `PRESENT`.
    ///
    /// The tables on the way to the page's entry are made where they are
    /// missing, each in a frame taken from `allocator`. If the allocator
    /// runs dry the page stays unmapped; tables made until then remain,
    /// empty.
    pub fn map_to<A: FrameAllocator>(
        &mut self,
        page: Page,
        frame: Frame,
        flags: EntryFlags,
        allocator: &mut A,
    ) -> (result: Result<(), MapError>)
        requires
            old(self).wf(),
            !old(self)@.contains_key(page@),
        ensures
            final(self).wf(),
            match result {
                Ok(()) => final(self)@ == old(self)@.insert(
                    page@,
                    Mapping { frame: frame@, flags: flags@ | PRESENT, size: PageSize::Size4KiB },
                ) && final(self).has_leaf_table(page@),
                Err(error) => error == MapError::OutOfMemory && final(self)@ == old(self)@
                    && !old(self).has_leaf_table(page@),
            },
            old(self).has_leaf_table(page@) ==> result is Ok && *final(allocator) == *old(
                allocator,
            ),
            forall|other: nat|
                old(self).has_leaf_table(other) ==> #[trigger] final(self).has_leaf_table(other),
    {
        proof {
            use_type_invariant(&page);
        }
        let ghost root = self.p4;
        let ghost number = page@;
        let p4_index = page.p4_index();
        let p3_index = page.p3_index();
        let p2_index = page.p2_index();
        let p1_index = page.p1_index();
        proof {
            root.lemma_walk_step(number);
        }
        let p3 = match self.p4.next_table_create(p4_index, allocator) {
            Ok(p3) => p3,
            Err(error) => {
                proof {
                    root.lemma_same_structure(self.p4);
                    assert(self@ =~= old(self)@);
                }
                return Err(error);
            },
        };
        let ghost p3_before = *p3;
        proof {
            p3_before.lemma_walk_step(number);
        }
        let p2 = match p3.next_table_create(p3_index, allocator) {
            Ok(p2) => p2,
            Err(error) => {
                let ghost p3_after = *p3;
                proof {
                    p3_before.lemma_same_structure(p3_after);
                    Table::lemma_install_keeps_walk(
                        root,
                        self.p4,
                        p4_index as int,
                        p3_before,
                        p3_after,
                    );
                    assert(self@ =~= old(self)@);
                }
                return Err(error);
            },
        };
        let ghost p2_before = *p2;
        proof {
            p2_before.lemma_walk_step(number);
        }
        let p1 = match p2.next_table_create(p2_index, allocator) {
            Ok(p1) => p1,
            Err(error) => {
                let ghost p2_after = *p2;
                let ghost p3_after = *p3;
                proof {
                    p2_before.lemma_same_structure(p2_after);
                    Table::lemma_install_keeps_walk(
                        p3_before,
                        p3_after,
                        p3_index as int,
                        p2_before,
                        p2_after,
                    );
                    Table::lemma_install_keeps_walk(
                        root,
                        self.p4,
                        p4_index as int,
                        p3_before,
                        p3_after,
                    );
                    assert(self@ =~= old(self)@);
                }
                return Err(error);
            },
        };
        let ghost p1_before = *p1;
        p1.set_entry(p1_index, frame, flags);
        let ghost p1_after = *p1;
        let ghost p2_after = *p2;
        let ghost p3_after = *p3;
        proof {
            let mapping = Mapping {
                frame: frame@,
                flags: flags@ | PRESENT,
                size: PageSize::Size4KiB,
            };
            let target = Some(mapping);
            Table::lemma_install_changes_slot(
                p2_before,
                p2_after,
                p1_before,
                p1_after,
                number,
                target,
            );
            Table::lemma_install_changes_slot(
                p3_before,
                p3_after,
                p2_before,
                p2_after,
                number,
                target,
            );
            Table::lemma_install_changes_slot(root, self.p4, p3_before, p3_after, number, target);
            assert forall|other: nat| Page::canonical_number(other) implies #[trigger] self.p4.resolve(
                other,
            ) == if other == number {
                target
            } else {
                root.resolve(other)
            } by {
                if other != number && Page::same_slot(other, number, Level::P4) {
                    Page::lemma_indices_determine_page(other, number);
                }
            }
            assert(self@ =~= old(self)@.insert(number, mapping));
        }
        Ok(())
    }

    /// Maps `page` to a frame taken from `allocator`, with `flags` and
    /// `PRESENT`, and returns the frame.
    ///
    /// If the tables for the page cannot be made, the frame goes back to
    /// the allocator and the page stays unmapped.
    pub fn map<A: FrameAllocator>(&mut self, page: Page, flags: EntryFlags, allocator: &mut A) -> (result:
        Result<Frame, MapError>)
        requires
            old(self).wf(),
            !old(self)@.contains_key(page@),
        ensures
            final(self).wf(),
            match result {
                Ok(frame) => final(self)@ == old(self)@.insert(
                    page@,
                    Mapping { frame: frame@, flags: flags@ | PRESENT, size: PageSize::Size4KiB },
                ) && final(self).has_leaf_table(page@),
                Err(error) => error == MapError::OutOfMemory && final(self)@ == old(self)@,
            },
            forall|other: nat|
                old(self).has_leaf_table(other) ==> #[trigger] final(self).has_leaf_table(other),
    {
        let allocated = allocator.allocate_frame();
        self.map_allocated(page, allocated, flags, allocator)
    }

    /// Maps `page` to the frame that an allocation gave, if it gave one,
    /// with `flags` and `PRESENT`, and returns the frame.
    ///
    /// Without a frame nothing is done. With one, the page is mapped as by
    /// `map_to`; if that fails for want of frames for tables, the frame
    /// goes back to `allocator`.
    pub fn map_allocated<A: FrameAllocator>(
        &mut self,
        page: Page,
        allocated: Option<Frame>,
        flags: EntryFlags,
        allocator: &mut A,
    ) -> (result: Result<Frame, MapError>)
        requires
            old(self).wf(),
            !old(self)@.contains_key(page@),
        ensures
            final(self).wf(),
            match result {
                Ok(frame) => allocated == Some(frame) && final(self)@ == old(self)@.insert(
                    page@,
                    Mapping { frame: frame@, flags: flags@ | PRESENT, size: PageSize::Size4KiB },
                ) && final(self).has_leaf_table(page@),
                Err(error) => error == MapError::OutOfMemory && final(self)@ == old(self)@ && (
                allocated is None || !old(self).has_leaf_table(page@)),
            },
            allocated is None ==> result is Err && final(self).spec_p4() == old(self).spec_p4()
                && *final(allocator) == *old(allocator),
            allocated is Some && old(self).has_leaf_table(page@) ==> result is Ok
                && *final(allocator) == *old(allocator),
            forall|other: nat|
                old(self).has_leaf_table(other) ==> #[trigger] final(self).has_leaf_table(other),
    {
        let frame = match allocated {
            Some(frame) => frame,
            None => {
                return Err(MapError::OutOfMemory);
            },
        };
        match self.map_to(page, frame, flags, allocator) {
            Ok(()) => Ok(frame),
            Err(error) => {
                allocator.deallocate_frame(frame);
                Err(error)
            },
        }
    }

    /// Maps the page whose address is the address of `frame` to `frame`,
    /// so that virtual and physical addresses agree on it.
    pub fn identity_map<A: FrameAllocator>(
        &mut self,
        frame: Frame,
        flags: EntryFlags,
        allocator: &mut A,
    ) -> (result: Result<(), MapError>)
        requires
            old(self).wf(),
            Page::canonical_number(frame@),
            !old(self)@.contains_key(frame@),
        ensures
            final(self).wf(),
            match result {
                Ok(()) => final(self)@ == old(self)@.insert(
                    frame@,
                    Mapping { frame: frame@, flags: flags@ | PRESENT, size: PageSize::Size4KiB },
                ) && final(self).has_leaf_table(frame@),
                Err(error) => error == MapError::OutOfMemory && final(self)@ == old(self)@
                    && !old(self).has_leaf_table(frame@),
            },
            old(self).has_leaf_table(frame@) ==> result is Ok && *final(allocator) == *old(
                allocator,
            ),
            forall|other: nat|
                old(self).has_leaf_table(other) ==> #[trigger] final(self).has_leaf_table(other),
    {
        let address = frame.start_address();
        let page = Page::containing_address(address);
        self.map_to(page, frame, flags, allocator)
    }

    /// Unmaps `page`, which must be mapped as an ordinary page, not as
    /// part of a huge one.
    ///
    /// Only the page's entry is cleared. The frame is handed to the
    /// caller instead of the allocator, and the tables on the way to the
    /// entry stay in place even when they hold nothing any more: a later
    /// mapping in their range finds them and needs no frame for them. The
    /// caller has to invalidate the cached translation of the address
    /// returned.
    #[allow(unused_variables)]
    pub fn unmap<A: FrameAllocator>(&mut self, page: Page, allocator: &mut A) -> (unmapped: Unmapped)
        requires
            old(self).wf(),
            old(self)@.contains_key(page@),
            old(self)@[page@].size == PageSize::Size4KiB,
        ensures
            final(self).wf(),
            final(self)@ == old(self)@.remove(page@),
            unmapped.frame@ == old(self)@[page@].frame,
            unmapped.flush == page@ * 4096,
            *final(allocator) == *old(allocator),
            forall|other: nat| #[trigger]
                final(self).has_leaf_table(other) == old(self).has_leaf_table(other),
    {
        proof {
            use_type_invariant(&page);
        }
        let ghost root = self.p4;
        let ghost number = page@;
        let p4_index = page.p4_index();
        let p3_index = page.p3_index();
        let p2_index = page.p2_index();
        let p1_index = page.p1_index();
        proof {
            root.lemma_walk_step(number);
        }
        let p3 = match self.p4.next_table_mut(p4_index) {
            Some(p3) => p3,
            None => unreached(),
        };
        let ghost p3_before = *p3;
        proof {
            p3_before.lemma_walk_step(number);
        }
        let p2 = match p3.next_table_mut(p3_index) {
            Some(p2) => p2,
            None => unreached(),
        };
        let ghost p2_before = *p2;
        proof {
            p2_before.lemma_walk_step(number);
        }
        let p1 = match p2.next_table_mut(p2_index) {
            Some(p1) => p1,
            None => unreached(),
        };
        let ghost p1_before = *p1;
        proof {
            p1_before.lemma_walk_step(number);
            assert(p1_before.spec_level() == Level::P1);
            assert(p1_before.resolve(number) == root.resolve(number));
        }
        let frame = match p1.entry(p1_index).pointed_frame() {
            Some(frame) => frame,
            None => unreached(),
        };
        p1.clear_entry(p1_index);
        let ghost p1_after = *p1;
        let ghost p2_after = *p2;
        let ghost p3_after = *p3;
        proof {
            Table::lemma_install_changes_slot(
                p2_before,
                p2_after,
                p1_before,
                p1_after,
                number,
                None,
            );
            Table::lemma_install_changes_slot(
                p3_before,
                p3_after,
                p2_before,
                p2_after,
                number,
                None,
            );
            Table::lemma_install_changes_slot(root, self.p4, p3_before, p3_after, number, None);
            assert forall|other: nat| Page::canonical_number(other) implies #[trigger] self.p4.resolve(
                other,
            ) == if other == number {
                None
            } else {
                root.resolve(other)
            } by {
                if other != number && Page::same_slot(other, number, Level::P4) {
                    Page::lemma_indices_determine_page(other, number);
                }
            }
            assert(self@ =~= old(self)@.remove(number));
        }
        Unmapped { frame, flush: page.start_address() }
    }
}

impl ActivePageTable {
    /// After `page` was mapped to `frame`, every address of the page
    /// translates to the address at the same offset in the frame.
    pub proof fn lemma_map_then_translate(
        before: ActivePageTable,
        after: ActivePageTable,
        page: Page,
        frame: Frame,
        flags: EntryFlags,
        v_addr: VAddr,
    )
        requires
            frame.wf(),
            after@ == before@.insert(
                page@,
                Mapping { frame: frame@, flags: flags@ | PRESENT, size: PageSize::Size4KiB },
            ),
            v_addr as nat / 4096 == page@,
        ensures
            after.translate_spec(v_addr) == Some((frame@ * 4096 + v_addr % 4096) as u64),
            frame@ * 4096 + v_addr % 4096 <= u64::MAX,
    {
    }

    /// After `page` was unmapped, no address of the page translates.
    pub proof fn lemma_unmap_then_translate(
        before: ActivePageTable,
        after: ActivePageTable,
        page: Page,
        v_addr: VAddr,
    )
        requires
            after@ == before@.remove(page@),
            v_addr as nat / 4096 == page@,
        ensures
            after.translate_spec(v_addr) is None,
    {
    }

    /// A page that was mapped cannot be mapped again before it is
    /// unmapped: what `map_to` asks of the page no longer holds, whatever
    /// frame and flags the second mapping would have.
    pub proof fn lemma_no_second_mapping(
        before: ActivePageTable,
        after: ActivePageTable,
        page: Page,
        frame: Frame,
        flags: EntryFlags,
    )
        requires
            after@ == before@.insert(
                page@,
                Mapping { frame: frame@, flags: flags@ | PRESENT, size: PageSize::Size4KiB },
            ),
        ensures
            after@.contains_key(page@),
    {
    }

    /// Mapping and unmapping other pages changes nothing for a page: what
    /// it translates to stays the same.
    pub proof fn lemma_other_pages_untouched(
        before: ActivePageTable,
        after: ActivePageTable,
        page: Page,
        mapping: Mapping,
        v_addr: VAddr,
    )
        requires
            after@ == before@.insert(page@, mapping) || after@ == before@.remove(page@),
            v_addr as nat / 4096 != page@,
        ensures
            after.translate_spec(v_addr) == before.translate_spec(v_addr),
    {
    }

    /// A mapped address translates to the start of its page's frame plus
    /// its offset within the page.
    pub proof fn lemma_translate_keeps_offset(self, v_addr: VAddr, frame: nat)
        requires
            self.wf(),
            Page::canonical(v_addr),
            self@.contains_key(v_addr as nat / 4096),
            self@[v_addr as nat / 4096].frame == frame,
        ensures
            self.translate_spec(v_addr) == Some((frame * 4096 + v_addr % 4096) as u64),
            frame <= MAX_FRAME_NUMBER,
    {
        self.lemma_frames_are_physical(v_addr as nat / 4096);
    }

    /// Every page is mapped to a frame of physical memory.
    pub proof fn lemma_frames_are_physical(self, page: nat)
        requires
            self.wf(),
            self@.contains_key(page),
        ensures
            self@[page].frame <= MAX_FRAME_NUMBER,
    {
        let p4 = self.spec_p4();
        p4.lemma_resolve_is_physical(page);
    }

    /// A 1 GiB huge page in a P3 table maps every page in its range: the
    /// page at P2 index `i` and P1 index `j` to the frame `i * 512 + j`
    /// frames after the start of the huge page. The start is a multiple of
    /// 262144 frames.
    pub proof fn lemma_huge_page_1gib(self, page: nat)
        requires
            self.wf(),
            Page::canonical_number(page),
            self.spec_p4().spec_children()[Page::index_of(page, Level::P4) as int] is Some,
            self.spec_p4().spec_children()[Page::index_of(
                page,
                Level::P4,
            ) as int].unwrap().spec_entries()[Page::index_of(page, Level::P3) as int].is_huge(),
        ensures
            ({
                let p3 = self.spec_p4().spec_children()[Page::index_of(page, Level::P4) as int].unwrap();
                let start = p3.spec_entries()[Page::index_of(page, Level::P3) as int].frame_number();
                &&& start % 262144 == 0
                &&& self@.contains_key(page)
                &&& self@[page].frame == start + Page::index_of(page, Level::P2) * 512
                    + Page::index_of(page, Level::P1)
                &&& self@[page].size == PageSize::Size1GiB
            }),
    {
        let p4 = self.spec_p4();
        let p3 = p4.spec_children()[Page::index_of(page, Level::P4) as int].unwrap();
        p4.lemma_wf_slots();
        p4.lemma_walk_step(page);
        p3.lemma_wf_slots();
        let entry = p3.spec_entries()[Page::index_of(page, Level::P3) as int];
        assert(p3.slot_wf(Page::index_of(page, Level::P3) as int));
        if entry@ == 0 {
            entry.lemma_unused_is_absent();
        }
        Page::lemma_offset_in_span(page);
    }

    /// A 2 MiB huge page in a P2 table maps every page in its range: the
    /// page at P1 index `j` to the frame `j` frames after the start of the
    /// huge page. The start is a multiple of 512 frames.
    pub proof fn lemma_huge_page_2mib(self, page: nat)
        requires
            self.wf(),
            Page::canonical_number(page),
            self.spec_p4().spec_children()[Page::index_of(page, Level::P4) as int] is Some,
            self.spec_p4().spec_children()[Page::index_of(
                page,
                Level::P4,
            ) as int].unwrap().spec_children()[Page::index_of(page, Level::P3) as int] is Some,
            self.spec_p4().spec_children()[Page::index_of(
                page,
                Level::P4,
            ) as int].unwrap().spec_children()[Page::index_of(
                page,
                Level::P3,
            ) as int].unwrap().spec_entries()[Page::index_of(page, Level::P2) as int].is_huge(),
        ensures
            ({
                let p3 = self.spec_p4().spec_children()[Page::index_of(page, Level::P4) as int].unwrap();
                let p2 = p3.spec_children()[Page::index_of(page, Level::P3) as int].unwrap();
                let start = p2.spec_entries()[Page::index_of(page, Level::P2) as int].frame_number();
                &&& start % 512 == 0
                &&& self@.contains_key(page)
                &&& self@[page].frame == start + Page::index_of(page, Level::P1)
                &&& self@[page].size == PageSize::Size2MiB
            }),
    {
        let p4 = self.spec_p4();
        let p3 = p4.spec_children()[Page::index_of(page, Level::P4) as int].unwrap();
        let p2 = p3.spec_children()[Page::index_of(page, Level::P3) as int].unwrap();
        p4.lemma_wf_slots();
        p4.lemma_walk_step(page);
        p3.lemma_wf_slots();
        p3.lemma_walk_step(page);
        p2.lemma_wf_slots();
        let entry = p2.spec_entries()[Page::index_of(page, Level::P2) as int];
        assert(p2.slot_wf(Page::index_of(page, Level::P2) as int));
        if entry@ == 0 {
            entry.lemma_unused_is_absent();
        }
        Page::lemma_offset_in_span(page);
    }
}

} // verus!
