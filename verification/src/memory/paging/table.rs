//! One table of the hierarchy: 512 entries and the tables below them.

use crate::memory::paging::entry::{Entry, EntryFlags, HUGE_PAGE, PRESENT, WRITABLE};
use crate::memory::paging::Page;
use crate::memory::{Frame, FrameAllocator, MAX_FRAME_NUMBER};
use vstd::pervasive::unreached;
use vstd::prelude::*;

verus! {

/// The number of entries of a table.
pub const ENTRY_COUNT: usize = 512;

/// The level of a table in the hierarchy. `P4` is the root; the entries of a
/// `P1` table map single pages.
#[derive(Debug, Clone, Copy, PartialEq, Eq, Structural)]
pub enum Level {
    P4,
    P3,
    P2,
    P1,
}

/// The size of a mapped page.
#[derive(Debug, Clone, Copy, PartialEq, Eq, Structural)]
pub enum PageSize {
    /// An ordinary page, mapped by an entry of a P1 table.
    Size4KiB,
    /// A huge page mapped by an entry of a P2 table.
    Size2MiB,
    /// A huge page mapped by an entry of a P3 table.
    Size1GiB,
}

/// What a page is mapped to.
pub struct Mapping {
    /// The number of the frame that backs the page.
    pub frame: nat,
    /// The flag bits of the entry that maps the page.
    pub flags: u64,
    /// The size of the mapping that the page belongs to.
    pub size: PageSize,
}

/// Why a page could not be mapped.
#[derive(Debug, Clone, Copy, PartialEq, Eq, Structural)]
pub enum MapError {
    /// The allocator had no frame left for the page or for a table.
    OutOfMemory,
}

impl Level {
    /// The number of pages that one entry of a table of this level spans.
    pub open spec fn pages_per_entry(self) -> nat {
        match self {
            Level::P4 => 134217728,
            Level::P3 => 262144,
            Level::P2 => 512,
            Level::P1 => 1,
        }
    }

    /// The level of the tables that the entries of a table of this level
    /// lead to. `P1` tables have none.
    pub open spec fn below(self) -> Option<Level> {
        match self {
            Level::P4 => Some(Level::P3),
            Level::P3 => Some(Level::P2),
            Level::P2 => Some(Level::P1),
            Level::P1 => None,
        }
    }

    /// The distance of the level from the bottom of the hierarchy, from 4
    /// for `P4` down to 1 for `P1`.
    pub open spec fn rank(self) -> nat {
        match self {
            Level::P4 => 4,
            Level::P3 => 3,
            Level::P2 => 2,
            Level::P1 => 1,
        }
    }

    /// The size of the page that a terminal entry of a table of this level
    /// maps.
    pub open spec fn page_size(self) -> PageSize {
        match self {
            Level::P3 => PageSize::Size1GiB,
            Level::P2 => PageSize::Size2MiB,
            _ => PageSize::Size4KiB,
        }
    }

    /// Whether an entry of a table of this level can map a huge page.
    pub open spec fn allows_huge(self) -> bool {
        self == Level::P3 || self == Level::P2
    }

    /// Whether an entry of a table of this level may map `frame` with
    /// `flags` itself: any frame in a P1 table; in a P3 or P2 table a frame
    /// aligned to the size of the huge page, flagged `HUGE_PAGE`.
    pub open spec fn can_map(self, frame: nat, flags: u64) -> bool {
        self == Level::P1 || (self.allows_huge() && flags & HUGE_PAGE == HUGE_PAGE && frame
            % self.pages_per_entry() == 0)
    }

    /// Whether an entry of a table of this level may map `frame` with
    /// `flags` itself, that is, whether `Table::set_entry` accepts them.
    pub fn accepts(&self, frame: Frame, flags: EntryFlags) -> (ok: bool)
        ensures
            ok <==> self.can_map(frame@, flags@),
    {
        let huge = flags.bits() & HUGE_PAGE == HUGE_PAGE;
        match self {
            Level::P4 => false,
            Level::P3 => huge && frame.number() % 262144 == 0,
            Level::P2 => huge && frame.number() % 512 == 0,
            Level::P1 => true,
        }
    }

    /// The level one step down the hierarchy, if there is one.
    pub fn next_level(&self) -> (next: Option<Level>)
        ensures
            next == self.below(),
    {
        match self {
            Level::P4 => Some(Level::P3),
            Level::P3 => Some(Level::P2),
            Level::P2 => Some(Level::P1),
            Level::P1 => None,
        }
    }
}

/// One table of the hierarchy.
///
/// A table owns the tables that its entries lead to: clearing or
/// overwriting an entry drops the whole subtree below it.
pub struct Table {
    level: Level,
    entries: Vec<Entry>,
    tables: Vec<Option<Table>>,
}

impl Table {
    /// The level of the table.
    pub closed spec fn spec_level(&self) -> Level {
        self.level
    }

    /// The entries of the table, by index.
    pub closed spec fn spec_entries(&self) -> Seq<Entry> {
        self.entries@
    }

    /// The tables that the entries lead to, by index.
    pub closed spec fn spec_children(&self) -> Seq<Option<Table>> {
        self.tables@
    }

    /// The entry at `index` and the table below it fit together: an unused
    /// entry and a terminal entry have no table below them, a huge page
    /// starts at a frame aligned to its size, and any other entry leads to
    /// a table of the next level.
    pub open spec fn slot_wf(&self, index: int) -> bool {
        let entry = self.spec_entries()[index];
        let child = self.spec_children()[index];
        if entry@ == 0 {
            child is None
        } else if !entry.is_present() {
            false
        } else if self.spec_level() == Level::P1 {
            child is None
        } else if entry.has(HUGE_PAGE) {
            &&& self.spec_level().allows_huge()
            &&& child is None
            &&& entry.frame_number() % self.spec_level().pages_per_entry() == 0
        } else {
            child matches Some(table) && Some(table.spec_level()) == self.spec_level().below()
        }
    }

    /// The table and all tables below it are well formed: each has 512
    /// slots, and every slot satisfies `slot_wf`.
    pub open spec fn wf(&self) -> bool
        decreases self.spec_level().rank(),
    {
        &&& self.spec_entries().len() == 512
        &&& self.spec_children().len() == 512
        &&& forall|index: int| 0 <= index < 512 ==> #[trigger] self.slot_wf(index)
        &&& forall|index: int|
            0 <= index < 512 ==> match #[trigger] self.spec_children()[index] {
                Some(table) => table.spec_level().rank() < self.spec_level().rank()
                    && table.wf(),
                None => true,
            }
    }

    /// What the page with number `page` is mapped to by the walk that
    /// starts at this table, if it is mapped.
    ///
    /// The walk takes the entry that the page selects. An absent entry maps
    /// nothing. An entry of a P1 table maps the page to its frame. A huge
    /// page maps the page to the frame at the page's offset within the huge
    /// page. Any other entry continues the walk in the table below.
    pub open spec fn resolve(&self, page: nat) -> Option<Mapping>
        decreases self.spec_level().rank(),
    {
        let level = self.spec_level();
        let index = Page::index_of(page, level) as int;
        let entry = self.spec_entries()[index];
        if !entry.is_present() {
            None
        } else if level == Level::P1 {
            Some(
                Mapping {
                    frame: entry.frame_number(),
                    flags: entry.flag_bits(),
                    size: PageSize::Size4KiB,
                },
            )
        } else if entry.has(HUGE_PAGE) && level.allows_huge() {
            Some(
                Mapping {
                    frame: entry.frame_number() + page % level.pages_per_entry(),
                    flags: entry.flag_bits(),
                    size: level.page_size(),
                },
            )
        } else {
            match self.spec_children()[index] {
                Some(table) => if table.spec_level().rank() < level.rank() {
                    table.resolve(page)
                } else {
                    None
                },
                None => None,
            }
        }
    }

    /// Every entry is unused.
    pub open spec fn is_empty(&self) -> bool {
        &&& forall|index: int|
            0 <= index < 512 ==> (#[trigger] self.spec_entries()[index])@ == 0
        &&& forall|index: int| 0 <= index < 512 ==> #[trigger] self.spec_children()[index] is None
    }

    /// `after` is `before` with `child` below the entry at `index`: the
    /// entry leads to a table, and nothing else differs.
    pub open spec fn child_replaced(before: Table, after: Table, index: int, child: Table) -> bool {
        &&& after.spec_level() == before.spec_level()
        &&& after.spec_entries().len() == 512
        &&& forall|other: int|
            0 <= other < 512 && other != index ==> #[trigger] after.spec_entries()[other]
                == before.spec_entries()[other]
        &&& after.spec_entries()[index].is_present()
        &&& !after.spec_entries()[index].has(HUGE_PAGE)
        &&& after.spec_entries()[index]@ != 0
        &&& after.spec_children() =~= before.spec_children().update(index, Some(child))
    }
}

impl Table {
    /// A table of `level` whose entries are all unused.
    pub fn new(level: Level) -> (table: Table)
        ensures
            table.wf(),
            table.spec_level() == level,
            table.is_empty(),
            forall|page: nat| #[trigger] table.resolve(page) is None,
    {
        let mut entries: Vec<Entry> = Vec::new();
        let mut tables: Vec<Option<Table>> = Vec::new();
        let mut count: usize = 0;
        while count < ENTRY_COUNT
            invariant
                count <= 512,
                entries@.len() == count,
                tables@.len() == count,
                forall|index: int| 0 <= index < count ==> (#[trigger] entries@[index])@ == 0,
                forall|index: int| 0 <= index < count ==> !(#[trigger] entries@[index]).is_present(),
                forall|index: int| 0 <= index < count ==> #[trigger] tables@[index] is None,
            decreases 512 - count,
        {
            entries.push(Entry::unused());
            tables.push(None);
            count += 1;
        }
        let table = Table { level, entries, tables };
        assert forall|index: int| 0 <= index < 512 implies #[trigger] table.slot_wf(index) by {}
        assert forall|page: nat| #[trigger] table.resolve(page) is None by {
            assert(Page::index_of(page, level) < 512);
        }
        table
    }

    /// The level of the table.
    pub fn level(&self) -> (level: Level)
        ensures
            level == self.spec_level(),
    {
        self.level
    }

    /// The entry at `index`.
    pub fn entry(&self, index: usize) -> (entry: Entry)
        requires
            self.wf(),
            index < 512,
        ensures
            entry == self.spec_entries()[index as int],
    {
        self.entries[index]
    }

    /// Makes the entry at `index` map `frame` with `flags` and `PRESENT`,
    /// whatever the entry held before. The tables below the entry, if
    /// there were any, are dropped.
    pub fn set_entry(&mut self, index: usize, frame: Frame, flags: EntryFlags)
        requires
            old(self).wf(),
            index < 512,
            old(self).spec_level().can_map(frame@, flags@),
        ensures
            final(self).wf(),
            final(self).spec_level() == old(self).spec_level(),
            final(self).spec_entries().len() == 512,
            final(self).spec_entries()[index as int]@ == Entry::compose(frame@, flags@),
            forall|other: int|
                0 <= other < 512 && other != index ==> #[trigger] final(self).spec_entries()[other]
                    == old(self).spec_entries()[other],
            final(self).spec_children() == old(self).spec_children().update(index as int, None),
            forall|page: nat| #[trigger]
                final(self).resolve(page) == if Page::index_of(page, old(self).spec_level())
                    == index {
                    Some(
                        Mapping {
                            frame: frame@ + page % old(self).spec_level().pages_per_entry(),
                            flags: flags@ | PRESENT,
                            size: old(self).spec_level().page_size(),
                        },
                    )
                } else {
                    old(self).resolve(page)
                },
    {
        let mut entry = Entry::unused();
        entry.set(frame, flags);
        self.entries[index] = entry;
        self.tables[index] = None;
        proof {
            let before = *old(self);
            let after = *self;
            assert forall|other: int| 0 <= other < 512 implies #[trigger] after.slot_wf(other) by {
                if other != index {
                    assert(before.slot_wf(other));
                }
            }
            assert forall|other: int| 0 <= other < 512 implies match #[trigger] after.spec_children()[other] {
                Some(table) => table.spec_level().rank() < after.spec_level().rank()
                    && table.wf(),
                None => true,
            } by {
                if other != index {
                    assert(after.spec_children()[other] == before.spec_children()[other]);
                }
            }
            assert forall|page: nat| #[trigger]
                after.resolve(page) == if Page::index_of(page, before.spec_level()) == index {
                    Some(
                        Mapping {
                            frame: frame@ + page % before.spec_level().pages_per_entry(),
                            flags: flags@ | PRESENT,
                            size: before.spec_level().page_size(),
                        },
                    )
                } else {
                    before.resolve(page)
                } by {
                let at = Page::index_of(page, before.spec_level()) as int;
                if at != index {
                    assert(after.spec_children()[at] == before.spec_children()[at]);
                }
            }
        }
    }

    /// Marks the entry at `index` unused. The tables below the entry, if
    /// there were any, are dropped.
    pub fn clear_entry(&mut self, index: usize)
        requires
            old(self).wf(),
            index < 512,
        ensures
            final(self).wf(),
            final(self).spec_level() == old(self).spec_level(),
            final(self).spec_entries().len() == 512,
            final(self).spec_entries()[index as int]@ == 0,
            forall|other: int|
                0 <= other < 512 && other != index ==> #[trigger] final(self).spec_entries()[other]
                    == old(self).spec_entries()[other],
            final(self).spec_children() == old(self).spec_children().update(index as int, None),
            forall|page: nat| #[trigger]
                final(self).resolve(page) == if Page::index_of(page, old(self).spec_level())
                    == index {
                    None
                } else {
                    old(self).resolve(page)
                },
    {
        let mut entry = self.entries[index];
        entry.set_unused();
        self.entries[index] = entry;
        self.tables[index] = None;
        proof {
            let before = *old(self);
            let after = *self;
            entry.lemma_unused_is_absent();
            assert forall|other: int| 0 <= other < 512 implies #[trigger] after.slot_wf(other) by {
                if other != index {
                    assert(before.slot_wf(other));
                }
            }
            assert forall|other: int| 0 <= other < 512 implies match #[trigger] after.spec_children()[other] {
                Some(table) => table.spec_level().rank() < after.spec_level().rank()
                    && table.wf(),
                None => true,
            } by {
                if other != index {
                    assert(after.spec_children()[other] == before.spec_children()[other]);
                }
            }
            assert forall|page: nat| #[trigger]
                after.resolve(page) == if Page::index_of(page, before.spec_level()) == index {
                    None
                } else {
                    before.resolve(page)
                } by {
                let at = Page::index_of(page, before.spec_level()) as int;
                if at != index {
                    assert(after.spec_children()[at] == before.spec_children()[at]);
                }
            }
        }
    }

    /// The table that the entry at `index` leads to, if it leads to one:
    /// none for an entry that is unused or maps a huge page.
    pub fn next_table(&self, index: usize) -> (table: Option<&Table>)
        requires
            self.wf(),
            index < 512,
            self.spec_level() != Level::P1,
        ensures
            table is Some <==> self.spec_children()[index as int] is Some,
            table matches Some(below) ==> self.spec_children()[index as int] == Some(*below)
                && below.wf() && Some(below.spec_level()) == self.spec_level().below(),
            table is Some <==> self.spec_entries()[index as int].is_present()
                && !self.spec_entries()[index as int].is_huge(),
    {
        proof {
            self.lemma_wf_slots();
            assert(self.slot_wf(index as int));
            if self.spec_entries()[index as int]@ == 0 {
                self.spec_entries()[index as int].lemma_unused_is_absent();
            }
        }
        let entry = self.entries[index];
        if entry.pointed_frame().is_some() && !entry.is_huge_page() {
            match &self.tables[index] {
                Some(below) => Some(below),
                None => None,
            }
        } else {
            None
        }
    }

    /// Like `next_table`, for changing the table below. What `self` holds
    /// below `index` afterwards is what the caller leaves in the table
    /// handed out.
    pub fn next_table_mut(&mut self, index: usize) -> (table: Option<&mut Table>)
        requires
            old(self).wf(),
            index < 512,
            old(self).spec_level() != Level::P1,
        ensures
            table is Some <==> old(self).spec_children()[index as int] is Some,
            final(self).spec_level() == old(self).spec_level(),
            final(self).spec_entries() == old(self).spec_entries(),
            match table {
                Some(below) => {
                    &&& old(self).spec_children()[index as int] == Some(*below)
                    &&& below.wf()
                    &&& Some(below.spec_level()) == old(self).spec_level().below()
                    &&& forall|page: nat|
                        Page::index_of(page, old(self).spec_level()) == index
                            ==> #[trigger] below.resolve(page) == old(self).resolve(page)
                    &&& Self::child_replaced(*old(self), *final(self), index as int, *final(below))
                },
                None => final(self).spec_children() == old(self).spec_children(),
            },
    {
        proof {
            self.lemma_wf_slots();
            assert(self.slot_wf(index as int));
            if self.spec_entries()[index as int]@ == 0 {
                self.spec_entries()[index as int].lemma_unused_is_absent();
            }
            assert forall|page: nat|
                Page::index_of(page, self.spec_level()) == index && self.spec_children()[index as int] is Some implies #[trigger] self.spec_children()[index as int].unwrap().resolve(
                page,
            ) == self.resolve(page) by {
                self.lemma_walk_step(page);
            }
        }
        match &mut self.tables[index] {
            Some(below) => Some(below),
            None => None,
        }
    }

    /// Puts a new table, with all entries unused, below the unused entry
    /// at `index`. The table lives in `frame`: the entry is set to lead to
    /// that frame, with `PRESENT` and `WRITABLE`. No page is mapped or
    /// unmapped by this.
    pub fn install_table(&mut self, index: usize, frame: Frame)
        requires
            old(self).wf(),
            index < 512,
            old(self).spec_level() != Level::P1,
            old(self).spec_entries()[index as int]@ == 0,
        ensures
            final(self).wf(),
            final(self).spec_level() == old(self).spec_level(),
            final(self).spec_entries().len() == 512,
            final(self).spec_entries()[index as int]@ == Entry::compose(
                frame@,
                PRESENT | WRITABLE,
            ),
            final(self).spec_entries()[index as int].is_present(),
            final(self).spec_entries()[index as int].frame_number() == frame@,
            final(self).spec_entries()[index as int].flag_bits() == PRESENT | WRITABLE,
            !final(self).spec_entries()[index as int].has(HUGE_PAGE),
            forall|other: int|
                0 <= other < 512 && other != index ==> #[trigger] final(self).spec_entries()[other]
                    == old(self).spec_entries()[other],
            forall|other: int|
                0 <= other < 512 && other != index ==> #[trigger] final(self).spec_children()[other]
                    == old(self).spec_children()[other],
            final(self).spec_children().len() == 512,
            final(self).spec_children()[index as int] matches Some(below) && below.is_empty()
                && below.wf() && Some(below.spec_level()) == old(self).spec_level().below(),
            forall|page: nat| #[trigger] final(self).resolve(page) == old(self).resolve(page),
    {
        proof {
            self.lemma_wf_slots();
            assert(self.slot_wf(index as int));
            Entry::lemma_table_flags();
        }
        let level = match self.level.next_level() {
            Some(level) => level,
            None => unreached(),
        };
        let below = Table::new(level);
        let mut entry = Entry::unused();
        entry.set(frame, EntryFlags::from_bits_truncate(PRESENT | WRITABLE));
        self.entries[index] = entry;
        self.tables[index] = Some(below);
        proof {
            let before = *old(self);
            let after = *self;
            assert(Self::child_replaced(before, after, index as int, below));
            Self::lemma_child_installed(before, after, index as int, below);
            assert forall|page: nat| #[trigger] after.resolve(page) == before.resolve(page) by {
                before.lemma_walk_step(page);
            }
        }
    }

    /// The table that the entry at `index` leads to, made first if the
    /// entry is unused: a frame for it is taken from `allocator`, the new
    /// table starts with all entries unused, and the entry is set to lead
    /// to it with `PRESENT` and `WRITABLE`.
    ///
    /// Fails, leaving the table as it was, only if a table had to be made
    /// and the allocator had no frame.
    pub fn next_table_create<A: FrameAllocator>(&mut self, index: usize, allocator: &mut A) -> (table:
        Result<&mut Table, MapError>)
        requires
            old(self).wf(),
            index < 512,
            old(self).spec_level() != Level::P1,
            !old(self).spec_entries()[index as int].is_huge(),
        ensures
            old(self).spec_children()[index as int] is Some ==> table is Ok && *final(allocator)
                == *old(allocator),
            final(self).spec_level() == old(self).spec_level(),
            match table {
                Ok(below) => {
                    &&& below.wf()
                    &&& Some(below.spec_level()) == old(self).spec_level().below()
                    &&& match old(self).spec_children()[index as int] {
                        Some(existing) => *below == existing && final(self).spec_entries()[index as int]
                            == old(self).spec_entries()[index as int],
                        None => below.is_empty() && final(self).spec_entries()[index as int].flag_bits()
                            == PRESENT | WRITABLE,
                    }
                    &&& forall|page: nat|
                        Page::index_of(page, old(self).spec_level()) == index
                            ==> #[trigger] below.resolve(page) == old(self).resolve(page)
                    &&& Self::child_replaced(*old(self), *final(self), index as int, *final(below))
                },
                Err(error) => {
                    &&& error == MapError::OutOfMemory
                    &&& old(self).spec_children()[index as int] is None
                    &&& final(self).spec_entries() == old(self).spec_entries()
                    &&& final(self).spec_children() == old(self).spec_children()
                },
            },
    {
        proof {
            self.lemma_wf_slots();
            assert(self.slot_wf(index as int));
            assert forall|page: nat|
                Page::index_of(page, self.spec_level()) == index implies #[trigger] self.resolve(
                page,
            ) == match self.spec_children()[index as int] {
                Some(existing) => existing.resolve(page),
                None => None,
            } by {
                if self.spec_children()[index as int] is Some {
                    self.lemma_walk_step(page);
                } else {
                    self.spec_entries()[index as int].lemma_unused_is_absent();
                }
            }
        }
        if self.entries[index].is_unused() {
            match allocator.allocate_frame() {
                Some(frame) => self.install_table(index, frame),
                None => {
                    return Err(MapError::OutOfMemory);
                },
            }
        }
        match &mut self.tables[index] {
            Some(below) => Ok(below),
            None => unreached(),
        }
    }
}

impl Table {
    /// What well-formedness says of each slot, and of the table below it.
    pub proof fn lemma_wf_slots(self)
        requires
            self.wf(),
        ensures
            self.spec_entries().len() == 512,
            self.spec_children().len() == 512,
            forall|index: int| 0 <= index < 512 ==> #[trigger] self.slot_wf(index),
            forall|index: int|
                0 <= index < 512 ==> (#[trigger] self.spec_children()[index] matches Some(table)
                    ==> table.wf() && Some(table.spec_level()) == self.spec_level().below()),
    {
        assert forall|index: int| 0 <= index < 512 implies (
        #[trigger] self.spec_children()[index] matches Some(table) ==> table.wf() && Some(
            table.spec_level(),
        ) == self.spec_level().below()) by {
            assert(self.slot_wf(index));
            if self.spec_entries()[index]@ == 0 {
                self.spec_entries()[index].lemma_unused_is_absent();
            }
        }
    }

    /// Well-formedness and the walk depend on nothing but the level, the
    /// entries and the tables below.
    pub proof fn lemma_same_structure(self, other: Table)
        requires
            self.spec_level() == other.spec_level(),
            self.spec_entries() == other.spec_entries(),
            self.spec_children() == other.spec_children(),
        ensures
            self.wf() == other.wf(),
            forall|page: nat| #[trigger] self.resolve(page) == other.resolve(page),
    {
        assert forall|index: int| 0 <= index < 512 implies #[trigger] self.slot_wf(index)
            == other.slot_wf(index) by {}
        if self.wf() {
            assert forall|index: int| 0 <= index < 512 implies #[trigger] other.slot_wf(index) by {
                assert(self.slot_wf(index));
            }
            assert(other.wf());
        }
        if other.wf() {
            assert forall|index: int| 0 <= index < 512 implies #[trigger] self.slot_wf(index) by {
                assert(other.slot_wf(index));
            }
            assert(self.wf());
        }
    }

    /// When the table below `index` is replaced, the table stays well
    /// formed if the new one is, and the walk changes only for the pages
    /// that select `index`: for them it continues in the new table.
    pub proof fn lemma_child_installed(before: Table, after: Table, index: int, child: Table)
        requires
            before.wf(),
            0 <= index < 512,
            Self::child_replaced(before, after, index, child),
            Some(child.spec_level()) == before.spec_level().below(),
        ensures
            child.wf() ==> after.wf(),
            forall|page: nat| #[trigger]
                after.resolve(page) == if Page::index_of(page, before.spec_level()) == index {
                    child.resolve(page)
                } else {
                    before.resolve(page)
                },
    {
        if child.wf() {
            assert forall|other: int| 0 <= other < 512 implies #[trigger] after.slot_wf(other) by {
                if other != index {
                    assert(before.slot_wf(other));
                }
            }
            assert forall|other: int| 0 <= other < 512 implies match #[trigger] after.spec_children()[other] {
                Some(table) => table.spec_level().rank() < after.spec_level().rank()
                    && table.wf(),
                None => true,
            } by {
                if other != index {
                    assert(after.spec_children()[other] == before.spec_children()[other]);
                }
            }
        }
        assert forall|page: nat| #[trigger]
            after.resolve(page) == if Page::index_of(page, before.spec_level()) == index {
                child.resolve(page)
            } else {
                before.resolve(page)
            } by {
            let at = Page::index_of(page, before.spec_level()) as int;
            if at != index {
                assert(after.spec_children()[at] == before.spec_children()[at]);
            }
        }
    }

    /// One step of the walk in a well-formed table: what the entry that
    /// the page selects says about where the walk goes.
    pub proof fn lemma_walk_step(self, page: nat)
        requires
            self.wf(),
        ensures
            ({
                let index = Page::index_of(page, self.spec_level()) as int;
                let entry = self.spec_entries()[index];
                let below = self.spec_children()[index];
                &&& 0 <= index < 512
                &&& !entry.is_present() ==> self.resolve(page) is None && below is None
                &&& entry.is_present() ==> entry@ != 0
                &&& entry.is_present() && self.spec_level() == Level::P1 ==> self.resolve(page)
                    == Some(
                    Mapping {
                        frame: entry.frame_number(),
                        flags: entry.flag_bits(),
                        size: PageSize::Size4KiB,
                    },
                ) && below is None
                &&& entry.is_huge() && self.spec_level() != Level::P1 ==> {
                    &&& self.spec_level().allows_huge()
                    &&& below is None
                    &&& entry.frame_number() % self.spec_level().pages_per_entry() == 0
                    &&& self.resolve(page) == Some(
                        Mapping {
                            frame: entry.frame_number() + page % self.spec_level().pages_per_entry(),
                            flags: entry.flag_bits(),
                            size: self.spec_level().page_size(),
                        },
                    )
                    &&& self.spec_level().page_size() != PageSize::Size4KiB
                }
                &&& entry.is_present() && !entry.is_huge() && self.spec_level() != Level::P1 ==> {
                    &&& below matches Some(table)
                    &&& table.wf()
                    &&& Some(table.spec_level()) == self.spec_level().below()
                    &&& self.resolve(page) == table.resolve(page)
                }
            }),
    {
        let index = Page::index_of(page, self.spec_level()) as int;
        let entry = self.spec_entries()[index];
        self.lemma_wf_slots();
        assert(self.slot_wf(index));
        if entry@ == 0 {
            entry.lemma_unused_is_absent();
        }
    }

    /// The walk ends at frames of physical memory only.
    pub proof fn lemma_resolve_is_physical(self, page: nat)
        requires
            self.wf(),
            self.resolve(page) is Some,
        ensures
            self.resolve(page).unwrap().frame <= MAX_FRAME_NUMBER,
        decreases self.spec_level().rank(),
    {
        let index = Page::index_of(page, self.spec_level()) as int;
        let entry = self.spec_entries()[index];
        self.lemma_wf_slots();
        assert(self.slot_wf(index));
        entry.lemma_frame_is_physical();
        if entry@ == 0 {
            entry.lemma_unused_is_absent();
        }
        if self.spec_level() != Level::P1 && !entry.has(HUGE_PAGE) {
            self.spec_children()[index].unwrap().lemma_resolve_is_physical(page);
        }
    }

    /// Installing a table below `index` that resolves every page as the
    /// table did before leaves the walk as it was.
    pub proof fn lemma_install_keeps_walk(
        before: Table,
        after: Table,
        index: int,
        child_before: Table,
        child_after: Table,
    )
        requires
            before.wf(),
            0 <= index < 512,
            Self::child_replaced(before, after, index, child_after),
            Some(child_after.spec_level()) == before.spec_level().below(),
            forall|page: nat|
                Page::index_of(page, before.spec_level()) == index
                    ==> #[trigger] child_before.resolve(page) == before.resolve(page),
            forall|page: nat| #[trigger] child_after.resolve(page) == child_before.resolve(page),
        ensures
            child_after.wf() ==> after.wf(),
            forall|page: nat| #[trigger] after.resolve(page) == before.resolve(page),
    {
        Self::lemma_child_installed(before, after, index, child_after);
        assert forall|page: nat| #[trigger] after.resolve(page) == before.resolve(page) by {
            if Page::index_of(page, before.spec_level()) == index {
                assert(child_after.resolve(page) == child_before.resolve(page));
            }
        }
    }

    /// Installing a table below `index` in which the walk differs for one
    /// slot only makes the walk from here differ for that slot only.
    pub proof fn lemma_install_changes_slot(
        before: Table,
        after: Table,
        child_before: Table,
        child_after: Table,
        number: nat,
        target: Option<Mapping>,
    )
        requires
            before.wf(),
            Self::child_replaced(
                before,
                after,
                Page::index_of(number, before.spec_level()) as int,
                child_after,
            ),
            Some(child_after.spec_level()) == before.spec_level().below(),
            forall|page: nat|
                Page::index_of(page, before.spec_level()) == Page::index_of(
                    number,
                    before.spec_level(),
                ) ==> #[trigger] child_before.resolve(page) == before.resolve(page),
            forall|page: nat| #[trigger]
                child_after.resolve(page) == if Page::same_slot(
                    page,
                    number,
                    child_after.spec_level(),
                ) {
                    target
                } else {
                    child_before.resolve(page)
                },
        ensures
            child_after.wf() ==> after.wf(),
            forall|page: nat| #[trigger]
                after.resolve(page) == if Page::same_slot(page, number, before.spec_level()) {
                    target
                } else {
                    before.resolve(page)
                },
    {
        let index = Page::index_of(number, before.spec_level()) as int;
        Self::lemma_child_installed(before, after, index, child_after);
        assert forall|page: nat| #[trigger]
            after.resolve(page) == if Page::same_slot(page, number, before.spec_level()) {
                target
            } else {
                before.resolve(page)
            } by {
            if Page::index_of(page, before.spec_level()) == index {
                assert(child_after.resolve(page) == if Page::same_slot(
                    page,
                    number,
                    child_after.spec_level(),
                ) {
                    target
                } else {
                    child_before.resolve(page)
                });
            }
        }
    }
}

} // verus!
