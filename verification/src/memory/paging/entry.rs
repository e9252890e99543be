//! Page-table entries: one 64-bit slot of a table, made of a frame reference
//! and flag bits.

use crate::memory::{Frame, MAX_FRAME_NUMBER, PAGE_SIZE};
use vstd::prelude::*;

verus! {

/// The entry is in use: it maps a frame or leads to a table.
pub const PRESENT: u64 = 0x1;

/// Writes through the entry are allowed.
pub const WRITABLE: u64 = 0x2;

/// Code running in user mode may use the entry.
pub const USER_ACCESSIBLE: u64 = 0x4;

/// Writes go straight to memory.
pub const WRITE_THROUGH: u64 = 0x8;

/// The mapped memory is not cached.
pub const NO_CACHE: u64 = 0x10;

/// Set by the processor when the entry was used.
pub const ACCESSED: u64 = 0x20;

/// Set by the processor when the mapped memory was written.
pub const DIRTY: u64 = 0x40;

/// In a P3 or P2 table: the entry ends the walk and maps a 1 GiB or 2 MiB
/// frame itself instead of leading to a table.
pub const HUGE_PAGE: u64 = 0x80;

/// The translation survives an address-space switch.
pub const GLOBAL: u64 = 0x100;

/// Code in the mapped memory cannot be executed.
pub const NO_EXECUTE: u64 = 0x8000_0000_0000_0000;

/// The bits of an entry that hold the start address of the frame.
pub const ADDRESS_MASK: u64 = 0x000f_ffff_ffff_f000;

/// The bits of an entry that hold flags: all that are not address bits.
pub const FLAGS_MASK: u64 = 0xfff0_0000_0000_0fff;

/// A set of entry flags. It never holds an address bit.
#[derive(Debug, Clone, Copy, PartialEq, Eq, Structural)]
pub struct EntryFlags {
    pub(crate) bits: u64,
}

impl View for EntryFlags {
    type V = u64;

    /// The flags as bits.
    closed spec fn view(&self) -> u64 {
        self.bits
    }
}

impl EntryFlags {
    /// No address bit is set.
    #[verifier::type_invariant]
    pub open spec fn wf(self) -> bool {
        self@ & ADDRESS_MASK == 0
    }

    /// Every flag of `other` is set in `self`.
    pub open spec fn has(self, other: u64) -> bool {
        self@ & other == other
    }

    /// The empty set.
    pub fn empty() -> (flags: EntryFlags)
        ensures
            flags@ == 0,
            flags.wf(),
    {
        assert(0u64 & ADDRESS_MASK == 0) by (bit_vector);
        EntryFlags { bits: 0 }
    }

    /// The flags among `bits`; address bits are dropped.
    pub fn from_bits_truncate(bits: u64) -> (flags: EntryFlags)
        ensures
            flags@ == bits & FLAGS_MASK,
            flags.wf(),
    {
        assert((bits & FLAGS_MASK) & ADDRESS_MASK == 0) by (bit_vector);
        EntryFlags { bits: bits & FLAGS_MASK }
    }

    /// The flags as bits.
    pub fn bits(&self) -> (bits: u64)
        ensures
            bits == self@,
            self.wf(),
    {
        proof {
            use_type_invariant(&*self);
        }
        self.bits
    }

    /// Whether every flag of `other` is set in `self`.
    pub fn contains(&self, other: EntryFlags) -> (all: bool)
        ensures
            all <==> self.has(other@),
    {
        self.bits & other.bits == other.bits
    }

    /// The flags of `self` together with those of `other`.
    pub fn union(self, other: EntryFlags) -> (flags: EntryFlags)
        ensures
            flags@ == self@ | other@,
            flags.wf(),
    {
        proof {
            use_type_invariant(&self);
            use_type_invariant(&other);
        }
        let a = self.bits;
        let b = other.bits;
        assert((a | b) & ADDRESS_MASK == 0) by (bit_vector)
            requires
                a & ADDRESS_MASK == 0,
                b & ADDRESS_MASK == 0,
        ;
        EntryFlags { bits: a | b }
    }
}

/// One slot of a page table.
///
/// Bits 12 to 51 hold the start address of a frame, the others hold flags.
/// An entry whose `PRESENT` flag is clear refers to nothing, whatever its
/// other bits say; an entry that is all zero is unused.
#[derive(Debug, Clone, Copy, PartialEq, Eq, Structural)]
pub struct Entry {
    pub(crate) bits: u64,
}

impl View for Entry {
    type V = u64;

    /// The raw 64 bits.
    closed spec fn view(&self) -> u64 {
        self.bits
    }
}

impl Entry {
    /// Every flag of `flags` is set.
    pub open spec fn has(self, flags: u64) -> bool {
        self@ & flags == flags
    }

    /// The entry refers to a frame.
    pub open spec fn is_present(self) -> bool {
        self.has(PRESENT)
    }

    /// The entry is present and flagged as a huge page.
    pub open spec fn is_huge(self) -> bool {
        self.has(PRESENT) && self.has(HUGE_PAGE)
    }

    /// The number of the frame that the address bits name.
    pub open spec fn frame_number(self) -> nat {
        ((self@ & ADDRESS_MASK) / 4096) as nat
    }

    /// The flag bits: the entry without its address bits.
    pub open spec fn flag_bits(self) -> u64 {
        self@ & FLAGS_MASK
    }

    /// The bits of an entry that names frame number `frame` with `flags`
    /// and `PRESENT`.
    pub open spec fn compose(frame: nat, flags: u64) -> u64 {
        ((frame * 4096) as u64) | flags | PRESENT
    }

    /// An unused entry.
    pub fn unused() -> (entry: Entry)
        ensures
            entry@ == 0,
            !entry.is_present(),
    {
        assert(0u64 & PRESENT != PRESENT) by (bit_vector);
        Entry { bits: 0 }
    }

    /// The entry with the given raw bits.
    pub fn from_bits(bits: u64) -> (entry: Entry)
        ensures
            entry@ == bits,
    {
        Entry { bits }
    }

    /// The raw 64 bits.
    pub fn bits(&self) -> (bits: u64)
        ensures
            bits == self@,
    {
        self.bits
    }

    /// Whether the entry is unused: all zero.
    pub fn is_unused(&self) -> (unused: bool)
        ensures
            unused <==> self@ == 0,
            unused ==> !self.is_present(),
    {
        let bits = self.bits;
        assert(bits == 0 ==> bits & PRESENT != PRESENT) by (bit_vector);
        bits == 0
    }

    /// Marks the entry unused by zeroing it.
    pub fn set_unused(&mut self)
        ensures
            final(self)@ == 0,
    {
        self.bits = 0;
    }

    /// The flags of the entry.
    pub fn flags(&self) -> (flags: EntryFlags)
        ensures
            flags@ == self.flag_bits(),
            flags.wf(),
            forall|flag: u64| flag & ADDRESS_MASK == 0 ==> (#[trigger] flags.has(flag) <==> self.has(flag)),
    {
        let flags = EntryFlags::from_bits_truncate(self.bits);
        proof {
            Self::lemma_flags_survive_masking(self.bits);
        }
        flags
    }

    /// The frame that the entry refers to, if it is present.
    pub fn pointed_frame(&self) -> (frame: Option<Frame>)
        ensures
            frame is Some <==> self.is_present(),
            frame matches Some(f) ==> f@ == self.frame_number() && f.wf(),
    {
        let bits = self.bits;
        if bits & PRESENT == PRESENT {
            assert((bits & ADDRESS_MASK) / 4096 <= MAX_FRAME_NUMBER) by (bit_vector);
            Some(Frame::from_number((bits & ADDRESS_MASK) / PAGE_SIZE))
        } else {
            None
        }
    }

    /// Whether the entry is present and flagged as a huge page.
    pub fn is_huge_page(&self) -> (huge: bool)
        ensures
            huge <==> self.is_huge(),
    {
        self.bits & PRESENT == PRESENT && self.bits & HUGE_PAGE == HUGE_PAGE
    }

    /// Makes the entry refer to `frame` with `flags`. `PRESENT` is always
    /// set, whether `flags` holds it or not.
    pub fn set(&mut self, frame: Frame, flags: EntryFlags)
        ensures
            final(self)@ == Self::compose(frame@, flags@),
            final(self).is_present(),
            final(self)@ != 0,
            final(self).frame_number() == frame@,
            final(self).flag_bits() == flags@ | PRESENT,
            final(self).is_huge() <==> flags.has(HUGE_PAGE),
    {
        let address = frame.start_address();
        let flag_bits = flags.bits();
        proof {
            Self::lemma_compose(frame@, flags@);
        }
        self.bits = address | flag_bits | PRESENT;
    }

    /// An entry is determined by its bits.
    pub proof fn lemma_bits_determine_entry(a: Entry, b: Entry)
        requires
            a@ == b@,
        ensures
            a == b,
    {
    }

    /// The address bits of an entry name a frame of physical memory.
    pub proof fn lemma_frame_is_physical(self)
        ensures
            self.frame_number() <= MAX_FRAME_NUMBER,
    {
        let bits = self@;
        assert((bits & ADDRESS_MASK) / 4096 <= MAX_FRAME_NUMBER) by (bit_vector);
    }

    /// An unused entry is not present.
    pub proof fn lemma_unused_is_absent(self)
        requires
            self@ == 0,
        ensures
            !self.is_present(),
            !self.is_huge(),
    {
        assert(0u64 & PRESENT != PRESENT) by (bit_vector);
    }

    /// The flags of an entry that leads to a table are flags, not address
    /// bits, and `HUGE_PAGE` is not among them.
    pub proof fn lemma_table_flags()
        ensures
            (PRESENT | WRITABLE) & FLAGS_MASK == PRESENT | WRITABLE,
            (PRESENT | WRITABLE) | PRESENT == PRESENT | WRITABLE,
            (PRESENT | WRITABLE) & HUGE_PAGE != HUGE_PAGE,
    {
        assert((PRESENT | WRITABLE) & FLAGS_MASK == PRESENT | WRITABLE) by (bit_vector);
        assert((PRESENT | WRITABLE) | PRESENT == PRESENT | WRITABLE) by (bit_vector);
        assert((PRESENT | WRITABLE) & HUGE_PAGE != HUGE_PAGE) by (bit_vector);
    }

    /// Masking out the address bits keeps every flag.
    pub proof fn lemma_flags_survive_masking(bits: u64)
        ensures
            forall|flag: u64|
                flag & ADDRESS_MASK == 0 ==> (#[trigger] ((bits & FLAGS_MASK) & flag) == flag
                    <==> bits & flag == flag),
    {
        assert forall|flag: u64| flag & ADDRESS_MASK == 0 implies (#[trigger] ((bits & FLAGS_MASK)
            & flag) == flag <==> bits & flag == flag) by {
            assert(flag & ADDRESS_MASK == 0 ==> ((bits & FLAGS_MASK) & flag == flag <==> bits
                & flag == flag)) by (bit_vector);
        }
    }

    /// What can be read back from an entry composed of a frame and flags.
    pub proof fn lemma_compose(frame: nat, flags: u64)
        requires
            frame <= MAX_FRAME_NUMBER,
            flags & ADDRESS_MASK == 0,
        ensures
            ({
                let bits = Self::compose(frame, flags);
                &&& bits & PRESENT == PRESENT
                &&& bits != 0
                &&& (bits & ADDRESS_MASK) / 4096 == frame
                &&& bits & FLAGS_MASK == flags | PRESENT
                &&& (bits & HUGE_PAGE == HUGE_PAGE <==> flags & HUGE_PAGE == HUGE_PAGE)
            }),
    {
        let number = frame as u64;
        let address = (frame * 4096) as u64;
        assert(address == number * 4096);
        assert(address & FLAGS_MASK == 0) by (bit_vector)
            requires
                number <= MAX_FRAME_NUMBER,
                address == number * 4096,
        ;
        let bits = address | flags | PRESENT;
        assert({
            &&& bits & PRESENT == PRESENT
            &&& bits != 0
            &&& bits & ADDRESS_MASK == address
            &&& bits & FLAGS_MASK == flags | PRESENT
            &&& (bits & HUGE_PAGE == HUGE_PAGE <==> flags & HUGE_PAGE == HUGE_PAGE)
        }) by (bit_vector)
            requires
                address & FLAGS_MASK == 0,
                flags & ADDRESS_MASK == 0,
                bits == address | flags | PRESENT,
        ;
    }
}

} // verus!
