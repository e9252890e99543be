//! Physical memory: frames and the capability to allocate them.

use vstd::prelude::*;

pub mod area_frame_allocator;
pub mod paging;

pub use self::area_frame_allocator::AreaFrameAllocator;

verus! {

/// A physical address.
pub type PAddr = u64;

/// Size in bytes of a page and of a frame.
pub const PAGE_SIZE: u64 = 4096;

/// The highest physical address the architecture can name (52 bits).
pub const MAX_PHYSICAL_ADDRESS: u64 = 0x000f_ffff_ffff_ffff;

/// The number of the frame that holds `MAX_PHYSICAL_ADDRESS`.
pub const MAX_FRAME_NUMBER: u64 = 0x00ff_ffff_ffff;

/// One page of physical memory, identified by its number: the frame with
/// number `n` covers the addresses `n * 4096 .. (n + 1) * 4096`.
///
/// Every `Frame` lies within the physical address space, so its start address
/// always fits a page-table entry.
#[derive(Debug, Clone, Copy, PartialEq, Eq, PartialOrd, Ord, Structural)]
pub struct Frame {
    pub(crate) number: u64,
}

impl View for Frame {
    type V = nat;

    /// The frame number.
    closed spec fn view(&self) -> nat {
        self.number as nat
    }
}

impl Frame {
    /// The frame lies within the physical address space.
    #[verifier::type_invariant]
    pub open spec fn wf(self) -> bool {
        self@ <= MAX_FRAME_NUMBER
    }

    /// The frame that contains the physical address `address`.
    pub fn containing_address(address: PAddr) -> (frame: Frame)
        requires
            address <= MAX_PHYSICAL_ADDRESS,
        ensures
            frame@ == address as nat / 4096,
            frame.wf(),
    {
        Frame { number: address / PAGE_SIZE }
    }

    /// The frame with the given number.
    pub fn from_number(number: u64) -> (frame: Frame)
        requires
            number <= MAX_FRAME_NUMBER,
        ensures
            frame@ == number,
            frame.wf(),
    {
        Frame { number }
    }

    /// The first physical address of the frame.
    pub fn start_address(&self) -> (address: PAddr)
        ensures
            address == self@ * 4096,
            address <= MAX_PHYSICAL_ADDRESS,
    {
        proof {
            use_type_invariant(&*self);
        }
        self.number * PAGE_SIZE
    }

    /// The frame number.
    pub fn number(&self) -> (number: u64)
        ensures
            number == self@,
            self.wf(),
    {
        proof {
            use_type_invariant(&*self);
        }
        self.number
    }

    /// Whether `address` lies within the physical address space, that is,
    /// whether `containing_address` accepts it.
    pub fn is_physical(address: PAddr) -> (ok: bool)
        ensures
            ok <==> address <= MAX_PHYSICAL_ADDRESS,
    {
        address <= MAX_PHYSICAL_ADDRESS
    }

    /// A frame is determined by its number.
    pub proof fn lemma_number_determines_frame(a: Frame, b: Frame)
        requires
            a@ == b@,
        ensures
            a == b,
    {
    }
}

/// The capability to hand out unused physical frames and to take them back.
///
/// The page tables depend on this capability only, never on a particular
/// allocator. Nothing is promised about a call beyond its type: an
/// allocator may run dry at any time, and code that allocates must cope
/// with `None`.
pub trait FrameAllocator {
    /// Hands out a frame that is not in use, or `None` when there is none left.
    fn allocate_frame(&mut self) -> Option<Frame>;

    /// Takes back a frame that was handed out earlier.
    fn deallocate_frame(&mut self, frame: Frame);
}

} // verus!
