//! A frame allocator that walks through the usable memory areas once,
//! from low addresses to high, and never takes a frame back.

use crate::memory::{Frame, FrameAllocator, MAX_FRAME_NUMBER, PAGE_SIZE};
use vstd::prelude::*;
use vstd::set_lib::{lemma_int_range, lemma_len_subset, set_int_range};

verus! {

/// A range of usable physical memory: `length` bytes from `base_addr` on.
#[derive(Debug, Clone, Copy, PartialEq, Eq, Structural)]
pub struct MemoryArea {
    /// The first address of the area.
    pub base_addr: u64,
    /// The size of the area in bytes.
    pub length: u64,
}

impl MemoryArea {
    /// The number of the first frame that lies wholly within the area, if
    /// any does.
    pub open spec fn first_frame(self) -> nat {
        ((self.base_addr + 4095) / 4096) as nat
    }

    /// The number one past the last frame that lies wholly within the area.
    pub open spec fn end_frame(self) -> nat {
        ((self.base_addr + self.length) / 4096) as nat
    }

    /// Every byte of the frame with number `frame` belongs to the area.
    pub open spec fn holds(self, frame: nat) -> bool {
        self.base_addr <= frame * 4096 && (frame + 1) * 4096 <= self.base_addr + self.length
    }

    /// The area has a whole frame at or after `cursor`.
    pub open spec fn reaches(self, cursor: nat) -> bool {
        self.first_frame() < self.end_frame() && cursor < self.end_frame()
    }

    /// The frames of the area are those from `first_frame` up to, not
    /// including, `end_frame`.
    pub proof fn lemma_holds_between(self, frame: nat)
        ensures
            self.holds(frame) <==> self.first_frame() <= frame < self.end_frame(),
    {
    }

    /// The number of the first frame that lies wholly within the area.
    pub fn first_frame_number(&self) -> (number: u64)
        ensures
            number == self.first_frame(),
    {
        let whole = self.base_addr / PAGE_SIZE;
        if self.base_addr % PAGE_SIZE == 0 {
            whole
        } else {
            whole + 1
        }
    }

    /// The number one past the last frame that lies wholly within the area.
    pub fn end_frame_number(&self) -> (number: u64)
        ensures
            number == self.end_frame(),
    {
        self.base_addr / PAGE_SIZE + self.length / PAGE_SIZE + (self.base_addr % PAGE_SIZE
            + self.length % PAGE_SIZE) / PAGE_SIZE
    }
}

/// The state of an `AreaFrameAllocator` as plain values.
pub struct AllocatorView {
    /// No frame below this number will be handed out any more.
    pub cursor: nat,
    /// The usable memory areas, in the order they were given.
    pub areas: Seq<MemoryArea>,
    /// The first frame of the kernel image.
    pub kernel_start: nat,
    /// One past the last frame of the kernel image.
    pub kernel_end: nat,
    /// The first frame of the boot information.
    pub multiboot_start: nat,
    /// One past the last frame of the boot information.
    pub multiboot_end: nat,
}

impl AllocatorView {
    /// The frame holds part of the kernel image or of the boot information.
    pub open spec fn is_reserved(self, frame: nat) -> bool {
        (self.kernel_start <= frame < self.kernel_end) || (self.multiboot_start <= frame
            < self.multiboot_end)
    }

    /// The frame lies wholly within one of the usable areas.
    pub open spec fn in_some_area(self, frame: nat) -> bool {
        exists|index: int| 0 <= index < self.areas.len() && (#[trigger] self.areas[index]).holds(frame)
    }

    /// The frame may be handed out: it is a frame of physical memory, lies
    /// in a usable area, and is not reserved.
    pub open spec fn is_usable(self, frame: nat) -> bool {
        frame <= MAX_FRAME_NUMBER && self.in_some_area(frame) && !self.is_reserved(frame)
    }

    /// The frames that can still be handed out: the usable ones from the
    /// cursor on.
    pub open spec fn remaining(self) -> Set<int> {
        Set::new(|frame: int| self.cursor <= frame && self.is_usable(frame as nat))
    }

    /// The same allocator with its cursor at `cursor`.
    pub open spec fn at(self, cursor: nat) -> AllocatorView {
        AllocatorView { cursor, ..self }
    }

    /// What one allocation does: it hands out the lowest usable frame at or
    /// after the cursor and moves the cursor just past it; or, when no such
    /// frame exists, it hands out nothing and changes nothing.
    pub open spec fn allocates(self, after: AllocatorView, frame: Option<nat>) -> bool {
        match frame {
            Some(number) => {
                &&& self.cursor <= number
                &&& self.is_usable(number)
                &&& forall|lower: nat| self.cursor <= lower < number ==> !self.is_usable(lower)
                &&& after == self.at(number + 1)
            },
            None => {
                &&& forall|later: nat| self.cursor <= later ==> !self.is_usable(later)
                &&& after == self
            },
        }
    }
}

impl AllocatorView {
    /// Frames come out in strictly rising order, and each lies in a usable
    /// area and outside the kernel image and the boot information.
    pub proof fn lemma_allocations_rise(
        self,
        second: AllocatorView,
        third: AllocatorView,
        earlier: nat,
        later: nat,
    )
        requires
            self.allocates(second, Some(earlier)),
            second.allocates(third, Some(later)),
        ensures
            earlier < later,
            self.in_some_area(earlier) && !self.is_reserved(earlier),
            self.in_some_area(later) && !self.is_reserved(later),
    {
    }

    /// Once an allocation has found nothing, every later one finds nothing
    /// and the allocator stays as it is.
    pub proof fn lemma_exhaustion_lasts(
        self,
        second: AllocatorView,
        third: AllocatorView,
        frame: Option<nat>,
    )
        requires
            self.allocates(second, None),
            second.allocates(third, frame),
        ensures
            frame is None,
            third == self,
    {
    }

    /// The frames that can still be handed out are finitely many. Each
    /// allocation that hands out a frame takes exactly that frame away from
    /// them, and an allocation hands out nothing exactly when none is left:
    /// so after as many allocations as there were frames, nothing is handed out.
    pub proof fn lemma_remaining_shrinks(self, after: AllocatorView, frame: Option<nat>)
        requires
            self.allocates(after, frame),
        ensures
            self.remaining().finite(),
            after.remaining().finite(),
            match frame {
                Some(number) => {
                    &&& self.remaining().contains(number as int)
                    &&& after.remaining() == self.remaining().remove(number as int)
                    &&& after.remaining().len() + 1 == self.remaining().len()
                },
                None => self.remaining().len() == 0,
            },
    {
        self.lemma_remaining_finite();
        after.lemma_remaining_finite();
        match frame {
            Some(number) => {
                assert(after.remaining() =~= self.remaining().remove(number as int)) by {
                    assert forall|other: int| after.remaining().contains(other)
                        == self.remaining().remove(number as int).contains(other) by {
                        self.lemma_usable_anywhere(number + 1, other as nat);
                        if self.cursor <= other && other < number {
                            assert(!self.is_usable(other as nat));
                        }
                    }
                }
            },
            None => {
                assert(self.remaining() =~= Set::<int>::empty());
            },
        }
    }

    /// Whether a frame is usable does not depend on the cursor.
    pub proof fn lemma_usable_anywhere(self, cursor: nat, frame: nat)
        ensures
            self.at(cursor).is_usable(frame) == self.is_usable(frame),
    {
        let moved = self.at(cursor);
        if self.in_some_area(frame) {
            let index = choose|index: int|
                0 <= index < self.areas.len() && (#[trigger] self.areas[index]).holds(frame);
            assert(moved.areas[index].holds(frame));
        }
        if moved.in_some_area(frame) {
            let index = choose|index: int|
                0 <= index < moved.areas.len() && (#[trigger] moved.areas[index]).holds(frame);
            assert(self.areas[index].holds(frame));
        }
    }

    /// No more frames can be handed out than physical memory has.
    pub proof fn lemma_remaining_finite(self)
        ensures
            self.remaining().finite(),
            self.remaining().len() <= MAX_FRAME_NUMBER + 1,
    {
        lemma_int_range(0, MAX_FRAME_NUMBER + 1);
        assert(self.remaining().subset_of(set_int_range(0, MAX_FRAME_NUMBER + 1)));
        lemma_len_subset(self.remaining(), set_int_range(0, MAX_FRAME_NUMBER + 1));
    }
}

/// An allocator that hands out the frames of the usable memory areas in
/// rising order, leaving out the frames of the kernel image and of the boot
/// information. It keeps no record of frames handed out; a frame given
/// back to it is not used again.
pub struct AreaFrameAllocator {
    next_free_frame: u64,
    current_area: Option<usize>,
    areas: Vec<MemoryArea>,
    kernel_start: u64,
    kernel_end: u64,
    multiboot_start: u64,
    multiboot_end: u64,
}

impl View for AreaFrameAllocator {
    type V = AllocatorView;

    closed spec fn view(&self) -> AllocatorView {
        AllocatorView {
            cursor: self.next_free_frame as nat,
            areas: self.areas@,
            kernel_start: self.kernel_start as nat,
            kernel_end: self.kernel_end as nat,
            multiboot_start: self.multiboot_start as nat,
            multiboot_end: self.multiboot_end as nat,
        }
    }
}

/// The number of the frame that contains `address`, rounded up: the first
/// frame that starts at or after `address`.
fn frame_after(address: u64) -> (number: u64)
    ensures
        number == (address + 4095) / 4096,
{
    let whole = address / PAGE_SIZE;
    if address % PAGE_SIZE == 0 {
        whole
    } else {
        whole + 1
    }
}

impl AreaFrameAllocator {
    /// An allocator over `memory_areas` that leaves out the kernel image,
    /// which occupies the addresses from `kernel_start` up to, not
    /// including, `kernel_end`, and the boot information, from
    /// `multiboot_start` up to, not including, `multiboot_end`.
    ///
    /// A frame that holds any byte of either range is left out: the ranges
    /// are widened to whole frames, the start downwards and the end
    /// upwards.
    pub fn new(
        kernel_start: u64,
        kernel_end: u64,
        multiboot_start: u64,
        multiboot_end: u64,
        memory_areas: Vec<MemoryArea>,
    ) -> (allocator: AreaFrameAllocator)
        ensures
            allocator@ == (AllocatorView {
                cursor: 0,
                areas: memory_areas@,
                kernel_start: kernel_start as nat / 4096,
                kernel_end: ((kernel_end + 4095) / 4096) as nat,
                multiboot_start: multiboot_start as nat / 4096,
                multiboot_end: ((multiboot_end + 4095) / 4096) as nat,
            }),
    {
        AreaFrameAllocator {
            next_free_frame: 0,
            current_area: None,
            areas: memory_areas,
            kernel_start: kernel_start / PAGE_SIZE,
            kernel_end: frame_after(kernel_end),
            multiboot_start: multiboot_start / PAGE_SIZE,
            multiboot_end: frame_after(multiboot_end),
        }
    }

    /// The index of the area with the lowest base address among those that
    /// have a whole frame at or after `cursor`, if there is such an area.
    fn choose_next_area(&self, cursor: u64) -> (chosen: Option<usize>)
        ensures
            match chosen {
                Some(index) => {
                    &&& index < self@.areas.len()
                    &&& self@.areas[index as int].reaches(cursor as nat)
                    &&& forall|other: int|
                        0 <= other < self@.areas.len() && (#[trigger] self@.areas[other]).reaches(
                            cursor as nat,
                        ) ==> self@.areas[index as int].base_addr <= self@.areas[other].base_addr
                },
                None => forall|other: int|
                    0 <= other < self@.areas.len() ==> !(#[trigger] self@.areas[other]).reaches(
                        cursor as nat,
                    ),
            },
    {
        let mut chosen: Option<usize> = None;
        let mut index: usize = 0;
        while index < self.areas.len()
            invariant
                index <= self.areas@.len(),
                match chosen {
                    Some(best) => {
                        &&& best < index
                        &&& self.areas@[best as int].reaches(cursor as nat)
                        &&& forall|other: int|
                            0 <= other < index && (#[trigger] self.areas@[other]).reaches(
                                cursor as nat,
                            ) ==> self.areas@[best as int].base_addr <= self.areas@[other].base_addr
                    },
                    None => forall|other: int|
                        0 <= other < index ==> !(#[trigger] self.areas@[other]).reaches(
                            cursor as nat,
                        ),
                },
            decreases self.areas@.len() - index,
        {
            let area = self.areas[index];
            let end = area.end_frame_number();
            if area.first_frame_number() < end && cursor < end {
                let better = match chosen {
                    Some(best) => area.base_addr < self.areas[best].base_addr,
                    None => true,
                };
                if better {
                    chosen = Some(index);
                }
            }
            index += 1;
        }
        chosen
    }

    /// Whether `frame` holds part of the kernel image or of the boot
    /// information.
    pub fn is_reserved(&self, frame: Frame) -> (reserved: bool)
        ensures
            reserved <==> self@.is_reserved(frame@),
    {
        let number = frame.number();
        (self.kernel_start <= number && number < self.kernel_end) || (self.multiboot_start
            <= number && number < self.multiboot_end)
    }
}

impl FrameAllocator for AreaFrameAllocator {
    /// Hands out the lowest usable frame that was not passed yet.
    ///
    /// The search starts at the cursor. Where the cursor lies in no area, it
    /// moves on to the first frame of the area with the lowest base address
    /// that still has a frame ahead; where it lies in a reserved range, it
    /// moves past the end of that range and the search starts over.
    fn allocate_frame(&mut self) -> (frame: Option<Frame>)
        ensures
            old(self)@.allocates(
                final(self)@,
                match frame {
                    Some(f) => Some(f@),
                    None => None,
                },
            ),
    {
        let ghost before = self@;
        let mut candidate = self.next_free_frame;
        let mut area = self.current_area;
        loop
            invariant
                *self == *old(self),
                before == self@,
                before.cursor <= candidate,
                forall|lower: nat| before.cursor <= lower < candidate ==> !before.is_usable(lower),
            decreases
                    (if candidate < self.kernel_end {
                        1nat
                    } else {
                        0nat
                    }) + (if candidate < self.multiboot_end {
                        1nat
                    } else {
                        0nat
                    }),
        {
            let in_current = match area {
                Some(index) => index < self.areas.len() && self.areas[index].first_frame_number()
                    <= candidate && candidate < self.areas[index].end_frame_number(),
                None => false,
            };
            if !in_current {
                match self.choose_next_area(candidate) {
                    Some(index) => {
                        let first = self.areas[index].first_frame_number();
                        proof {
                            assert forall|lower: nat|
                                before.cursor <= lower < first implies !before.is_usable(lower) by {
                                if candidate <= lower && before.in_some_area(lower) {
                                    let other = choose|other: int|
                                        0 <= other < before.areas.len() && (
                                        #[trigger] before.areas[other]).holds(lower);
                                    before.areas[other].lemma_holds_between(lower);
                                    assert(before.areas[other].reaches(candidate as nat));
                                }
                            }
                        }
                        area = Some(index);
                        if candidate < first {
                            candidate = first;
                        }
                    },
                    None => {
                        proof {
                            assert forall|later: nat| before.cursor <= later implies !before.is_usable(
                                later,
                            ) by {
                                if candidate <= later && before.in_some_area(later) {
                                    let other = choose|other: int|
                                        0 <= other < before.areas.len() && (
                                        #[trigger] before.areas[other]).holds(later);
                                    before.areas[other].lemma_holds_between(later);
                                    assert(before.areas[other].reaches(candidate as nat));
                                }
                            }
                        }
                        return None;
                    },
                }
            }
            if candidate > MAX_FRAME_NUMBER {
                return None;
            }
            if self.kernel_start <= candidate && candidate < self.kernel_end {
                candidate = self.kernel_end;
            } else if self.multiboot_start <= candidate && candidate < self.multiboot_end {
                candidate = self.multiboot_end;
            } else {
                proof {
                    let index = area.unwrap() as int;
                    before.areas[index].lemma_holds_between(candidate as nat);
                    assert(before.areas[index].holds(candidate as nat));
                }
                self.next_free_frame = candidate + 1;
                self.current_area = area;
                return Some(Frame::from_number(candidate));
            }
        }
    }

    /// Does nothing: frames given back are not used again.
    fn deallocate_frame(&mut self, frame: Frame)
        ensures
            final(self)@ == old(self)@,
    {
    }
}

} // verus!
