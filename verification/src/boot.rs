//! From what the boot loader reports to a frame allocator: where the kernel
//! image lies, where the boot information lies, and which memory is usable.

use crate::memory::area_frame_allocator::{AreaFrameAllocator, MemoryArea};
use vstd::prelude::*;

verus! {

/// One section of the kernel image as the boot loader reports it.
#[derive(Debug, Clone, Copy, PartialEq, Eq, Structural)]
pub struct ElfSection {
    /// The address that the section is loaded at.
    pub addr: u64,
    /// The size of the section in bytes.
    pub size: u64,
    /// The flags of the section.
    pub flags: u64,
}

impl ElfSection {
    /// The address just past the section.
    pub open spec fn end(self) -> nat {
        (self.addr + self.size) as nat
    }

    /// The section ends within the address space.
    pub open spec fn bounded(self) -> bool {
        self.addr + self.size <= u64::MAX
    }

    /// Whether the section ends within the address space.
    pub fn is_bounded(&self) -> (ok: bool)
        ensures
            ok <==> self.bounded(),
    {
        self.size <= u64::MAX - self.addr
    }
}

/// `start` is the lowest address at which a section of `sections` starts
/// and `end` the highest address just past one.
pub open spec fn is_extent(sections: Seq<ElfSection>, start: u64, end: u64) -> bool {
    &&& exists|index: int| 0 <= index < sections.len() && (#[trigger] sections[index]).addr == start
    &&& forall|index: int| 0 <= index < sections.len() ==> start <= (#[trigger] sections[index]).addr
    &&& exists|index: int| 0 <= index < sections.len() && (#[trigger] sections[index]).end() == end
    &&& forall|index: int| 0 <= index < sections.len() ==> (#[trigger] sections[index]).end() <= end
}

/// A list of sections has one extent only.
pub proof fn lemma_extent_is_unique(
    sections: Seq<ElfSection>,
    start: u64,
    end: u64,
    other_start: u64,
    other_end: u64,
)
    requires
        is_extent(sections, start, end),
        is_extent(sections, other_start, other_end),
    ensures
        start == other_start,
        end == other_end,
{
}

/// The addresses that the kernel image occupies, from the first returned up
/// to, not including, the second: the lowest start and the highest end of
/// its sections.
pub fn kernel_extent(sections: &Vec<ElfSection>) -> (extent: (u64, u64))
    requires
        sections@.len() > 0,
        forall|index: int| 0 <= index < sections@.len() ==> (#[trigger] sections@[index]).bounded(),
    ensures
        is_extent(sections@, extent.0, extent.1),
{
    let mut start = sections[0].addr;
    let mut end = sections[0].addr + sections[0].size;
    let ghost mut lowest: int = 0;
    let ghost mut highest: int = 0;
    let mut index: usize = 1;
    while index < sections.len()
        invariant
            1 <= index <= sections@.len(),
            forall|other: int| 0 <= other < sections@.len() ==> (#[trigger] sections@[other]).bounded(),
            0 <= lowest < index && sections@[lowest].addr == start,
            0 <= highest < index && sections@[highest].end() == end,
            forall|other: int| 0 <= other < index ==> start <= (#[trigger] sections@[other]).addr,
            forall|other: int| 0 <= other < index ==> (#[trigger] sections@[other]).end() <= end,
        decreases sections@.len() - index,
    {
        let section = sections[index];
        assert(sections@[index as int].bounded());
        if section.addr < start {
            start = section.addr;
            proof {
                lowest = index as int;
            }
        }
        if section.addr + section.size > end {
            end = section.addr + section.size;
            proof {
                highest = index as int;
            }
        }
        index += 1;
    }
    (start, end)
}

/// The frame allocator for a freshly booted kernel: it hands out the frames
/// of `memory_areas`, leaving out the kernel image, given by its sections,
/// and the boot information, which takes `total_size` bytes from
/// `multiboot_start` on.
pub fn frame_allocator(
    sections: &Vec<ElfSection>,
    multiboot_start: u64,
    total_size: u32,
    memory_areas: Vec<MemoryArea>,
) -> (allocator: AreaFrameAllocator)
    requires
        sections@.len() > 0,
        forall|index: int| 0 <= index < sections@.len() ==> (#[trigger] sections@[index]).bounded(),
        multiboot_start + total_size <= u64::MAX,
    ensures
        allocator@.cursor == 0,
        allocator@.areas == memory_areas@,
        allocator@.multiboot_start == multiboot_start as nat / 4096,
        allocator@.multiboot_end == (multiboot_start + total_size + 4095) / 4096,
        forall|start: u64, end: u64| #[trigger]
            is_extent(sections@, start, end) ==> allocator@.kernel_start == start as nat / 4096
                && allocator@.kernel_end == (end + 4095) / 4096,
{
    let (kernel_start, kernel_end) = kernel_extent(sections);
    proof {
        assert forall|start: u64, end: u64| #[trigger]
            is_extent(sections@, start, end) implies start == kernel_start && end
            == kernel_end by {
            lemma_extent_is_unique(sections@, start, end, kernel_start, kernel_end);
        }
    }
    let multiboot_end = multiboot_start + total_size as u64;
    AreaFrameAllocator::new(
        kernel_start,
        kernel_end,
        multiboot_start,
        multiboot_end,
        memory_areas,
    )
}

} // verus!
