use vstd::prelude::*;
use crate::frame::{Frame, FRAME_LIMIT, frame_of, frame_overlaps, frame_within};

verus! {

/// A range of physical memory that the boot loader reports as usable:
/// the bytes `base_addr .. base_addr + length`, cut off at the top of the
/// address space.
#[derive(Clone, Copy, Debug, PartialEq, Eq, Structural)]
pub struct MemoryArea {
    pub base_addr: u64,
    pub length: u64,
}

impl MemoryArea {
    /// Address of the area's last byte. Meaningful for a non-empty area.
    pub open spec fn spec_last_address(self) -> int {
        if self.base_addr + self.length - 1 > u64::MAX {
            u64::MAX as int
        } else {
            self.base_addr + self.length - 1
        }
    }

    /// Number of the frame that holds the area's first byte.
    pub open spec fn spec_first_frame(self) -> int {
        frame_of(self.base_addr as int)
    }

    /// Number of the frame that holds the area's last byte.
    pub open spec fn spec_last_frame(self) -> int {
        frame_of(self.spec_last_address())
    }

    /// Whether frame `f` belongs to the area: the area is not empty and `f`
    /// lies between its first and its last frame.
    pub open spec fn contains_frame(self, f: int) -> bool {
        self.length > 0 && self.spec_first_frame() <= f <= self.spec_last_frame()
    }

    /// Whether the area still holds a frame at or above `cursor`.
    pub open spec fn reaches(self, cursor: int) -> bool {
        self.length > 0 && cursor <= self.spec_last_frame()
    }

    /// Whether the area starts and ends on frame boundaries inside the
    /// address space.
    pub open spec fn aligned(self) -> bool {
        &&& self.base_addr % 4096 == 0
        &&& self.length % 4096 == 0
        &&& self.base_addr + self.length <= u64::MAX
    }

    /// The frame that holds the area's first byte.
    pub fn first_frame(&self) -> (f: Frame)
        ensures
            f.number == self.spec_first_frame(),
            f.addressable(),
    {
        Frame::containing_address(self.base_addr)
    }

    /// The frame that holds the area's last byte.
    pub fn last_frame(&self) -> (f: Frame)
        requires
            self.length > 0,
        ensures
            f.number == self.spec_last_frame(),
            f.addressable(),
            self.spec_first_frame() <= f.number,
    {
        let last: u64 = match self.base_addr.checked_add(self.length - 1) {
            Some(a) => a,
            None => u64::MAX,
        };
        Frame::containing_address(last)
    }

    /// A frame belongs to an area exactly when it shares a byte with it.
    pub proof fn lemma_contains_iff_overlaps(self, f: int)
        requires
            0 <= f < FRAME_LIMIT,
        ensures
            self.contains_frame(f) <==> frame_overlaps(
                f,
                self.base_addr as int,
                self.base_addr + self.length,
            ),
    {
    }

    /// Every frame of an aligned area lies wholly inside it.
    pub proof fn lemma_aligned_contains_within(self, f: int)
        requires
            self.aligned(),
            self.contains_frame(f),
        ensures
            frame_within(f, self.base_addr as int, self.base_addr + self.length),
    {
    }
}

/// Whether some area of the catalog contains frame `f`.
pub open spec fn covered(areas: Seq<MemoryArea>, f: int) -> bool {
    exists|i: int| 0 <= i < areas.len() && #[trigger] areas[i].contains_frame(f)
}

} // verus!
