use vstd::prelude::*;

verus! {

/// Size of a physical page frame in bytes.
pub const PAGE_SIZE: u64 = 4096;

/// Number of frames in a 64-bit physical address space; every frame that
/// holds an address has a number below this.
pub const FRAME_LIMIT: u64 = 0x10_0000_0000_0000;

/// A physical page frame, identified by its number: the addresses
/// `number * PAGE_SIZE .. (number + 1) * PAGE_SIZE`.
#[derive(Clone, Copy, Debug, PartialEq, Eq, PartialOrd, Ord, Hash, Structural)]
pub struct Frame {
    pub number: u64,
}

/// The number of the frame that holds the byte at `address`.
pub open spec fn frame_of(address: int) -> int {
    address / 4096
}

/// Whether frame `f` shares at least one byte with the range `start .. end`.
pub open spec fn frame_overlaps(f: int, start: int, end: int) -> bool {
    start < end && f * 4096 < end && start < (f + 1) * 4096
}

/// Whether every byte of frame `f` lies in the range `start .. end`.
pub open spec fn frame_within(f: int, start: int, end: int) -> bool {
    start <= f * 4096 && (f + 1) * 4096 <= end
}

impl Frame {
    /// Whether the frame lies inside the 64-bit address space.
    pub open spec fn addressable(self) -> bool {
        self.number < FRAME_LIMIT
    }

    /// The frame that holds `address`.
    pub fn containing_address(address: u64) -> (f: Frame)
        ensures
            f.number == frame_of(address as int),
            f.addressable(),
            frame_overlaps(f.number as int, address as int, address + 1),
    {
        Frame { number: address / PAGE_SIZE }
    }

    /// The address of the frame's first byte.
    pub fn start_address(&self) -> (a: u64)
        requires
            self.addressable(),
        ensures
            a == self.number * 4096,
            frame_of(a as int) == self.number,
    {
        self.number * PAGE_SIZE
    }
}

} // verus!
