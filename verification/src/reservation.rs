use vstd::prelude::*;
use crate::frame::{Frame, PAGE_SIZE, FRAME_LIMIT, frame_of, frame_overlaps};

verus! {

/// A range of frames that must never be handed out: `start_frame` is the
/// first frame in it, `end_frame` the first one after it.
#[derive(Clone, Copy, Debug, PartialEq, Eq, Structural)]
pub struct Reservation {
    pub start_frame: Frame,
    pub end_frame: Frame,
}

impl Reservation {
    /// Whether frame `f` is reserved.
    pub open spec fn contains(self, f: int) -> bool {
        self.start_frame.number <= f < self.end_frame.number
    }

    /// Whether the reservation ends inside the address space.
    pub open spec fn bounded(self) -> bool {
        self.end_frame.number <= FRAME_LIMIT
    }

    /// The frames that the bytes `start .. end` touch: `start` rounded down
    /// and `end` rounded up to a frame boundary.
    pub open spec fn spec_covering(start: int, end: int) -> Reservation {
        Reservation {
            start_frame: Frame { number: frame_of(start) as u64 },
            end_frame: Frame { number: frame_of(end + 4095) as u64 },
        }
    }

    /// The reservation for the bytes `start .. end`. A frame that the range
    /// touches only in part is reserved as a whole.
    pub fn covering(start: u64, end: u64) -> (r: Reservation)
        ensures
            r == Self::spec_covering(start as int, end as int),
            r.start_frame.number == frame_of(start as int),
            r.end_frame.number == frame_of(end + 4095),
            r.bounded(),
            forall|f: int| frame_overlaps(f, start as int, end as int) ==> r.contains(f),
            start < end ==> forall|f: int|
                r.contains(f) ==> frame_overlaps(f, start as int, end as int),
    {
        let whole: u64 = end / PAGE_SIZE;
        let up: u64 = if end % PAGE_SIZE == 0 {
            whole
        } else {
            whole + 1
        };
        Reservation {
            start_frame: Frame { number: start / PAGE_SIZE },
            end_frame: Frame { number: up },
        }
    }

    /// Whether `frame` is reserved.
    pub fn contains_frame(&self, frame: Frame) -> (b: bool)
        ensures
            b == self.contains(frame.number as int),
    {
        self.start_frame.number <= frame.number && frame.number < self.end_frame.number
    }
}

} // verus!
