use vstd::prelude::*;
use crate::area::{MemoryArea, covered};
use crate::frame::{Frame, FRAME_LIMIT};
use crate::reservation::Reservation;
use vstd::set_lib::{lemma_int_range, lemma_len_subset, set_int_range};

verus! {

/// What an allocator is, as a mathematical value.
pub struct AllocatorState {
    /// Number of the next frame to consider; no frame below it is handed
    /// out any more.
    pub cursor: int,
    /// Index of the area being walked, or `None` once memory is exhausted.
    pub current: Option<int>,
    /// The catalog of usable areas, in the order the boot loader gave.
    pub areas: Seq<MemoryArea>,
    /// Frames occupied by the kernel image.
    pub kernel: Reservation,
    /// Frames occupied by the boot information structure.
    pub multiboot: Reservation,
}

impl AllocatorState {
    /// Whether frame `f` may be handed out: some area contains it and
    /// neither reservation does.
    pub open spec fn is_free(self, f: int) -> bool {
        &&& covered(self.areas, f)
        &&& !self.kernel.contains(f)
        &&& !self.multiboot.contains(f)
    }

    /// Whether the cursor and both reservations lie inside the address space.
    pub open spec fn bounded(self) -> bool {
        &&& 0 <= self.cursor <= FRAME_LIMIT
        &&& self.kernel.bounded()
        &&& self.multiboot.bounded()
    }

    /// The allocator's invariant. While an area is current, it is a
    /// non-empty area of the catalog that starts at or below the cursor.
    /// Once none is current, no area holds a frame at or above the cursor.
    pub open spec fn inv(self) -> bool {
        &&& self.bounded()
        &&& match self.current {
            Some(i) => {
                &&& 0 <= i < self.areas.len()
                &&& self.areas[i].length > 0
                &&& self.areas[i].spec_first_frame() <= self.cursor
            },
            None => forall|g: int| self.cursor <= g ==> !covered(self.areas, g),
        }
    }

    /// Whether area `i` is the one to walk next: among the areas that still
    /// hold a frame at or above the cursor it has the lowest base address,
    /// and it is the first in the catalog with that base.
    pub open spec fn is_lowest_reaching(self, i: int) -> bool {
        &&& 0 <= i < self.areas.len()
        &&& self.areas[i].reaches(self.cursor)
        &&& forall|j: int|
            0 <= j < self.areas.len() && (#[trigger] self.areas[j]).reaches(self.cursor)
                ==> self.areas[i].base_addr <= self.areas[j].base_addr
        &&& forall|j: int|
            0 <= j < i && (#[trigger] self.areas[j]).reaches(self.cursor) ==> self.areas[i].base_addr
                < self.areas[j].base_addr
    }

    /// Whether the catalog and both reservations are those of `other`.
    pub open spec fn same_memory(self, other: Self) -> bool {
        &&& self.areas == other.areas
        &&& self.kernel == other.kernel
        &&& self.multiboot == other.multiboot
    }

    /// Whether the cursor stands where a fresh allocator puts it: on the
    /// lowest frame that any area contains, or on frame 0 if there is none.
    pub open spec fn at_lowest_frame(self) -> bool {
        &&& forall|g: int| 0 <= g < self.cursor ==> !covered(self.areas, g)
        &&& covered(self.areas, self.cursor) || (self.cursor == 0 && forall|g: int|
            !covered(self.areas, g))
    }

    /// One allocation, as a relation between the state before, the state
    /// after and the result. A frame is returned exactly when a free frame
    /// exists at or above the cursor: it is the lowest such frame, and the
    /// cursor moves just past it. Otherwise the result is `None`, no area is
    /// current any more, and the cursor has not moved back.
    pub open spec fn allocates(self, next: Self, r: Option<Frame>) -> bool {
        &&& next.same_memory(self)
        &&& match r {
            Some(frame) => {
                &&& self.cursor <= frame.number
                &&& self.is_free(frame.number as int)
                &&& forall|g: int| self.cursor <= g < frame.number ==> !self.is_free(g)
                &&& next.cursor == frame.number + 1
            },
            None => {
                &&& forall|g: int| self.cursor <= g ==> !self.is_free(g)
                &&& self.cursor <= next.cursor
                &&& next.current is None
            },
        }
    }

    /// The free frames at or above the cursor: those still to be handed out.
    pub open spec fn free_frames(self) -> Set<int> {
        Set::new(|g: int| self.cursor <= g && self.is_free(g))
    }

    /// The frames still to be handed out are finitely many, no more than the
    /// address space has.
    pub proof fn lemma_free_frames_finite(self)
        ensures
            self.free_frames().finite(),
            self.free_frames().len() <= FRAME_LIMIT,
    {
        let all = set_int_range(0, FRAME_LIMIT as int);
        lemma_int_range(0, FRAME_LIMIT as int);
        assert forall|g: int| self.free_frames().contains(g) implies all.contains(g) by {
            let i = choose|i: int|
                0 <= i < self.areas.len() && #[trigger] self.areas[i].contains_frame(g);
        }
        lemma_len_subset(self.free_frames(), all);
    }

    /// An allocation that returns a frame takes exactly that frame out of
    /// those still to be handed out; one that returns `None` finds none left.
    pub proof fn lemma_allocation_takes_one(self, next: Self, r: Option<Frame>)
        requires
            self.allocates(next, r),
        ensures
            match r {
                Some(frame) => {
                    &&& self.free_frames().contains(frame.number as int)
                    &&& next.free_frames() == self.free_frames().remove(frame.number as int)
                    &&& next.free_frames().len() + 1 == self.free_frames().len()
                },
                None => self.free_frames() == Set::<int>::empty() && next.free_frames()
                    == Set::<int>::empty(),
            },
    {
        self.lemma_free_frames_finite();
        match r {
            Some(frame) => {
                assert(next.free_frames() =~= self.free_frames().remove(frame.number as int));
            },
            None => {
                assert(self.free_frames() =~= Set::<int>::empty());
                assert(next.free_frames() =~= Set::<int>::empty());
            },
        }
    }
}

/// Hands out the free frames of a catalog of memory areas one at a time, in
/// increasing order, and never one that a reservation holds.
pub struct FrameAllocator {
    next_free_frame: Frame,
    current_area: Option<usize>,
    areas: Vec<MemoryArea>,
    kernel: Reservation,
    multiboot: Reservation,
}

impl View for FrameAllocator {
    type V = AllocatorState;

    closed spec fn view(&self) -> AllocatorState {
        AllocatorState {
            cursor: self.next_free_frame.number as int,
            current: match self.current_area {
                Some(i) => Some(i as int),
                None => None,
            },
            areas: self.areas@,
            kernel: self.kernel,
            multiboot: self.multiboot,
        }
    }
}

impl FrameAllocator {
    /// An allocator over `areas` that keeps clear of the kernel image, the
    /// bytes `kernel_start .. kernel_end`, and of the boot information
    /// structure, the bytes `multiboot_start .. multiboot_end`. The cursor
    /// starts on the lowest frame of the catalog.
    pub fn new(
        kernel_start: u64,
        kernel_end: u64,
        multiboot_start: usize,
        multiboot_end: usize,
        areas: Vec<MemoryArea>,
    ) -> (a: FrameAllocator)
        requires
            kernel_start <= kernel_end,
            multiboot_start <= multiboot_end,
        ensures
            a@.inv(),
            a@.areas == areas@,
            a@.kernel == Reservation::spec_covering(kernel_start as int, kernel_end as int),
            a@.multiboot == Reservation::spec_covering(
                multiboot_start as int,
                multiboot_end as int,
            ),
            a@.at_lowest_frame(),
            a@.current is None <==> forall|g: int| !covered(areas@, g),
    {
        let mut a = FrameAllocator {
            next_free_frame: Frame { number: 0 },
            current_area: None,
            areas,
            kernel: Reservation::covering(kernel_start, kernel_end),
            multiboot: Reservation::covering(multiboot_start as u64, multiboot_end as u64),
        };
        a.choose_next_area();
        proof {
            if a@.current is Some {
                assert(covered(a@.areas, a@.cursor));
            } else {
                assert forall|g: int| !covered(a@.areas, g) by {
                    if covered(a@.areas, g) {
                        let i = choose|i: int|
                            0 <= i < a@.areas.len() && #[trigger] a@.areas[i].contains_frame(g);
                    }
                }
            }
        }
        a
    }

    /// Makes current the area with the lowest base address among those that
    /// still hold a frame at or above the cursor, the first of them in the
    /// catalog if several share that base, and moves the cursor up to its
    /// first frame if it stands below. With no such area, none is current.
    fn choose_next_area(&mut self)
        requires
            old(self)@.bounded(),
        ensures
            final(self)@.inv(),
            final(self)@.same_memory(old(self)@),
            old(self)@.cursor <= final(self)@.cursor,
            forall|g: int|
                old(self)@.cursor <= g < final(self)@.cursor ==> !covered(old(self)@.areas, g),
            match final(self)@.current {
                Some(i) => {
                    &&& old(self)@.is_lowest_reaching(i)
                    &&& final(self)@.areas[i].contains_frame(final(self)@.cursor)
                    &&& final(self)@.cursor == old(self)@.cursor
                        || final(self)@.cursor == final(self)@.areas[i].spec_first_frame()
                },
                None => {
                    &&& final(self)@.cursor == old(self)@.cursor
                    &&& forall|j: int|
                        0 <= j < old(self)@.areas.len() ==> !(#[trigger] old(self)@.areas[j]).reaches(
                            old(self)@.cursor,
                        )
                },
            },
    {
        let cursor: u64 = self.next_free_frame.number;
        let mut best: Option<usize> = None;
        let mut i: usize = 0;
        while i < self.areas.len()
            invariant
                0 <= i <= self.areas.len(),
                *self == *old(self),
                cursor == self.next_free_frame.number,
                match best {
                    Some(b) => {
                        &&& b < i
                        &&& self.areas[b as int].reaches(cursor as int)
                        &&& forall|j: int|
                            0 <= j < i && (#[trigger] self.areas[j]).reaches(cursor as int)
                                ==> self.areas[b as int].base_addr <= self.areas[j].base_addr
                        &&& forall|j: int|
                            0 <= j < b && (#[trigger] self.areas[j]).reaches(cursor as int)
                                ==> self.areas[b as int].base_addr < self.areas[j].base_addr
                    },
                    None => forall|j: int|
                        0 <= j < i ==> !(#[trigger] self.areas[j]).reaches(cursor as int),
                },
            decreases self.areas.len() - i,
        {
            let area: MemoryArea = self.areas[i];
            if area.length > 0 && area.last_frame().number >= cursor {
                let better: bool = match best {
                    Some(b) => area.base_addr < self.areas[b].base_addr,
                    None => true,
                };
                if better {
                    best = Some(i);
                }
            }
            i += 1;
        }
        self.current_area = best;
        match best {
            Some(b) => {
                let start: Frame = self.areas[b].first_frame();
                if self.next_free_frame.number < start.number {
                    self.next_free_frame = start;
                }
                proof {
                    let chosen = self.areas[b as int];
                    assert forall|g: int| cursor <= g < self@.cursor implies !covered(
                        self@.areas,
                        g,
                    ) by {
                        if covered(self@.areas, g) {
                            let j = choose|j: int|
                                0 <= j < self@.areas.len() && #[trigger] self@.areas[j].contains_frame(
                                    g,
                                );
                            assert(self.areas[j].reaches(cursor as int));
                            assert(chosen.base_addr <= self.areas[j].base_addr);
                        }
                    }
                }
            },
            None => {
                proof {
                    assert forall|g: int| cursor <= g implies !covered(self@.areas, g) by {
                        if covered(self@.areas, g) {
                            let j = choose|j: int|
                                0 <= j < self@.areas.len() && #[trigger] self@.areas[j].contains_frame(
                                    g,
                                );
                            assert(self.areas[j].reaches(cursor as int));
                        }
                    }
                }
            },
        }
    }

    /// The lowest free frame at or above the cursor, or `None` if there is
    /// none. Frames below the one returned are never handed out afterwards.
    pub fn allocate_frame(&mut self) -> (r: Option<Frame>)
        requires
            old(self)@.inv(),
        ensures
            final(self)@.inv(),
            old(self)@.allocates(final(self)@, r),
            r matches Some(frame) ==> frame.addressable(),
    {
        let ghost start = self@;
        loop
            invariant
                start == old(self)@,
                self@.inv(),
                self@.same_memory(start),
                start.cursor <= self@.cursor,
                forall|g: int| start.cursor <= g < self@.cursor ==> !start.is_free(g),
            decreases
                FRAME_LIMIT - self@.cursor,
                (if self@.current is Some && self@.cursor
                    > self@.areas[self@.current.unwrap()].spec_last_frame() {
                    1int
                } else {
                    0int
                }),
        {
            let index: usize = match self.current_area {
                Some(i) => i,
                None => {
                    return None;
                },
            };
            let frame: Frame = self.next_free_frame;
            let last: Frame = self.areas[index].last_frame();
            if frame.number > last.number {
                self.choose_next_area();
            } else if self.kernel.contains_frame(frame) {
                self.next_free_frame = self.kernel.end_frame;
            } else if self.multiboot.contains_frame(frame) {
                self.next_free_frame = self.multiboot.end_frame;
            } else {
                assert(self@.areas[index as int].contains_frame(frame.number as int));
                self.next_free_frame = Frame { number: frame.number + 1 };
                return Some(frame);
            }
        }
    }

    /// Hands out every frame that is left and returns how many there were.
    /// Afterwards the allocator is exhausted.
    pub fn count_free_frames(&mut self) -> (n: u64)
        requires
            old(self)@.inv(),
        ensures
            final(self)@.inv(),
            final(self)@.same_memory(old(self)@),
            final(self)@.current is None,
            old(self)@.cursor <= final(self)@.cursor,
            n == old(self)@.free_frames().len(),
            final(self)@.free_frames() == Set::<int>::empty(),
    {
        let ghost start = self@;
        let mut n: u64 = 0;
        proof {
            start.lemma_free_frames_finite();
        }
        loop
            invariant
                start == old(self)@,
                self@.inv(),
                self@.same_memory(start),
                start.cursor <= self@.cursor,
                n + self@.free_frames().len() == start.free_frames().len(),
                start.free_frames().len() <= FRAME_LIMIT,
            decreases self@.free_frames().len(),
        {
            let ghost before = self@;
            let r: Option<Frame> = self.allocate_frame();
            proof {
                before.lemma_allocation_takes_one(self@, r);
            }
            if r.is_none() {
                return n;
            }
            n = n + 1;
        }
    }

    /// The frame on which the next search starts.
    pub fn next_free_frame(&self) -> (f: Frame)
        ensures
            f.number == self@.cursor,
    {
        self.next_free_frame
    }

    /// Whether the allocator has run out of memory for good.
    pub fn is_exhausted(&self) -> (b: bool)
        ensures
            b == (self@.current is None),
    {
        self.current_area.is_none()
    }
}

} // verus!
