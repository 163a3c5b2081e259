use vstd::prelude::*;
use crate::allocator::AllocatorState;
use crate::area::{MemoryArea, covered};
use crate::frame::{Frame, frame_overlaps, frame_within};
use crate::reservation::Reservation;
use vstd::set_lib::{lemma_int_range, lemma_set_disjoint_lens, set_int_range};

verus! {

/// Whether `results` can be what a sequence of allocations returns, one
/// after another, with `states` the allocator before, between and after them.
pub open spec fn is_run(states: Seq<AllocatorState>, results: Seq<Option<Frame>>) -> bool {
    &&& states.len() == results.len() + 1
    &&& forall|i: int|
        0 <= i < results.len() ==> states[i].allocates(states[i + 1], #[trigger] results[i])
}

/// Along a run the cursor never moves back, and the catalog and the
/// reservations stay what they were.
pub proof fn lemma_cursor_never_decreases(
    states: Seq<AllocatorState>,
    results: Seq<Option<Frame>>,
    i: int,
    j: int,
)
    requires
        is_run(states, results),
        0 <= i <= j < states.len(),
    ensures
        states[i].cursor <= states[j].cursor,
        states[j].same_memory(states[i]),
    decreases j - i,
{
    if i < j {
        lemma_cursor_never_decreases(states, results, i, j - 1);
        assert(states[j - 1].allocates(states[j - 1 + 1], results[j - 1]));
    }
}

/// Every frame that a run returns has a greater number than every frame
/// returned before it.
pub proof fn lemma_frames_increase(
    states: Seq<AllocatorState>,
    results: Seq<Option<Frame>>,
    i: int,
    j: int,
)
    requires
        is_run(states, results),
        0 <= i < j < results.len(),
        results[i] is Some,
        results[j] is Some,
    ensures
        results[i].unwrap().number < results[j].unwrap().number,
{
    lemma_cursor_never_decreases(states, results, i + 1, j);
    assert(states[i].allocates(states[i + 1], results[i]));
    assert(states[j].allocates(states[j + 1], results[j]));
}

/// Once an allocation has returned `None`, every later one does.
pub proof fn lemma_exhaustion_is_permanent(
    states: Seq<AllocatorState>,
    results: Seq<Option<Frame>>,
    i: int,
    j: int,
)
    requires
        is_run(states, results),
        0 <= i < j < results.len(),
        results[i] is None,
    ensures
        results[j] is None,
{
    lemma_cursor_never_decreases(states, results, i, j);
    assert(states[i].allocates(states[i + 1], results[i]));
    assert(states[j].allocates(states[j + 1], results[j]));
    if results[j] is Some {
        let f = results[j].unwrap().number as int;
        assert(states[j].is_free(f));
        assert(states[i].is_free(f));
    }
}

/// A returned frame shares no byte with the kernel image nor with the boot
/// information structure, whose bytes the two reservations were made for.
pub proof fn lemma_frame_avoids_reserved_bytes(
    state: AllocatorState,
    next: AllocatorState,
    frame: Frame,
    kernel_start: u64,
    kernel_end: u64,
    multiboot_start: u64,
    multiboot_end: u64,
)
    requires
        state.kernel == Reservation::spec_covering(kernel_start as int, kernel_end as int),
        state.multiboot == Reservation::spec_covering(
            multiboot_start as int,
            multiboot_end as int,
        ),
        state.allocates(next, Some(frame)),
    ensures
        !frame_overlaps(frame.number as int, kernel_start as int, kernel_end as int),
        !frame_overlaps(frame.number as int, multiboot_start as int, multiboot_end as int),
{
}

/// A returned frame belongs to an area of the catalog and shares a byte
/// with it.
pub proof fn lemma_frame_lies_in_an_area(state: AllocatorState, next: AllocatorState, frame: Frame)
    requires
        state.allocates(next, Some(frame)),
    ensures
        exists|i: int|
            0 <= i < state.areas.len() && (#[trigger] state.areas[i]).contains_frame(
                frame.number as int,
            ) && frame_overlaps(
                frame.number as int,
                state.areas[i].base_addr as int,
                state.areas[i].base_addr + state.areas[i].length,
            ),
{
    let f = frame.number as int;
    assert(covered(state.areas, f));
    let i = choose|i: int| 0 <= i < state.areas.len() && #[trigger] state.areas[i].contains_frame(f);
    state.areas[i].lemma_contains_iff_overlaps(f);
}

/// Over a catalog of aligned areas, a returned frame lies wholly inside one
/// of them.
pub proof fn lemma_frame_within_an_aligned_area(
    state: AllocatorState,
    next: AllocatorState,
    frame: Frame,
)
    requires
        forall|i: int| 0 <= i < state.areas.len() ==> (#[trigger] state.areas[i]).aligned(),
        state.allocates(next, Some(frame)),
    ensures
        exists|i: int|
            0 <= i < state.areas.len() && frame_within(
                frame.number as int,
                (#[trigger] state.areas[i]).base_addr as int,
                state.areas[i].base_addr + state.areas[i].length,
            ),
{
    let f = frame.number as int;
    assert(covered(state.areas, f));
    let i = choose|i: int| 0 <= i < state.areas.len() && #[trigger] state.areas[i].contains_frame(f);
    state.areas[i].lemma_aligned_contains_within(f);
}

/// A run that returns frames only takes as many of the frames that were
/// left at its start as it has allocations.
pub proof fn lemma_run_takes_its_length(
    states: Seq<AllocatorState>,
    results: Seq<Option<Frame>>,
    n: int,
)
    requires
        is_run(states, results),
        0 <= n <= results.len(),
        forall|k: int| 0 <= k < n ==> (#[trigger] results[k]) is Some,
    ensures
        n + states[n].free_frames().len() == states[0].free_frames().len(),
    decreases n,
{
    if n > 0 {
        lemma_run_takes_its_length(states, results, n - 1);
        assert(states[n - 1].allocates(states[n - 1 + 1], results[n - 1]));
        states[n - 1].lemma_allocation_takes_one(states[n], results[n - 1]);
    }
}

/// A run of allocations that ends with the first `None` has returned as
/// many frames as were left at its start.
pub proof fn lemma_run_until_exhaustion_counts_free_frames(
    states: Seq<AllocatorState>,
    results: Seq<Option<Frame>>,
)
    requires
        is_run(states, results),
        results.len() > 0,
        forall|k: int| 0 <= k < results.len() - 1 ==> (#[trigger] results[k]) is Some,
        results.last() is None,
    ensures
        results.len() - 1 == states[0].free_frames().len(),
{
    let n = results.len() - 1;
    lemma_run_takes_its_length(states, results, n);
    assert(states[n].allocates(states[n + 1], results[n]));
    states[n].lemma_allocation_takes_one(states[n + 1], results[n]);
}

/// Sum of the lengths of the areas, in bytes.
pub open spec fn total_bytes(areas: Seq<MemoryArea>) -> int
    decreases areas.len(),
{
    if areas.len() == 0 {
        0
    } else {
        total_bytes(areas.drop_last()) + areas.last().length
    }
}

/// Whether every area starts and ends on a frame boundary.
pub open spec fn all_aligned(areas: Seq<MemoryArea>) -> bool {
    forall|i: int| 0 <= i < areas.len() ==> (#[trigger] areas[i]).aligned()
}

/// Whether no two areas share a byte.
pub open spec fn pairwise_disjoint(areas: Seq<MemoryArea>) -> bool {
    forall|i: int, j: int|
        0 <= i < j < areas.len() ==> {
            ||| (#[trigger] areas[i]).base_addr + areas[i].length <= (#[trigger] areas[j]).base_addr
            ||| areas[j].base_addr + areas[j].length <= areas[i].base_addr
        }
}

/// The frames that the areas of the catalog contain.
pub open spec fn covered_frames(areas: Seq<MemoryArea>) -> Set<int> {
    Set::new(|g: int| covered(areas, g))
}

/// The frames of one area.
pub open spec fn area_frames(area: MemoryArea) -> Set<int> {
    Set::new(|g: int| area.contains_frame(g))
}

/// An aligned area has one frame for every `PAGE_SIZE` bytes.
pub proof fn lemma_area_frame_count(area: MemoryArea)
    requires
        area.aligned(),
    ensures
        area_frames(area).finite(),
        area_frames(area).len() * 4096 == area.length,
{
    if area.length == 0 {
        assert(area_frames(area) =~= Set::<int>::empty());
    } else {
        let lo = area.spec_first_frame();
        let hi = area.spec_last_frame() + 1;
        lemma_int_range(lo, hi);
        assert(area_frames(area) =~= set_int_range(lo, hi));
    }
}

/// Aligned areas that share no byte contain one frame for every
/// `PAGE_SIZE` bytes of their lengths together.
pub proof fn lemma_covered_frame_count(areas: Seq<MemoryArea>)
    requires
        all_aligned(areas),
        pairwise_disjoint(areas),
    ensures
        covered_frames(areas).finite(),
        covered_frames(areas).len() * 4096 == total_bytes(areas),
    decreases areas.len(),
{
    if areas.len() == 0 {
        assert(covered_frames(areas) =~= Set::<int>::empty());
    } else {
        let front = areas.drop_last();
        let last = areas.last();
        let n = areas.len() - 1;
        assert forall|i: int| 0 <= i < front.len() implies front[i] == areas[i] by {}
        assert(all_aligned(front));
        assert(pairwise_disjoint(front)) by {
            assert forall|i: int, j: int| 0 <= i < j < front.len() implies {
                ||| (#[trigger] front[i]).base_addr + front[i].length <= (#[trigger] front[j]).base_addr
                ||| front[j].base_addr + front[j].length <= front[i].base_addr
            } by {
                assert(front[i] == areas[i] && front[j] == areas[j]);
            }
        }
        lemma_covered_frame_count(front);
        lemma_area_frame_count(last);
        let a = covered_frames(front);
        let b = area_frames(last);
        assert forall|g: int| !(a.contains(g) && b.contains(g)) by {
            if a.contains(g) && b.contains(g) {
                let i = choose|i: int| 0 <= i < front.len() && #[trigger] front[i].contains_frame(g);
                assert(front[i] == areas[i]);
                assert(areas[n] == last);
                assert(areas[i].aligned() && areas[n].aligned());
                assert(areas[i].base_addr + areas[i].length <= areas[n].base_addr
                    || areas[n].base_addr + areas[n].length <= areas[i].base_addr);
                areas[i].lemma_aligned_contains_within(g);
                last.lemma_aligned_contains_within(g);
            }
        }
        assert(a.disjoint(b));
        lemma_set_disjoint_lens(a, b);
        assert(covered_frames(areas) =~= a + b) by {
            assert forall|g: int| covered_frames(areas).contains(g) <==> (a + b).contains(g) by {
                if covered_frames(areas).contains(g) {
                    let i = choose|i: int|
                        0 <= i < areas.len() && #[trigger] areas[i].contains_frame(g);
                    if i < n {
                        assert(front[i].contains_frame(g));
                    }
                }
                if a.contains(g) {
                    let i = choose|i: int|
                        0 <= i < front.len() && #[trigger] front[i].contains_frame(g);
                    assert(areas[i].contains_frame(g));
                }
                if b.contains(g) {
                    assert(areas[n].contains_frame(g));
                }
            }
        }
    }
}

/// Over aligned areas that share no byte with each other nor a frame with a
/// reservation, an allocator whose cursor stands at or below the lowest
/// frame of the catalog has one frame left for every `PAGE_SIZE` bytes of
/// the catalog.
pub proof fn lemma_unreserved_catalog_is_all_free(state: AllocatorState)
    requires
        all_aligned(state.areas),
        pairwise_disjoint(state.areas),
        forall|g: int|
            covered(state.areas, g) ==> !state.kernel.contains(g) && !state.multiboot.contains(g),
        forall|g: int| g < state.cursor ==> !covered(state.areas, g),
    ensures
        state.free_frames().len() * 4096 == total_bytes(state.areas),
{
    lemma_covered_frame_count(state.areas);
    assert(state.free_frames() =~= covered_frames(state.areas));
}

/// Over such a catalog, a run from there that ends with the first `None`
/// has returned exactly one frame for every `PAGE_SIZE` bytes of the
/// catalog.
pub proof fn lemma_unreserved_catalog_yields_every_frame(
    states: Seq<AllocatorState>,
    results: Seq<Option<Frame>>,
)
    requires
        is_run(states, results),
        results.len() > 0,
        forall|k: int| 0 <= k < results.len() - 1 ==> (#[trigger] results[k]) is Some,
        results.last() is None,
        all_aligned(states[0].areas),
        pairwise_disjoint(states[0].areas),
        forall|g: int|
            covered(states[0].areas, g) ==> !states[0].kernel.contains(g)
                && !states[0].multiboot.contains(g),
        forall|g: int| g < states[0].cursor ==> !covered(states[0].areas, g),
    ensures
        (results.len() - 1) * 4096 == total_bytes(states[0].areas),
{
    lemma_run_until_exhaustion_counts_free_frames(states, results);
    lemma_unreserved_catalog_is_all_free(states[0]);
}

} // verus!
