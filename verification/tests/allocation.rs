use boot_memory::allocator::FrameAllocator;
use boot_memory::area::MemoryArea;
use boot_memory::frame::{Frame, FRAME_LIMIT, PAGE_SIZE};

fn area(base_addr: u64, length: u64) -> MemoryArea {
    MemoryArea { base_addr, length }
}

fn drain(allocator: &mut FrameAllocator) -> Vec<u64> {
    let mut numbers = Vec::new();
    while let Some(frame) = allocator.allocate_frame() {
        numbers.push(frame.number);
    }
    numbers
}

#[test]
fn skips_kernel_and_boot_info_in_one_area() {
    let mut allocator =
        FrameAllocator::new(0x100000, 0x104000, 0x109000, 0x109800, vec![area(0x100000, 0x10000)]);
    let first = allocator.allocate_frame();
    assert_eq!(first, Some(Frame::containing_address(0x104000)));
    assert_eq!(first, Some(Frame { number: 0x104 }));
    let rest = drain(&mut allocator);
    assert_eq!(rest, vec![0x105, 0x106, 0x107, 0x108, 0x10a, 0x10b, 0x10c, 0x10d, 0x10e, 0x10f]);
    assert!(!rest.contains(&Frame::containing_address(0x109000).number));
    assert!(!rest.contains(&Frame::containing_address(0x1097ff).number));
    assert_eq!(allocator.allocate_frame(), None);
    assert!(allocator.is_exhausted());
}

#[test]
fn lower_area_is_visited_first_whatever_the_order() {
    let areas = vec![area(0x200000, 0x2000), area(0x100000, 0x3000)];
    let mut allocator = FrameAllocator::new(0, 0, 0, 0, areas);
    assert_eq!(drain(&mut allocator), vec![0x100, 0x101, 0x102, 0x200, 0x201]);
}

#[test]
fn three_areas_in_reverse_order() {
    let areas = vec![area(0x30000, 0x1000), area(0x20000, 0x1000), area(0x10000, 0x1000)];
    let mut allocator = FrameAllocator::new(0, 0, 0, 0, areas);
    assert_eq!(drain(&mut allocator), vec![0x10, 0x20, 0x30]);
}

#[test]
fn frames_strictly_increase() {
    let areas = vec![area(0x8000, 0x4000), area(0x1000, 0x3000), area(0x20000, 0x5000)];
    let mut allocator = FrameAllocator::new(0x2000, 0x2800, 0x21000, 0x23000, areas);
    let numbers = drain(&mut allocator);
    assert_eq!(numbers, vec![1, 3, 8, 9, 10, 11, 0x20, 0x23, 0x24]);
    for pair in numbers.windows(2) {
        assert!(pair[0] < pair[1]);
    }
}

#[test]
fn exhaustion_is_permanent() {
    let mut allocator = FrameAllocator::new(0, 0, 0, 0, vec![area(0x1000, 0x2000)]);
    assert_eq!(drain(&mut allocator), vec![1, 2]);
    for _ in 0..5 {
        assert_eq!(allocator.allocate_frame(), None);
        assert!(allocator.is_exhausted());
    }
}

#[test]
fn empty_catalog_starts_exhausted() {
    let mut allocator = FrameAllocator::new(0x1000, 0x2000, 0x3000, 0x4000, Vec::new());
    assert!(allocator.is_exhausted());
    assert_eq!(allocator.next_free_frame(), Frame { number: 0 });
    assert_eq!(allocator.allocate_frame(), None);
}

#[test]
fn cursor_starts_on_the_lowest_frame_of_the_catalog() {
    let allocator =
        FrameAllocator::new(0, 0, 0, 0, vec![area(0x7000, 0x1000), area(0x5000, 0x1000)]);
    assert_eq!(allocator.next_free_frame(), Frame { number: 5 });
    assert!(!allocator.is_exhausted());
}

#[test]
fn cursor_moves_just_past_the_returned_frame() {
    let mut allocator = FrameAllocator::new(0, 0, 0, 0, vec![area(0x5000, 0x3000)]);
    assert_eq!(allocator.allocate_frame(), Some(Frame { number: 5 }));
    assert_eq!(allocator.next_free_frame(), Frame { number: 6 });
}

#[test]
fn empty_areas_hold_no_frame() {
    let areas = vec![area(0, 0), area(0x4000, 0), area(0x9000, 0x1000)];
    let mut allocator = FrameAllocator::new(0, 0, 0, 0, areas);
    assert_eq!(drain(&mut allocator), vec![9]);
}

#[test]
fn only_empty_areas_start_exhausted() {
    let mut allocator = FrameAllocator::new(0, 0, 0, 0, vec![area(0x4000, 0)]);
    assert!(allocator.is_exhausted());
    assert_eq!(allocator.allocate_frame(), None);
}

#[test]
fn reservations_without_overlap_leave_every_frame() {
    let areas = vec![area(0x10000, 0x4000), area(0x40000, 0x3000)];
    let total: u64 = areas.iter().map(|a| a.length).sum();
    let mut allocator = FrameAllocator::new(0x1000, 0x3000, 0x20000, 0x21000, areas);
    let numbers = drain(&mut allocator);
    assert_eq!(numbers.len() as u64, total / PAGE_SIZE);
    assert_eq!(numbers, vec![0x10, 0x11, 0x12, 0x13, 0x40, 0x41, 0x42]);
}

#[test]
fn reservation_spanning_two_adjacent_areas() {
    let areas = vec![area(0x1000, 0x3000), area(0x4000, 0x3000)];
    let mut allocator = FrameAllocator::new(0x3000, 0x5000, 0, 0, areas);
    assert_eq!(drain(&mut allocator), vec![1, 2, 5, 6]);
}

#[test]
fn reservation_abutting_the_end_of_an_area() {
    let areas = vec![area(0x1000, 0x3000), area(0x8000, 0x2000)];
    let mut allocator = FrameAllocator::new(0x2000, 0x4000, 0x8000, 0x9000, areas);
    assert_eq!(drain(&mut allocator), vec![1, 9]);
}

#[test]
fn reservation_reaching_into_the_gap_between_areas() {
    let areas = vec![area(0x1000, 0x2000), area(0x6000, 0x2000)];
    let mut allocator = FrameAllocator::new(0x2000, 0x5000, 0, 0, areas);
    assert_eq!(drain(&mut allocator), vec![1, 6, 7]);
}

#[test]
fn reservation_outside_every_area_adds_no_frame() {
    let mut allocator = FrameAllocator::new(0x10000, 0x20000, 0, 0, vec![area(0x1000, 0x1000)]);
    assert_eq!(drain(&mut allocator), vec![1]);
}

#[test]
fn reservations_covering_everything_leave_nothing() {
    let mut allocator = FrameAllocator::new(0, 0x3000, 0x3000, 0x8000, vec![area(0x1000, 0x6000)]);
    assert!(!allocator.is_exhausted());
    assert_eq!(allocator.allocate_frame(), None);
    assert!(allocator.is_exhausted());
}

#[test]
fn overlapping_reservations() {
    let mut allocator =
        FrameAllocator::new(0x2000, 0x5000, 0x1000, 0x3000, vec![area(0, 0x8000)]);
    assert_eq!(drain(&mut allocator), vec![0, 5, 6, 7]);
}

#[test]
fn partly_reserved_frame_is_excluded_whole() {
    let mut allocator = FrameAllocator::new(0x2800, 0x3001, 0x5fff, 0x6000, vec![area(0, 0x8000)]);
    assert_eq!(drain(&mut allocator), vec![0, 1, 4, 6, 7]);
}

#[test]
fn overlapping_areas_yield_each_frame_once() {
    let areas = vec![area(0x3000, 0x4000), area(0x1000, 0x4000)];
    let mut allocator = FrameAllocator::new(0, 0, 0, 0, areas);
    assert_eq!(drain(&mut allocator), vec![1, 2, 3, 4, 5, 6]);
}

#[test]
fn area_nested_in_another() {
    let areas = vec![area(0x1000, 0x8000), area(0x2000, 0x1000)];
    let mut allocator = FrameAllocator::new(0, 0, 0, 0, areas);
    assert_eq!(drain(&mut allocator), vec![1, 2, 3, 4, 5, 6, 7, 8]);
}

#[test]
fn unaligned_area_counts_the_frames_it_touches() {
    let mut allocator = FrameAllocator::new(0, 0, 0, 0, vec![area(0x1800, 0x1000)]);
    assert_eq!(drain(&mut allocator), vec![1, 2]);
}

#[test]
fn area_ending_at_the_top_of_the_address_space() {
    let base = u64::MAX - 0x1fff;
    let mut allocator = FrameAllocator::new(0, 0, 0, 0, vec![area(base, 0x2000)]);
    assert_eq!(drain(&mut allocator), vec![FRAME_LIMIT - 2, FRAME_LIMIT - 1]);
    assert_eq!(allocator.next_free_frame(), Frame { number: FRAME_LIMIT });
}

#[test]
fn area_reaching_beyond_the_address_space_is_cut_off() {
    let base = u64::MAX - 0xfff;
    let mut allocator = FrameAllocator::new(0, 0, 0, 0, vec![area(base, u64::MAX)]);
    assert_eq!(drain(&mut allocator), vec![FRAME_LIMIT - 1]);
}

#[test]
fn areas_with_the_same_base() {
    let areas = vec![area(0x2000, 0x1000), area(0x2000, 0x3000)];
    let mut allocator = FrameAllocator::new(0, 0, 0, 0, areas);
    assert_eq!(drain(&mut allocator), vec![2, 3, 4]);
}

#[test]
fn count_of_the_frames_left() {
    let mut allocator =
        FrameAllocator::new(0x100000, 0x104000, 0x109000, 0x109800, vec![area(0x100000, 0x10000)]);
    assert_eq!(allocator.count_free_frames(), 11);
    assert!(allocator.is_exhausted());
    assert_eq!(allocator.allocate_frame(), None);
    assert_eq!(allocator.count_free_frames(), 0);
}

#[test]
fn count_after_some_allocations() {
    let areas = vec![area(0x200000, 0x2000), area(0x100000, 0x3000)];
    let mut allocator = FrameAllocator::new(0, 0, 0, 0, areas);
    assert_eq!(allocator.allocate_frame(), Some(Frame { number: 0x100 }));
    assert_eq!(allocator.allocate_frame(), Some(Frame { number: 0x101 }));
    assert_eq!(allocator.count_free_frames(), 3);
}

#[test]
fn count_is_one_frame_for_each_page_of_an_unreserved_catalog() {
    let areas = vec![area(0x50000, 0x8000), area(0x10000, 0x4000), area(0x20000, 0x1000)];
    let total: u64 = areas.iter().map(|a| a.length).sum();
    let mut allocator = FrameAllocator::new(0, 0x1000, 0x30000, 0x31000, areas);
    assert_eq!(allocator.count_free_frames(), total / PAGE_SIZE);
    assert_eq!(total / PAGE_SIZE, 13);
}

#[test]
fn count_of_an_empty_catalog() {
    let mut allocator = FrameAllocator::new(0, 0, 0, 0, Vec::new());
    assert_eq!(allocator.count_free_frames(), 0);
}

#[test]
fn every_frame_lies_in_an_area_and_outside_both_reservations() {
    let areas = vec![area(0x9000, 0x6000), area(0x2000, 0x5000), area(0x20000, 0x4000)];
    let (kernel_start, kernel_end) = (0x4000u64, 0xa800u64);
    let (multiboot_start, multiboot_end) = (0x21000usize, 0x21008usize);
    let mut allocator = FrameAllocator::new(
        kernel_start,
        kernel_end,
        multiboot_start,
        multiboot_end,
        areas.clone(),
    );
    let numbers = drain(&mut allocator);
    assert_eq!(numbers, vec![2, 3, 0xb, 0xc, 0xd, 0xe, 0x20, 0x22, 0x23]);
    for number in numbers {
        let first = number * PAGE_SIZE;
        let end = first + PAGE_SIZE;
        assert!(areas.iter().any(|a| a.base_addr <= first && end <= a.base_addr + a.length));
        assert!(end <= kernel_start || kernel_end <= first);
        assert!(end <= multiboot_start as u64 || multiboot_end as u64 <= first);
    }
}
