use vstd::prelude::*;

verus! {

/// One section of the kernel image, as the boot loader describes it.
#[derive(Clone, Copy, Debug, PartialEq, Eq, Structural)]
pub struct Section {
    pub addr: u64,
    pub size: u64,
    pub flags: u64,
}

/// Why the footprint of the kernel image could not be computed.
#[derive(Clone, Copy, Debug, PartialEq, Eq, Structural)]
pub enum BoundsError {
    /// The image has no section.
    NoSections,
    /// A section ends beyond the top of the address space.
    AddressOverflow,
}

impl Section {
    /// Address of the first byte after the section.
    pub open spec fn spec_end(self) -> int {
        self.addr + self.size
    }
}

/// Whether every section ends inside the address space.
pub open spec fn all_fit(sections: Seq<Section>) -> bool {
    forall|i: int| 0 <= i < sections.len() ==> (#[trigger] sections[i]).spec_end() <= u64::MAX
}

/// Whether `v` is the lowest start address of any section.
pub open spec fn is_lowest_start(sections: Seq<Section>, v: int) -> bool {
    &&& exists|i: int| 0 <= i < sections.len() && (#[trigger] sections[i]).addr == v
    &&& forall|i: int| 0 <= i < sections.len() ==> v <= (#[trigger] sections[i]).addr
}

/// Whether `v` is the highest end address of any section.
pub open spec fn is_highest_end(sections: Seq<Section>, v: int) -> bool {
    &&& exists|i: int| 0 <= i < sections.len() && (#[trigger] sections[i]).spec_end() == v
    &&& forall|i: int| 0 <= i < sections.len() ==> (#[trigger] sections[i]).spec_end() <= v
}

/// The footprint of the kernel image: the lowest start and the highest end
/// of its sections. Fails on an image without sections, and on one with a
/// section that ends beyond the address space.
pub fn kernel_bounds(sections: &Vec<Section>) -> (r: Result<(u64, u64), BoundsError>)
    ensures
        match r {
            Ok((start, end)) => {
                &&& sections.len() > 0
                &&& all_fit(sections@)
                &&& is_lowest_start(sections@, start as int)
                &&& is_highest_end(sections@, end as int)
                &&& start <= end
            },
            Err(BoundsError::NoSections) => sections.len() == 0,
            Err(BoundsError::AddressOverflow) => sections.len() > 0 && !all_fit(sections@),
        },
{
    if sections.len() == 0 {
        return Err(BoundsError::NoSections);
    }
    let first: Section = sections[0];
    let mut start: u64 = first.addr;
    let mut end: u64 = match first.addr.checked_add(first.size) {
        Some(e) => e,
        None => {
            assert(!(sections@[0].spec_end() <= u64::MAX));
            return Err(BoundsError::AddressOverflow);
        },
    };
    let mut i: usize = 1;
    while i < sections.len()
        invariant
            1 <= i <= sections.len(),
            start <= end,
            exists|k: int| 0 <= k < i && (#[trigger] sections[k]).addr == start,
            exists|k: int| 0 <= k < i && (#[trigger] sections[k]).spec_end() == end,
            forall|k: int| 0 <= k < i ==> start <= (#[trigger] sections[k]).addr,
            forall|k: int| 0 <= k < i ==> (#[trigger] sections[k]).spec_end() <= end,
        decreases sections.len() - i,
    {
        let section: Section = sections[i];
        let section_end: u64 = match section.addr.checked_add(section.size) {
            Some(e) => e,
            None => {
                assert(!(sections@[i as int].spec_end() <= u64::MAX));
                return Err(BoundsError::AddressOverflow);
            },
        };
        if section.addr < start {
            start = section.addr;
        }
        if section_end > end {
            end = section_end;
        }
        i += 1;
    }
    Ok((start, end))
}

/// The footprint of the boot information structure: `total_size` bytes from
/// `start`. `None` exactly when that range ends beyond the address space.
pub fn boot_info_bounds(start: usize, total_size: u32) -> (r: Option<(usize, usize)>)
    ensures
        match r {
            Some((first, end)) => first == start && end == start + total_size,
            None => start + total_size > usize::MAX,
        },
{
    match start.checked_add(total_size as usize) {
        Some(end) => Some((start, end)),
        None => None,
    }
}

} // verus!
