//! Boot-time physical memory management: a monotonic frame allocator over a
//! catalog of usable memory areas, with the kernel image and the boot
//! information structure excluded.

pub mod frame;
pub mod area;
pub mod reservation;
pub mod bounds;
pub mod allocator;
pub mod laws;
