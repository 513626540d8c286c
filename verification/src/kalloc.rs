//! Kernel allocators used during boot: the bitmap frame allocator with
//! sub-page squeeze reuse, its boot-time wrapper, and a bump allocator
//! over a fixed slice.

pub mod bitmap_alloc;
pub mod boot_alloc;
pub mod fixed_buffer_alloc;

use vstd::prelude::*;

verus! {

/// Failures of the frame allocators.
///
/// `OutOfMemory` reports that no run of contiguous free frames was large
/// enough. `UnsupportedAlignment` and `UnsupportedSize` report requests
/// outside single-page granularity (or an empty request).  `InvalidFree`
/// reports a deallocation that cannot be reconciled against the tracked
/// state: a caller-contract violation, surfaced instead of silently
/// corrupting the bitmap.
#[derive(Clone, Copy, Debug, PartialEq, Eq, Structural)]
pub enum AllocError {
    OutOfMemory,
    UnsupportedAlignment,
    UnsupportedSize,
    InvalidFree,
}

impl AllocError {
    pub fn describe(&self) -> (r: &'static str)
    {
        match self {
            AllocError::OutOfMemory => "no run of contiguous free frames is large enough",
            AllocError::UnsupportedAlignment => "alignment must be a power of two no larger than one page",
            AllocError::UnsupportedSize => "size must be positive",
            AllocError::InvalidFree => "freed range cannot be reconciled with the tracked state",
        }
    }
}

} // verus!
