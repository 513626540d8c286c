//! System-wide error type for the boot path.

use vstd::prelude::*;
use crate::kalloc::AllocError;

verus! {

/// Failures surfaced to the boot sequence.
#[derive(Clone, Copy, Debug, PartialEq, Eq, Structural)]
pub enum OsError {
    /// An allocator refused the request.
    Alloc(AllocError),
    /// The display refused the requested color depth.
    InvalidDepth(u32),
    /// The GPU did not hand back a framebuffer.
    FramebufferNotAllocated,
    /// A mailbox response was missing or malformed.
    MailboxResponse,
}

impl OsError {
    pub fn describe(&self) -> (r: &'static str)
    {
        match self {
            OsError::Alloc(_) => "allocation failed",
            OsError::InvalidDepth(_) => "color depth not supported",
            OsError::FramebufferNotAllocated => "failed to allocate framebuffer",
            OsError::MailboxResponse => "mailbox response missing or malformed",
        }
    }
}

} // verus!
