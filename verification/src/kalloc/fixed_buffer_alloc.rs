//! Bump allocator over a caller-supplied fixed region, used before any
//! real allocator exists (for example to hold a mailbox request buffer).
//! It hands out aligned sub-ranges of the region and cannot deallocate.

use vstd::prelude::*;
use crate::mmu::{align_up, align_up_s, PAGE_SIZE};
use crate::kalloc::AllocError;

verus! {

/// Allocation cursor over the region `[base, base + len)`.  Offsets are
/// handed out relative to `base`; the caller owns the backing storage.
pub struct FixedSliceAlloc {
    base: usize,
    len: usize,
    end_idx: usize,
}

impl FixedSliceAlloc {
    pub closed spec fn base_addr(&self) -> int {
        self.base as int
    }

    pub closed spec fn capacity(&self) -> int {
        self.len as int
    }

    /// Offset of the first byte not yet handed out.
    pub closed spec fn used(&self) -> int {
        self.end_idx as int
    }

    pub closed spec fn wf(&self) -> bool {
        &&& self.end_idx <= self.len
        &&& self.base + self.len + PAGE_SIZE <= usize::MAX
    }

    pub fn new(base: usize, len: usize) -> (r: Self)
        requires
            base + len + PAGE_SIZE <= usize::MAX,
        ensures
            r.wf(),
            r.base_addr() == base,
            r.capacity() == len,
            r.used() == 0,
    {
        Self { base, len, end_idx: 0 }
    }

    /// Hands out `size` bytes at the next address aligned to `align`,
    /// or fails without moving the cursor when the region is exhausted.
    pub fn allocate(&mut self, size: usize, align: usize) -> (r: Result<usize, AllocError>)
        requires
            old(self).wf(),
            1 <= align <= PAGE_SIZE,
        ensures
            final(self).wf(),
            final(self).base_addr() == old(self).base_addr(),
            final(self).capacity() == old(self).capacity(),
            ({
                let start = align_up_s(old(self).base_addr() + old(self).used(), align as int);
                if start + size < old(self).base_addr() + old(self).capacity() {
                    &&& r == Ok::<usize, AllocError>((start as usize))
                    &&& final(self).used() == start + size - old(self).base_addr()
                } else {
                    &&& r == Err::<usize, AllocError>(AllocError::OutOfMemory)
                    &&& final(self).used() == old(self).used()
                }
            }),
            r matches Ok(a) ==> a as int % align as int == 0
                && old(self).base_addr() + old(self).used() <= a,
    {
        proof {
            crate::mmu::lemma_align_up_properties(
                self.base as int + self.end_idx as int,
                align as int,
            );
        }
        let ptr_base = align_up(self.base + self.end_idx, align);
        let off = ptr_base - self.base;
        if off >= self.len || size >= self.len - off {
            return Err(AllocError::OutOfMemory);
        }
        self.end_idx = off + size;
        Ok(ptr_base)
    }
}

} // verus!
