//! Boot-time wrapper around the bitmap frame allocator: the same
//! squeeze-capable allocator, fixed at the boot pool's size.

use vstd::prelude::*;
use crate::kalloc::AllocError;
use crate::kalloc::bitmap_alloc::{
    allocate_spec, deallocate_spec, AllocModel, BitmapAllocator, LastModel, LastPage,
};
use crate::mmu::{valid_alignment, PAGE_SIZE};

verus! {

/// Frames in the 16 MiB boot pool.
pub const BOOT_ALLOC_PAGE_COUNT: usize = 4096;

/// The boot allocator: a `BitmapAllocator` over the boot pool.  It is
/// meant to be used only early in the boot process, before the MMU is
/// set up and a proper allocator can take over.
pub struct BootAllocator {
    inner: BitmapAllocator,
}

impl BootAllocator {
    pub closed spec fn model(&self) -> AllocModel {
        self.inner.model()
    }

    pub closed spec fn base_addr(&self) -> int {
        self.inner.base_addr()
    }

    pub closed spec fn wf(&self) -> bool {
        self.inner.wf()
    }

    /// A fresh boot allocator over the pool at `base`.
    pub fn new(base: usize) -> (r: Self)
        requires
            base as int % PAGE_SIZE as int == 0,
            base + BOOT_ALLOC_PAGE_COUNT * PAGE_SIZE + PAGE_SIZE <= usize::MAX,
        ensures
            r.wf(),
            r.base_addr() == base,
            r.model().bits == Seq::new(BOOT_ALLOC_PAGE_COUNT as nat, |i: int| false),
            r.model().last is None,
    {
        BootAllocator { inner: BitmapAllocator::new(BOOT_ALLOC_PAGE_COUNT, base) }
    }

    /// See `BitmapAllocator::allocate`.
    pub fn allocate(&mut self, size: usize, alignment: usize) -> (r: Result<usize, AllocError>)
        requires
            old(self).wf(),
        ensures
            final(self).wf(),
            final(self).base_addr() == old(self).base_addr(),
            ({
                let step = allocate_spec(old(self).model(), size as int, alignment as int);
                &&& final(self).model() == step.m
                &&& match r {
                    Ok(a) => step.result == Ok::<int, AllocError>(a - old(self).base_addr()),
                    Err(e) => step.result == Err::<int, AllocError>(e),
                }
            }),
    {
        self.inner.allocate(size, alignment)
    }

    /// See `BitmapAllocator::deallocate`.
    pub fn deallocate(&mut self, addr: usize, size: usize, alignment: usize) -> (r: Result<
        (),
        AllocError,
    >)
        requires
            old(self).wf(),
        ensures
            final(self).wf(),
            final(self).base_addr() == old(self).base_addr(),
            ({
                let step = deallocate_spec(
                    old(self).model(),
                    addr - old(self).base_addr(),
                    size as int,
                    alignment as int,
                );
                &&& final(self).model() == step.m
                &&& r == step.result
            }),
    {
        self.inner.deallocate(addr, size, alignment)
    }

    /// The tracked partially-consumed frame, if any.
    pub fn last_page(&self) -> (r: Option<LastPage>)
        ensures
            match r {
                Some(lp) => self.model().last == Some(
                    LastModel { idx: lp.idx as int, off: lp.off as int },
                ),
                None => self.model().last is None,
            },
    {
        self.inner.last_page()
    }
}

/// How far a request at run `page_idx` can slide backward into the
/// tracked partial frame's free tail; the boot-pool variant of
/// `bitmap_alloc::shift_from_last_page`.
pub fn shift_from_last_page(
    last_page: &Option<LastPage>,
    page_idx: usize,
    alignment: usize,
    base: usize,
) -> (r: Option<usize>)
    requires
        valid_alignment(alignment as int),
        base as int % PAGE_SIZE as int == 0,
        base + page_idx * PAGE_SIZE + PAGE_SIZE <= usize::MAX,
        match *last_page {
            Some(lp) => lp.idx as int == page_idx as int - 1 ==> 0 < lp.off <= PAGE_SIZE,
            None => true,
        },
    ensures
        ({
            let lm = match *last_page {
                Some(lp) => Some(LastModel { idx: lp.idx as int, off: lp.off as int }),
                None => None,
            };
            let s = crate::kalloc::bitmap_alloc::squeeze_shift_s(
                lm,
                page_idx as int,
                alignment as int,
            );
            r == if s > 0 {
                Some(s as usize)
            } else {
                None::<usize>
            }
        }),
{
    crate::kalloc::bitmap_alloc::shift_from_last_page(last_page, page_idx, alignment, base)
}

} // verus!
