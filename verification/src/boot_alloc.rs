//! The earliest boot allocator: one page per request, tracked by a
//! fixed-size word-backed bitmap.  It predates the MMU and every other
//! allocator; requests above one page are refused.

use vstd::prelude::*;
use crate::kalloc::AllocError;
use crate::mmu::PAGE_SIZE;
use crate::utils::bitmap::{
    bit_of, lemma_bit_index_bounds, lemma_bit_locate, lemma_bit_update_effect,
    lemma_word_all_ones, lemma_word_bit_cases, long_word_idx, long_word_offset,
};

verus! {

/// Words in the boot bitmap: enough for a 16 MiB pool of 4 KiB frames,
/// one bit per frame, 64 bits per word.
pub const BITMAP_LEN: usize = 64;

/// Fixed-size bitmap over `64 * BITMAP_LEN` frames.
pub struct Bitmap {
    long_words: Vec<u64>,
}

impl Bitmap {
    pub closed spec fn words(&self) -> Seq<u64> {
        self.long_words@
    }

    /// Slot `i` of the bitmap.
    pub open spec fn bit(&self, i: int) -> bool {
        bit_of(self.words(), i)
    }

    pub open spec fn wf(&self) -> bool {
        self.words().len() == BITMAP_LEN
    }

    /// A bitmap with every slot clear.
    pub fn new() -> (r: Self)
        ensures
            r.wf(),
            forall|i: int| 0 <= i < 64 * BITMAP_LEN ==> !r.bit(i),
    {
        let mut words: Vec<u64> = Vec::new();
        let mut i: usize = 0;
        while i < BITMAP_LEN
            invariant
                i <= BITMAP_LEN,
                words@.len() == i,
                forall|k: int| 0 <= k < i ==> words@[k] == 0u64,
            decreases BITMAP_LEN - i,
        {
            words.push(0);
            i += 1;
        }
        let r = Bitmap { long_words: words };
        proof {
            assert forall|j: int| 0 <= j < 64 * BITMAP_LEN implies !r.bit(j) by {
                lemma_bit_index_bounds(j, BITMAP_LEN as int);
                let o = (j % 64) as u64;
                assert((0u64 >> o) & 1 == 0) by (bit_vector);
            };
        }
        r
    }

    /// Whether slot `bit_idx` is set.
    pub fn test(&self, bit_idx: usize) -> (r: bool)
        requires
            self.wf(),
            bit_idx < 64 * BITMAP_LEN,
        ensures
            r == self.bit(bit_idx as int),
    {
        proof {
            lemma_bit_index_bounds(bit_idx as int, BITMAP_LEN as int);
            lemma_word_bit_cases(
                self.words()[bit_idx as int / 64],
                (bit_idx as int % 64) as u64,
            );
        }
        let word = self.long_words[long_word_idx(bit_idx)];
        (word >> (long_word_offset(bit_idx) as u64)) & 1 != 0
    }

    /// Sets slot `bit_idx`, leaving every other slot unchanged.
    pub fn set(&mut self, bit_idx: usize)
        requires
            old(self).wf(),
            bit_idx < 64 * BITMAP_LEN,
        ensures
            final(self).wf(),
            final(self).bit(bit_idx as int),
            forall|j: int|
                0 <= j < 64 * BITMAP_LEN && j != bit_idx ==> final(self).bit(j) == old(self).bit(
                    j,
                ),
    {
        proof {
            lemma_bit_index_bounds(bit_idx as int, BITMAP_LEN as int);
        }
        let w = long_word_idx(bit_idx);
        let o = long_word_offset(bit_idx) as u64;
        let ghost old_words = self.long_words@;
        self.long_words[w] = self.long_words[w] | (1u64 << o);
        proof {
            lemma_bit_update_effect(
                old_words,
                self.long_words@,
                bit_idx as int,
                BITMAP_LEN as int,
                true,
            );
        }
    }

    /// Clears slot `bit_idx`, leaving every other slot unchanged.
    pub fn clear(&mut self, bit_idx: usize)
        requires
            old(self).wf(),
            bit_idx < 64 * BITMAP_LEN,
        ensures
            final(self).wf(),
            !final(self).bit(bit_idx as int),
            forall|j: int|
                0 <= j < 64 * BITMAP_LEN && j != bit_idx ==> final(self).bit(j) == old(self).bit(
                    j,
                ),
    {
        proof {
            lemma_bit_index_bounds(bit_idx as int, BITMAP_LEN as int);
        }
        let w = long_word_idx(bit_idx);
        let o = long_word_offset(bit_idx) as u64;
        let ghost old_words = self.long_words@;
        self.long_words[w] = self.long_words[w] & !(1u64 << o);
        proof {
            lemma_bit_update_effect(
                old_words,
                self.long_words@,
                bit_idx as int,
                BITMAP_LEN as int,
                false,
            );
        }
    }

    /// The lowest clear slot, or `None` when every slot is set.
    pub fn first_clear_idx(&self) -> (r: Option<usize>)
        requires
            self.wf(),
        ensures
            match r {
                Some(i) => i < 64 * BITMAP_LEN && !self.bit(i as int) && forall|j: int|
                    0 <= j < i ==> self.bit(j),
                None => forall|j: int| 0 <= j < 64 * BITMAP_LEN ==> self.bit(j),
            },
    {
        let mut i: usize = 0;
        while i < BITMAP_LEN
            invariant
                self.wf(),
                i <= BITMAP_LEN,
                forall|j: int| 0 <= j < 64 * i ==> self.bit(j),
            decreases BITMAP_LEN - i,
        {
            let word = self.long_words[i];
            if word == 0xFFFF_FFFF_FFFF_FFFF {
                proof {
                    assert forall|j: int| 0 <= j < 64 * (i + 1) implies self.bit(j) by {
                        if j >= 64 * i {
                            lemma_bit_locate(j, i as int);
                            lemma_word_all_ones(word, (j % 64) as u64);
                        }
                    };
                }
                i += 1;
                continue ;
            }
            let mut off: usize = 0;
            while off < 64
                invariant
                    self.wf(),
                    i < BITMAP_LEN,
                    off <= 64,
                    word == self.words()[i as int],
                    forall|j: int| 0 <= j < 64 * i ==> self.bit(j),
                    forall|o: int| 0 <= o < off ==> (#[trigger] (word >> (o as u64))) & 1 == 1,
                decreases 64 - off,
            {
                proof {
                    lemma_word_bit_cases(word, off as u64);
                }
                if (word >> (off as u64)) & 1 == 0 {
                    let r = i * 64 + off;
                    proof {
                        lemma_bit_locate(r as int, i as int);
                        assert forall|j: int| 0 <= j < r implies self.bit(j) by {
                            if j >= 64 * i {
                                lemma_bit_locate(j, i as int);
                            }
                        };
                    }
                    return Some(r);
                }
                off += 1;
            }
            proof {
                assert forall|j: int| 0 <= j < 64 * (i + 1) implies self.bit(j) by {
                    if j >= 64 * i {
                        lemma_bit_locate(j, i as int);
                    }
                };
            }
            i += 1;
        }
        None
    }
}

/// One-page-at-a-time allocator over the boot bitmap.  Frame `f`
/// covers `[base + f * PAGE_SIZE, base + (f + 1) * PAGE_SIZE)`.
pub struct BootAllocator {
    page_map: Bitmap,
    base: usize,
}

impl BootAllocator {
    pub closed spec fn base_addr(&self) -> int {
        self.base as int
    }

    pub open spec fn frames(&self) -> int {
        64 * BITMAP_LEN as int
    }

    /// Whether frame `f` is allocated.
    pub closed spec fn frame_used(&self, f: int) -> bool {
        self.page_map.bit(f)
    }

    pub closed spec fn wf(&self) -> bool {
        &&& self.page_map.wf()
        &&& self.base + self.frames() * PAGE_SIZE <= usize::MAX
    }

    /// A fresh allocator over the pool at `base`; every frame is free.
    pub fn new(base: usize) -> (r: Self)
        requires
            base + 64 * BITMAP_LEN * PAGE_SIZE <= usize::MAX,
        ensures
            r.wf(),
            r.base_addr() == base,
            forall|f: int| 0 <= f < r.frames() ==> !r.frame_used(f),
    {
        BootAllocator { page_map: Bitmap::new(), base }
    }

    /// Serves one whole frame for any request of at most one page: the
    /// first free frame's base address.  Requests above one page (in
    /// size or alignment) are refused, as is an exhausted pool.
    pub fn allocate(&mut self, size: usize, alignment: usize) -> (r: Result<usize, AllocError>)
        requires
            old(self).wf(),
        ensures
            final(self).wf(),
            final(self).base_addr() == old(self).base_addr(),
            size > PAGE_SIZE ==> r == Err::<usize, AllocError>(AllocError::UnsupportedSize)
                && *final(self) == *old(self),
            size <= PAGE_SIZE && alignment > PAGE_SIZE ==> r == Err::<usize, AllocError>(
                AllocError::UnsupportedAlignment,
            ) && *final(self) == *old(self),
            size <= PAGE_SIZE && alignment <= PAGE_SIZE ==> match r {
                Ok(a) => {
                    let f = (a - old(self).base_addr()) / (PAGE_SIZE as int);
                    &&& a == old(self).base_addr() + f * PAGE_SIZE
                    &&& 0 <= f < old(self).frames()
                    &&& !old(self).frame_used(f)
                    &&& forall|j: int| 0 <= j < f ==> old(self).frame_used(j)
                    &&& final(self).frame_used(f)
                    &&& forall|j: int|
                        0 <= j < old(self).frames() && j != f ==> final(self).frame_used(j)
                            == old(self).frame_used(j)
                },
                Err(e) => {
                    &&& e == AllocError::OutOfMemory
                    &&& *final(self) == *old(self)
                    &&& forall|j: int| 0 <= j < old(self).frames() ==> old(self).frame_used(j)
                },
            },
    {
        if size > PAGE_SIZE {
            return Err(AllocError::UnsupportedSize);
        }
        if alignment > PAGE_SIZE {
            return Err(AllocError::UnsupportedAlignment);
        }
        let idx = self.page_map.first_clear_idx();
        match idx {
            Some(idx) => {
                self.page_map.set(idx);
                proof {
                    assert(idx * PAGE_SIZE <= 64 * BITMAP_LEN as int * PAGE_SIZE)
                        by (nonlinear_arith)
                        requires idx as int <= 64 * BITMAP_LEN as int, 0 < PAGE_SIZE as int,
                    ;
                    vstd::arithmetic::div_mod::lemma_fundamental_div_mod_converse(
                        idx as int * PAGE_SIZE,
                        PAGE_SIZE as int,
                        idx as int,
                        0,
                    );
                    assert(idx as int * PAGE_SIZE == PAGE_SIZE as int * idx) by (nonlinear_arith);
                }
                let addr = self.base + idx * PAGE_SIZE;
                Ok(addr)
            },
            None => Err(AllocError::OutOfMemory),
        }
    }

    /// Returns the frame holding `addr` to the pool; `addr` must be
    /// one a prior `allocate` returned, with its request of at most
    /// one page.
    pub fn deallocate(&mut self, addr: usize, size: usize, alignment: usize) -> (r: Result<
        (),
        AllocError,
    >)
        requires
            old(self).wf(),
        ensures
            final(self).wf(),
            final(self).base_addr() == old(self).base_addr(),
            size > PAGE_SIZE ==> r == Err::<(), AllocError>(AllocError::UnsupportedSize)
                && *final(self) == *old(self),
            size <= PAGE_SIZE && alignment > PAGE_SIZE ==> r == Err::<(), AllocError>(
                AllocError::UnsupportedAlignment,
            ) && *final(self) == *old(self),
            size <= PAGE_SIZE && alignment <= PAGE_SIZE ==> {
                let f = (addr - old(self).base_addr()) / (PAGE_SIZE as int);
                if old(self).base_addr() <= addr && f < old(self).frames() {
                    &&& r == Ok::<(), AllocError>(())
                    &&& !final(self).frame_used(f)
                    &&& forall|j: int|
                        0 <= j < old(self).frames() && j != f ==> final(self).frame_used(j)
                            == old(self).frame_used(j)
                } else {
                    r == Err::<(), AllocError>(AllocError::InvalidFree)
                        && *final(self) == *old(self)
                }
            },
    {
        if size > PAGE_SIZE {
            return Err(AllocError::UnsupportedSize);
        }
        if alignment > PAGE_SIZE {
            return Err(AllocError::UnsupportedAlignment);
        }
        if addr < self.base {
            return Err(AllocError::InvalidFree);
        }
        let idx = (addr - self.base) / PAGE_SIZE;
        if idx >= 64 * BITMAP_LEN {
            return Err(AllocError::InvalidFree);
        }
        self.page_map.clear(idx);
        Ok(())
    }
}

} // verus!
