//! Physical frame allocator over a compact bitmap (one bit per frame,
//! true = allocated), with an optimization for sub-page requests: the
//! unused tail of the most recently partially-filled frame is reused
//! ("squeezed") instead of committing a fresh frame.
//!
//! The bitmap itself is a `bitvec` bit-vector kept behind trusted
//! wrappers; everything the allocator does with it is verified against
//! the sequence-of-booleans view `frame_bits`.

use vstd::prelude::*;
use crate::mmu::{
    align_up, align_up_s, lemma_align_up_add_multiple, lemma_align_up_le_multiple,
    lemma_align_up_properties, lemma_mod_divides_trans, lemma_mul_mod_zero, valid_alignment,
    PAGE_SIZE,
};
use crate::kalloc::AllocError;

verus! {

/// The frame bitmap's storage: a `bitvec` bit-vector over 64-bit
/// words.  Verus refuses to declare `BitVec` itself (its trait bounds
/// are foreign), so the collection lives in this opaque holder and is
/// reached only through the trusted wrappers below, whose contracts
/// speak of `frame_bits`.
#[verifier::external_body]
pub struct FrameBits {
    bits: bitvec::vec::BitVec<u64, bitvec::order::Lsb0>,
}

/// The bits held by a frame bitmap, index 0 first.
pub uninterp spec fn frame_bits(bv: FrameBits) -> Seq<bool>;

/// Relies on bitvec's `BitVec::repeat`: a bit-vector of `len` copies of
/// `bit`.
#[verifier::external_body]
fn bits_repeat(bit: bool, len: usize) -> (r: FrameBits)
    ensures
        frame_bits(r) == Seq::new(len as nat, |i: int| bit),
{
    FrameBits { bits: bitvec::vec::BitVec::repeat(bit, len) }
}

/// Relies on `BitSlice::len` (through `BitVec`'s deref): the number of
/// live bits.
#[verifier::external_body]
fn bits_len(bv: &FrameBits) -> (r: usize)
    ensures
        r == frame_bits(*bv).len(),
{
    bv.bits.len()
}

/// Relies on `BitSlice`'s `Index<usize>` impl: the bit at `idx`; it
/// panics when `idx` is out of bounds, which the precondition rules out.
#[verifier::external_body]
fn bits_get(bv: &FrameBits, idx: usize) -> (r: bool)
    requires
        idx < frame_bits(*bv).len(),
    ensures
        r == frame_bits(*bv)[idx as int],
{
    bv.bits[idx]
}

/// Relies on `BitSlice::set`: writes one bit in place, leaving every
/// other bit and the length unchanged; it panics when `idx` is out of
/// bounds, which the precondition rules out.
#[verifier::external_body]
fn bits_set(bv: &mut FrameBits, idx: usize, value: bool)
    requires
        idx < frame_bits(*old(bv)).len(),
    ensures
        frame_bits(*final(bv)) == frame_bits(*old(bv)).update(idx as int, value),
{
    bv.bits.set(idx, value)
}

/// A frame only partially consumed by a prior sub-page allocation:
/// `idx` names the frame, `off` the first free byte offset inside it.
/// At most one such frame is tracked at a time.
#[derive(Clone, Copy, Debug, PartialEq, Eq, Structural)]
pub struct LastPage {
    pub idx: usize,
    pub off: usize,
}

/// Mathematical counterpart of `LastPage`.
pub struct LastModel {
    pub idx: int,
    pub off: int,
}

/// Mathematical state of the allocator: the bitmap as a sequence of
/// booleans (true = allocated) and the tracked partial frame.
#[verifier::ext_equal]
pub struct AllocModel {
    pub bits: Seq<bool>,
    pub last: Option<LastModel>,
}

pub open spec fn model_wf(m: AllocModel) -> bool {
    match m.last {
        Some(lp) => {
            &&& 0 <= lp.idx < m.bits.len()
            &&& 0 < lp.off < PAGE_SIZE
            &&& m.bits[lp.idx]
        },
        None => true,
    }
}

/// `cnt` consecutive clear (free) bits starting at `i`.
pub open spec fn run_clear(bits: Seq<bool>, i: int, cnt: int) -> bool {
    forall|j: int| i <= j < i + cnt ==> !bits[j]
}

/// First-fit search from position `j` on: the least index at or after
/// `j` where `cnt` contiguous clear bits start.
pub open spec fn first_fit_from(bits: Seq<bool>, cnt: int, j: int) -> Option<int>
    decreases bits.len() - j,
{
    if j < 0 || cnt <= 0 || j + cnt > bits.len() {
        None
    } else if run_clear(bits, j, cnt) {
        Some(j)
    } else {
        first_fit_from(bits, cnt, j + 1)
    }
}

pub open spec fn first_fit(bits: Seq<bool>, cnt: int) -> Option<int> {
    first_fit_from(bits, cnt, 0)
}

pub proof fn lemma_first_fit_from(bits: Seq<bool>, cnt: int, j: int)
    requires
        0 <= j,
        1 <= cnt,
    ensures
        match first_fit_from(bits, cnt, j) {
            Some(i) => {
                &&& j <= i && i + cnt <= bits.len()
                &&& run_clear(bits, i, cnt)
                &&& forall|k: int| j <= k < i ==> !run_clear(bits, k, cnt)
            },
            None => forall|k: int| j <= k && k + cnt <= bits.len() ==> !run_clear(bits, k, cnt),
        },
    decreases bits.len() - j,
{
    if j + cnt > bits.len() {
    } else if run_clear(bits, j, cnt) {
    } else {
        lemma_first_fit_from(bits, cnt, j + 1);
    }
}

/// The bitmap with the frames `[i, i + cnt)` forced to `v`.
pub open spec fn mark_run(bits: Seq<bool>, i: int, cnt: int, v: bool) -> Seq<bool> {
    Seq::new(bits.len(), |f: int| if i <= f < i + cnt { v } else { bits[f] })
}

/// Bytes reclaimed from the tracked partial frame when it immediately
/// precedes the found run `i`: the distance from its first free byte,
/// aligned up to the request's alignment, back from the run's start.
pub open spec fn squeeze_shift_s(last: Option<LastModel>, i: int, alignment: int) -> int {
    let page = PAGE_SIZE as int;
    match last {
        Some(lp) => if lp.idx == i - 1 {
            i * page - align_up_s((i - 1) * page + lp.off, alignment)
        } else {
            0
        },
        None => 0,
    }
}

/// Outcome of one allocator transition: the state afterwards, and the
/// returned offset (relative to the pool base) or error.
#[verifier::ext_equal]
pub struct AllocStep {
    pub m: AllocModel,
    pub result: Result<int, AllocError>,
}

/// What `allocate` does, stated as a function of the model alone.
///
/// The request is rounded up to its alignment and then to whole frames;
/// the first-fit run of that many clear frames serves it.  When the
/// tracked partial frame immediately precedes the run and its aligned
/// tail reaches into the run, the address slides backward by the shift;
/// frames of the run that the shifted request no longer touches stay
/// free.  Afterwards the tracked partial frame is exactly the frame
/// holding the allocation's end, if that end is not frame-aligned.
pub open spec fn allocate_spec(m: AllocModel, size: int, alignment: int) -> AllocStep {
    let page = PAGE_SIZE as int;
    if !valid_alignment(alignment) {
        AllocStep { m, result: Err(AllocError::UnsupportedAlignment) }
    } else if size <= 0 {
        AllocStep { m, result: Err(AllocError::UnsupportedSize) }
    } else {
        let actual = align_up_s(size, alignment);
        let cnt = align_up_s(actual, page) / page;
        match first_fit(m.bits, cnt) {
            None => AllocStep { m, result: Err(AllocError::OutOfMemory) },
            Some(i) => {
                let shift = squeeze_shift_s(m.last, i, alignment);
                let start = i * page - shift;
                let end = start + actual;
                let consumed = if end <= i * page {
                    0
                } else {
                    align_up_s(end - i * page, page) / page
                };
                AllocStep {
                    m: AllocModel {
                        bits: mark_run(m.bits, i, consumed, true),
                        last: if end % page == 0 {
                            None
                        } else {
                            Some(LastModel { idx: end / page, off: end % page })
                        },
                    },
                    result: Ok(start),
                }
            },
        }
    }
}

/// Outcome of one deallocation: the state afterwards and the unit
/// result or error.
#[verifier::ext_equal]
pub struct DeallocStep {
    pub m: AllocModel,
    pub result: Result<(), AllocError>,
}

/// What `deallocate` does, stated as a function of the model alone;
/// `off` is the freed address relative to the pool base.
///
/// A frame-aligned range clears every frame it fully covers; when its
/// partial tail is exactly the tracked partial frame, that frame goes
/// too.  A range that is not frame-aligned was squeezed into a shared
/// frame, which stays allocated; only frames past the next frame
/// boundary are cleared, and the tracked partial frame rolls back to
/// the freed range's start when it named exactly the range's end.  A
/// free that would clear the tracked frame without reconciling it is
/// refused as `InvalidFree`: the caller broke the contract, and the
/// allocator refuses to corrupt its state.
pub open spec fn deallocate_spec(m: AllocModel, off: int, size: int, alignment: int) -> DeallocStep {
    let pg = PAGE_SIZE as int;
    if !valid_alignment(alignment) {
        DeallocStep { m, result: Err(AllocError::UnsupportedAlignment) }
    } else if size <= 0 {
        DeallocStep { m, result: Err(AllocError::UnsupportedSize) }
    } else {
        let actual = align_up_s(size, alignment);
        let end = off + actual;
        if off < 0 || end > m.bits.len() * pg {
            DeallocStep { m, result: Err(AllocError::InvalidFree) }
        } else {
            let s0 = off % pg;
            if s0 == 0 {
                let i = off / pg;
                let full = actual / pg;
                let rem = actual % pg;
                if rem > 0 && m.last == Some(LastModel { idx: i + full, off: rem }) {
                    DeallocStep {
                        m: AllocModel {
                            bits: mark_run(m.bits, i, full + 1, false),
                            last: None,
                        },
                        result: Ok(()),
                    }
                } else if m.last matches Some(lp) && i <= lp.idx < i + full {
                    DeallocStep { m, result: Err(AllocError::InvalidFree) }
                } else {
                    DeallocStep {
                        m: AllocModel { bits: mark_run(m.bits, i, full, false), last: m.last },
                        result: Ok(()),
                    }
                }
            } else {
                let head = off / pg;
                let b = (head + 1) * pg;
                if end <= b {
                    if end < b && m.last == Some(LastModel { idx: head, off: end % pg }) {
                        DeallocStep {
                            m: AllocModel {
                                bits: m.bits,
                                last: Some(LastModel { idx: head, off: s0 }),
                            },
                            result: Ok(()),
                        }
                    } else {
                        DeallocStep { m, result: Ok(()) }
                    }
                } else {
                    let i = head + 1;
                    let fullend = end / pg;
                    let rem = end % pg;
                    if rem > 0 && m.last == Some(LastModel { idx: fullend, off: rem }) {
                        if m.bits[head] {
                            DeallocStep {
                                m: AllocModel {
                                    bits: mark_run(m.bits, i, fullend - i + 1, false),
                                    last: Some(LastModel { idx: head, off: s0 }),
                                },
                                result: Ok(()),
                            }
                        } else {
                            DeallocStep { m, result: Err(AllocError::InvalidFree) }
                        }
                    } else if m.last matches Some(lp) && i <= lp.idx < fullend {
                        DeallocStep { m, result: Err(AllocError::InvalidFree) }
                    } else {
                        DeallocStep {
                            m: AllocModel {
                                bits: mark_run(m.bits, i, fullend - i, false),
                                last: m.last,
                            },
                            result: Ok(()),
                        }
                    }
                }
            }
        }
    }
}

/// The physical frame allocator.  Frame `f` covers the bytes
/// `[base + f * PAGE_SIZE, base + (f + 1) * PAGE_SIZE)`.
pub struct BitmapAllocator {
    page_map: FrameBits,
    last_page: Option<LastPage>,
    base: usize,
}

impl BitmapAllocator {
    pub closed spec fn bits(&self) -> Seq<bool> {
        frame_bits(self.page_map)
    }

    pub closed spec fn last(&self) -> Option<LastModel> {
        match self.last_page {
            Some(lp) => Some(LastModel { idx: lp.idx as int, off: lp.off as int }),
            None => None,
        }
    }

    pub open spec fn model(&self) -> AllocModel {
        AllocModel { bits: self.bits(), last: self.last() }
    }

    pub closed spec fn base_addr(&self) -> int {
        self.base as int
    }

    pub open spec fn num_frames(&self) -> int {
        self.bits().len() as int
    }

    pub open spec fn wf(&self) -> bool {
        &&& model_wf(self.model())
        &&& self.base_addr() % PAGE_SIZE as int == 0
        &&& self.base_addr() + self.num_frames() * PAGE_SIZE + PAGE_SIZE <= usize::MAX
    }

    /// A fresh allocator over `num_frames` frames starting at `base`;
    /// every frame is free and no partial frame is tracked.
    pub fn new(num_frames: usize, base: usize) -> (r: Self)
        requires
            base as int % PAGE_SIZE as int == 0,
            base + num_frames * PAGE_SIZE + PAGE_SIZE <= usize::MAX,
        ensures
            r.wf(),
            r.base_addr() == base,
            r.num_frames() == num_frames,
            r.bits() == Seq::new(num_frames as nat, |i: int| false),
            r.last() is None,
    {
        let page_map = bits_repeat(false, num_frames);
        Self { page_map, last_page: None, base }
    }

    /// Serves `size` bytes at alignment `alignment` (a power of two up
    /// to one page) and returns the base address of the range, or the
    /// error the request earns.  The transition is exactly
    /// `allocate_spec` on the allocator's model.
    pub fn allocate(&mut self, size: usize, alignment: usize) -> (r: Result<usize, AllocError>)
        requires
            old(self).wf(),
        ensures
            final(self).wf(),
            final(self).base_addr() == old(self).base_addr(),
            ({
                let step = allocate_spec(old(self).model(), size as int, alignment as int);
                &&& final(self).model() == step.m
                &&& match r {
                    Ok(a) => step.result == Ok::<int, AllocError>(a - old(self).base_addr()),
                    Err(e) => step.result == Err::<int, AllocError>(e),
                }
            }),
    {
        let ghost m0 = self.model();
        let page = PAGE_SIZE;
        let ghost pg = PAGE_SIZE as int;
        if alignment == 0 || page % alignment != 0 {
            return Err(AllocError::UnsupportedAlignment);
        }
        if size == 0 {
            return Err(AllocError::UnsupportedSize);
        }
        let len = bits_len(&self.page_map);
        proof {
            assert(len * pg + pg <= usize::MAX);
            crate::mmu::lemma_valid_alignment_bounds(alignment as int);
        }
        if size > len * page {
            proof {
                lemma_align_up_properties(size as int, alignment as int);
                lemma_align_up_properties(align_up_s(size as int, alignment as int), pg);
                let actual = align_up_s(size as int, alignment as int);
                let rounded = align_up_s(actual, pg);
                let cnt = rounded / pg;
                assert(rounded >= actual >= size > len * pg);
                assert(cnt > len) by {
                    assert(rounded == (rounded / pg) * pg + rounded % pg) by {
                        vstd::arithmetic::div_mod::lemma_fundamental_div_mod(rounded, pg);
                    };
                    assert(cnt * pg == rounded > len * pg);
                    if cnt <= len {
                        lemma_mul_le(cnt, len as int, pg);
                    }
                };
                lemma_first_fit_from(m0.bits, cnt, 0);
                if first_fit(m0.bits, cnt) is Some {
                    let i = first_fit(m0.bits, cnt)->Some_0;
                    assert(i + cnt <= len);
                }
            }
            return Err(AllocError::OutOfMemory);
        }
        let actual = align_up(size, alignment);
        if actual > len * page {
            proof {
                lemma_align_up_properties(actual as int, pg);
                let rounded = align_up_s(actual as int, pg);
                let cnt = rounded / pg;
                assert(cnt > len) by {
                    vstd::arithmetic::div_mod::lemma_fundamental_div_mod(rounded, pg);
                    assert(cnt * pg == rounded >= actual > len * pg);
                    if cnt <= len {
                        lemma_mul_le(cnt, len as int, pg);
                    }
                };
                lemma_first_fit_from(m0.bits, cnt, 0);
                if first_fit(m0.bits, cnt) is Some {
                    let i = first_fit(m0.bits, cnt)->Some_0;
                    assert(i + cnt <= len);
                }
            }
            return Err(AllocError::OutOfMemory);
        }
        let page_cnt = align_up(actual, page) / page;
        proof {
            lemma_align_up_properties(actual as int, pg);
            assert(page_cnt >= 1) by {
                vstd::arithmetic::div_mod::lemma_fundamental_div_mod(
                    align_up_s(actual as int, pg),
                    pg,
                );
                vstd::arithmetic::div_mod::lemma_mod_division_less_than_divisor(
                    align_up_s(actual as int, pg),
                    pg,
                );
            };
        }
        let found = find_page_idx(&self.page_map, page_cnt);
        match found {
            None => Err(AllocError::OutOfMemory),
            Some(i) => {
                let ghost cnt = page_cnt as int;
                proof {
                    lemma_first_fit_from(m0.bits, cnt, 0);
                    assert(i + cnt <= len);
                    lemma_mul_le(i as int + cnt, len as int, pg);
                    assert((i as int + cnt) * pg == i as int * pg + cnt * pg)
                        by (nonlinear_arith);
                    // actual <= cnt * pg
                    vstd::arithmetic::div_mod::lemma_fundamental_div_mod(
                        align_up_s(actual as int, pg),
                        pg,
                    );
                    vstd::arithmetic::div_mod::lemma_mod_division_less_than_divisor(
                        align_up_s(actual as int, pg),
                        pg,
                    );
                    match self.last_page {
                        Some(lp) => {
                            lemma_mul_le(lp.idx as int + 1, len as int, pg);
                            assert((lp.idx as int + 1) * pg == lp.idx as int * pg + pg)
                                by (nonlinear_arith);
                        },
                        None => {},
                    }
                }
                let shift = match shift_from_last_page(&self.last_page, i, alignment, self.base) {
                    Some(s) => s,
                    None => 0,
                };
                let ghost sh = squeeze_shift_s(m0.last, i as int, alignment as int);
                proof {
                    lemma_squeeze_shift_bounds(m0, i as int, alignment as int);
                    assert(shift as int == sh);
                    // shift is small and, when positive, i >= 1
                    if sh > 0 {
                        let lp = m0.last->Some_0;
                        lemma_align_up_properties((i as int - 1) * pg + lp.off, alignment as int);
                        assert((i as int - 1) * pg + pg == i as int * pg) by (nonlinear_arith);
                        lemma_mul_le(1, i as int, pg);
                    }
                }
                let start_off = i * page - shift;
                let end_off = start_off + actual;
                proof {
                    lemma_mul_le(i as int, len as int, pg);
                    assert(end_off as int == i as int * pg + actual - shift);
                    assert(end_off <= len * page);
                }
                let consumed = if end_off <= i * page {
                    0
                } else {
                    align_up(end_off - i * page, page) / page
                };
                proof {
                    // consumed <= cnt, so the marking loop stays in range
                    if end_off > i * page {
                        let d = end_off as int - i as int * pg;
                        lemma_align_up_properties(d, pg);
                        assert(align_up_s(d, pg) <= cnt * pg) by {
                            lemma_mul_mod_zero(cnt, pg, pg);
                            lemma_align_up_le_multiple(d, cnt * pg, pg);
                        };
                        assert(consumed as int == align_up_s(d, pg) / pg);
                        assert(consumed <= cnt) by {
                            vstd::arithmetic::div_mod::lemma_div_is_ordered(
                                align_up_s(d, pg),
                                cnt * pg,
                                pg,
                            );
                            vstd::arithmetic::div_mod::lemma_div_multiples_vanish(cnt, pg);
                            assert(cnt * pg == pg * cnt) by (nonlinear_arith);
                        };
                    }
                }
                fill_run(&mut self.page_map, i, consumed, true);
                if end_off % page == 0 {
                    self.last_page = None;
                } else {
                    self.last_page = Some(LastPage { idx: end_off / page, off: end_off % page });
                }
                proof {
                    lemma_allocate_wf(m0, size as int, alignment as int, i as int, len as int);
                    assert(self.model() =~= allocate_spec(m0, size as int, alignment as int).m);
                }
                Ok(self.base + start_off)
            },
        }
    }

    /// Returns the freed range to the pool.  `addr`, `size` and
    /// `alignment` must be exactly what a prior `allocate` returned and
    /// was given; a free that cannot be reconciled against the tracked
    /// state is refused with `InvalidFree`.  The transition is exactly
    /// `deallocate_spec` on the allocator's model.
    pub fn deallocate(&mut self, addr: usize, size: usize, alignment: usize) -> (r: Result<
        (),
        AllocError,
    >)
        requires
            old(self).wf(),
        ensures
            final(self).wf(),
            final(self).base_addr() == old(self).base_addr(),
            ({
                let step = deallocate_spec(
                    old(self).model(),
                    addr - old(self).base_addr(),
                    size as int,
                    alignment as int,
                );
                &&& final(self).model() == step.m
                &&& r == step.result
            }),
    {
        let ghost m0 = self.model();
        let page = PAGE_SIZE;
        let ghost pg = PAGE_SIZE as int;
        if alignment == 0 || page % alignment != 0 {
            return Err(AllocError::UnsupportedAlignment);
        }
        if size == 0 {
            return Err(AllocError::UnsupportedSize);
        }
        if addr < self.base {
            return Err(AllocError::InvalidFree);
        }
        let off = addr - self.base;
        let len = bits_len(&self.page_map);
        proof {
            assert(len * pg + pg <= usize::MAX);
            crate::mmu::lemma_valid_alignment_bounds(alignment as int);
            lemma_align_up_properties(size as int, alignment as int);
        }
        if off > len * page || size > len * page - off {
            proof {
                assert(align_up_s(size as int, alignment as int) >= size);
            }
            return Err(AllocError::InvalidFree);
        }
        let actual = align_up(size, alignment);
        if actual > len * page - off {
            return Err(AllocError::InvalidFree);
        }
        let end = off + actual;
        proof {
            vstd::arithmetic::div_mod::lemma_mod_division_less_than_divisor(off as int, pg);
            vstd::arithmetic::div_mod::lemma_fundamental_div_mod(off as int, pg);
            vstd::arithmetic::div_mod::lemma_fundamental_div_mod(end as int, pg);
            vstd::arithmetic::div_mod::lemma_mod_division_less_than_divisor(end as int, pg);
            vstd::arithmetic::div_mod::lemma_fundamental_div_mod(actual as int, pg);
            vstd::arithmetic::div_mod::lemma_mod_division_less_than_divisor(actual as int, pg);
            lemma_div_le_linear(off as int, len as int, pg);
            lemma_div_le_linear(end as int, len as int, pg);
        }
        if off % page == 0 {
            let i = off / page;
            let full = actual / page;
            let rem = actual % page;
            proof {
                // i + full == end / pg when rem > 0 it is less than len;
                // in general i + full <= len
                vstd::arithmetic::div_mod::lemma_hoist_over_denominator(
                    off as int,
                    full as int,
                    pg as nat,
                );
                assert((actual as int / pg) * pg == pg * (actual as int / pg))
                    by (nonlinear_arith);
                assert((off + full * page) as int <= end as int);
                vstd::arithmetic::div_mod::lemma_div_is_ordered(
                    off as int + full as int * pg,
                    end as int,
                    pg,
                );
                assert(i + full <= end as int / pg <= len);
                if rem > 0 {
                    vstd::arithmetic::div_mod::lemma_fundamental_div_mod_converse(
                        end as int,
                        pg,
                        i as int + full as int,
                        rem as int,
                    );
                    assert(end as int / pg == i + full && end as int % pg == rem);
                    assert(end < len * page) by {
                        if end as int == len as int * pg {
                            lemma_mul_mod_zero(len as int, pg, pg);
                        }
                    };
                    assert(i + full < len) by {
                        if i as int + full >= len {
                            assert((i as int + full) * pg >= len as int * pg)
                                by (nonlinear_arith)
                                requires i as int + full >= len as int, 0 < pg,
                            ;
                            assert(end as int == (i as int + full) * pg + rem);
                        }
                    };
                }
            }
            let matched = match &self.last_page {
                Some(lp) => rem > 0 && lp.idx == i + full && lp.off == rem,
                None => false,
            };
            if matched {
                fill_run(&mut self.page_map, i, full + 1, false);
                self.last_page = None;
                proof {
                    assert(self.model() =~= deallocate_spec(
                        m0,
                        off as int,
                        size as int,
                        alignment as int,
                    ).m);
                }
                return Ok(());
            }
            match &self.last_page {
                Some(lp) => {
                    if lp.idx >= i && lp.idx < i + full {
                        return Err(AllocError::InvalidFree);
                    }
                },
                None => {},
            }
            fill_run(&mut self.page_map, i, full, false);
            proof {
                assert(self.model() =~= deallocate_spec(
                    m0,
                    off as int,
                    size as int,
                    alignment as int,
                ).m);
            }
            Ok(())
        } else {
            let head = off / page;
            proof {
                assert(head < len) by {
                    if head as int >= len {
                        assert(head as int * pg >= len as int * pg) by (nonlinear_arith)
                            requires head as int >= len as int, 0 < pg,
                        ;
                        assert(off as int == pg * (head as int) + off as int % pg);
                        assert(pg * (head as int) == head as int * pg) by (nonlinear_arith);
                    }
                };
                assert((head + 1) as int * pg == head as int * pg + pg) by (nonlinear_arith);
                lemma_mul_le(head as int + 1, len as int, pg);
            }
            let b = (head + 1) * page;
            if end <= b {
                if end < b {
                    let rollback = match &self.last_page {
                        Some(lp) => lp.idx == head && lp.off == end % page,
                        None => false,
                    };
                    if rollback {
                        proof {
                            vstd::arithmetic::div_mod::lemma_fundamental_div_mod_converse(
                                end as int,
                                pg,
                                head as int,
                                end as int - head as int * pg,
                            );
                        }
                        self.last_page = Some(LastPage { idx: head, off: off % page });
                    }
                }
                proof {
                    assert(self.model() =~= deallocate_spec(
                        m0,
                        off as int,
                        size as int,
                        alignment as int,
                    ).m);
                }
                Ok(())
            } else {
                let i = head + 1;
                let fullend = end / page;
                let rem = end % page;
                proof {
                    assert(i <= fullend) by {
                        vstd::arithmetic::div_mod::lemma_div_is_ordered(
                            i as int * pg,
                            end as int,
                            pg,
                        );
                        vstd::arithmetic::div_mod::lemma_div_multiples_vanish(i as int, pg);
                        assert(i as int * pg == pg * (i as int)) by (nonlinear_arith);
                    };
                    if rem > 0 {
                        assert(end < len * page) by {
                            if end as int == len as int * pg {
                                lemma_mul_mod_zero(len as int, pg, pg);
                            }
                        };
                        assert(fullend < len) by {
                            if fullend as int >= len {
                                assert(fullend as int * pg >= len as int * pg)
                                    by (nonlinear_arith)
                                    requires fullend as int >= len as int, 0 < pg,
                                ;
                                assert(end as int == pg * (fullend as int) + rem);
                                assert(pg * (fullend as int) == fullend as int * pg)
                                    by (nonlinear_arith);
                            }
                        };
                    }
                }
                let matched = match &self.last_page {
                    Some(lp) => rem > 0 && lp.idx == fullend && lp.off == rem,
                    None => false,
                };
                if matched {
                    if !bits_get(&self.page_map, head) {
                        return Err(AllocError::InvalidFree);
                    }
                    fill_run(&mut self.page_map, i, fullend - i + 1, false);
                    self.last_page = Some(LastPage { idx: head, off: off % page });
                    proof {
                        assert(self.model() =~= deallocate_spec(
                            m0,
                            off as int,
                            size as int,
                            alignment as int,
                        ).m);
                    }
                    return Ok(());
                }
                match &self.last_page {
                    Some(lp) => {
                        if lp.idx >= i && lp.idx < fullend {
                            return Err(AllocError::InvalidFree);
                        }
                    },
                    None => {},
                }
                fill_run(&mut self.page_map, i, fullend - i, false);
                proof {
                    assert(self.model() =~= deallocate_spec(
                        m0,
                        off as int,
                        size as int,
                        alignment as int,
                    ).m);
                }
                Ok(())
            }
        }
    }

    /// Number of frames in the pool.
    pub fn num_frames_exec(&self) -> (r: usize)
        ensures
            r == self.num_frames(),
    {
        bits_len(&self.page_map)
    }

    /// Whether frame `f` is marked allocated.
    pub fn frame_allocated(&self, f: usize) -> (r: bool)
        requires
            f < self.num_frames(),
        ensures
            r == self.bits()[f as int],
    {
        bits_get(&self.page_map, f)
    }

    pub fn last_page(&self) -> (r: Option<LastPage>)
        ensures
            match r {
                Some(lp) => self.last() == Some(LastModel { idx: lp.idx as int, off: lp.off as int }),
                None => self.last() is None,
            },
    {
        self.last_page
    }
}

/// Writes `v` into the `cnt` bits starting at `i`.
fn fill_run(
    bv: &mut FrameBits,
    i: usize,
    cnt: usize,
    v: bool,
)
    requires
        i + cnt <= frame_bits(*old(bv)).len(),
        i + cnt <= usize::MAX,
    ensures
        frame_bits(*final(bv)) == mark_run(frame_bits(*old(bv)), i as int, cnt as int, v),
{
    let ghost bits0 = frame_bits(*bv);
    let mut j: usize = 0;
    while j < cnt
        invariant
            j <= cnt,
            i + cnt <= bits0.len(),
            i + cnt <= usize::MAX,
            frame_bits(*bv).len() == bits0.len(),
            frame_bits(*bv) == mark_run(bits0, i as int, j as int, v),
        decreases cnt - j,
    {
        proof {
            assert(mark_run(bits0, i as int, j as int, v).update(i + j, v) =~= mark_run(
                bits0,
                i as int,
                j as int + 1,
                v,
            ));
        }
        bits_set(bv, i + j, v);
        j += 1;
    }
    proof {
        if cnt == 0 {
            assert(mark_run(bits0, i as int, 0, v) =~= bits0);
        }
    }
}

/// How far a request at run `page_idx` can slide backward into the
/// tracked partial frame's free tail, given the request's alignment.
/// `None` when the tracked frame is not the one immediately preceding
/// the run, or its aligned tail starts exactly at the run.
pub fn shift_from_last_page(
    last_page: &Option<LastPage>,
    page_idx: usize,
    alignment: usize,
    base: usize,
) -> (r: Option<usize>)
    requires
        valid_alignment(alignment as int),
        base as int % PAGE_SIZE as int == 0,
        base + page_idx * PAGE_SIZE + PAGE_SIZE <= usize::MAX,
        match *last_page {
            Some(lp) => lp.idx as int == page_idx as int - 1 ==> 0 < lp.off <= PAGE_SIZE,
            None => true,
        },
    ensures
        ({
            let lm = match *last_page {
                Some(lp) => Some(LastModel { idx: lp.idx as int, off: lp.off as int }),
                None => None,
            };
            let s = squeeze_shift_s(lm, page_idx as int, alignment as int);
            r == if s > 0 { Some(s as usize) } else { None::<usize> }
        }),
{
    let ghost page = PAGE_SIZE as int;
    match last_page {
        Some(lp) => {
            if page_idx >= 1 && lp.idx == page_idx - 1 {
                let i = page_idx;
                proof {
                    crate::mmu::lemma_valid_alignment_bounds(alignment as int);
                    lemma_mul_le(i as int - 1, i as int, page);
                    lemma_mod_divides_trans(base as int, alignment as int, page);
                    lemma_mul_mod_zero(i as int, page, alignment as int);
                    vstd::arithmetic::div_mod::lemma_add_mod_noop(
                        base as int,
                        i as int * page,
                        alignment as int,
                    );
                    vstd::arithmetic::div_mod::lemma_small_mod(0nat, alignment as nat);
                    lemma_align_up_add_multiple(
                        base as int,
                        (i as int - 1) * page + lp.off,
                        alignment as int,
                    );
                    lemma_align_up_properties(
                        base + (i as int - 1) * page + lp.off,
                        alignment as int,
                    );
                    lemma_align_up_le_multiple(
                        base + (i as int - 1) * page + lp.off,
                        base + i as int * page,
                        alignment as int,
                    );
                    assert((i as int - 1) * page + page == i as int * page) by (nonlinear_arith);
                }
                let last_ins_addr = align_up((i - 1) * PAGE_SIZE + lp.off + base, alignment);
                let curr_ins_addr = base + i * PAGE_SIZE;
                let shift = curr_ins_addr - last_ins_addr;
                if shift == 0 {
                    None
                } else {
                    Some(shift)
                }
            } else {
                None
            }
        },
        None => None,
    }
}

/// Under a well-formed model, the squeeze shift is a small non-negative
/// distance: less than one page, and positive only when the tracked
/// frame immediately precedes the run.
pub proof fn lemma_squeeze_shift_bounds(m: AllocModel, i: int, alignment: int)
    requires
        model_wf(m),
        valid_alignment(alignment),
        0 <= i,
    ensures
        0 <= squeeze_shift_s(m.last, i, alignment) < PAGE_SIZE as int,
        squeeze_shift_s(m.last, i, alignment) > 0 ==> {
            &&& 1 <= i
            &&& m.last matches Some(lp) && lp.idx == i - 1
        },
{
    let pg = PAGE_SIZE as int;
    match m.last {
        Some(lp) => {
            if lp.idx == i - 1 {
                let v = (i - 1) * pg + lp.off;
                lemma_mul_mod_zero(i, pg, alignment);
                assert((i - 1) * pg + pg == i * pg) by (nonlinear_arith);
                assert((i - 1) * pg >= 0) by (nonlinear_arith)
                    requires 1 <= i, 0 < pg,
                ;
                lemma_align_up_properties(v, alignment);
                lemma_align_up_le_multiple(v, i * pg, alignment);
            }
        },
        None => {},
    }
}

/// After a successful allocation the model is still well-formed: the
/// tracked frame (when any) is in range, partially used, and marked.
proof fn lemma_allocate_wf(m: AllocModel, size: int, alignment: int, i: int, len: int)
    requires
        model_wf(m),
        len == m.bits.len(),
        valid_alignment(alignment),
        1 <= size,
        align_up_s(size, alignment) <= len * (PAGE_SIZE as int),
        ({
            let actual = align_up_s(size, alignment);
            let cnt = align_up_s(actual, PAGE_SIZE as int) / (PAGE_SIZE as int);
            first_fit(m.bits, cnt) == Some(i)
        }),
    ensures
        model_wf(allocate_spec(m, size, alignment).m),
        allocate_spec(m, size, alignment).m.bits.len() == len,
        allocate_spec(m, size, alignment).result matches Ok(start) && 0 <= start,
{
    let pg = PAGE_SIZE as int;
    let actual = align_up_s(size, alignment);
    let rounded = align_up_s(actual, pg);
    let cnt = rounded / pg;
    lemma_align_up_properties(size, alignment);
    lemma_align_up_properties(actual, pg);
    vstd::arithmetic::div_mod::lemma_fundamental_div_mod(rounded, pg);
    vstd::arithmetic::div_mod::lemma_mod_division_less_than_divisor(rounded, pg);
    assert(pg * (rounded / pg) == (rounded / pg) * pg) by (nonlinear_arith);
    assert(cnt * pg == rounded);
    assert(cnt >= 1) by {
        if cnt <= 0 {
            assert(cnt * pg <= 0) by (nonlinear_arith)
                requires cnt <= 0, 0 < pg,
            ;
        }
    };
    lemma_first_fit_from(m.bits, cnt, 0);
    assert(0 <= i && i + cnt <= len);
    lemma_squeeze_shift_bounds(m, i, alignment);
    let sh = squeeze_shift_s(m.last, i, alignment);
    let start = i * pg - sh;
    let end = start + actual;
    let consumed = if end <= i * pg {
        0
    } else {
        align_up_s(end - i * pg, pg) / pg
    };
    assert(i * pg >= pg * 1 ==> i * pg >= pg) by (nonlinear_arith);
    assert(1 <= i ==> i * pg >= pg) by (nonlinear_arith)
        requires 0 < pg,
    ;
    assert(0 <= start);
    assert((i + cnt) * pg == i * pg + cnt * pg) by (nonlinear_arith);
    vstd::arithmetic::mul::lemma_mul_inequality(i + cnt, len, pg);
    assert(end <= len * pg);
    // consumed is at most cnt
    if end > i * pg {
        let d = end - i * pg;
        lemma_align_up_properties(d, pg);
        lemma_mul_mod_zero(cnt, pg, pg);
        lemma_align_up_le_multiple(d, cnt * pg, pg);
        vstd::arithmetic::div_mod::lemma_div_is_ordered(align_up_s(d, pg), cnt * pg, pg);
        vstd::arithmetic::div_mod::lemma_div_multiples_vanish(cnt, pg);
        assert(cnt * pg == pg * cnt) by (nonlinear_arith);
        vstd::arithmetic::div_mod::lemma_div_pos_is_pos(align_up_s(d, pg), pg);
    }
    assert(0 <= consumed <= cnt);
    let m2 = allocate_spec(m, size, alignment).m;
    assert(m2.bits == mark_run(m.bits, i, consumed, true));
    if end % pg != 0 {
        let idx = end / pg;
        let off = end % pg;
        vstd::arithmetic::div_mod::lemma_fundamental_div_mod(end, pg);
        vstd::arithmetic::div_mod::lemma_mod_division_less_than_divisor(end, pg);
        assert(0 < off < pg);
        // idx < len: end < len * pg because end <= len * pg and end is
        // not a multiple of pg
        assert(end < len * pg) by {
            if end == len * pg {
                lemma_mul_mod_zero(len, pg, pg);
            }
        };
        assert(idx < len) by {
            if idx >= len {
                assert(idx * pg >= len * pg) by (nonlinear_arith)
                    requires idx >= len, 0 < pg,
                ;
                assert(idx * pg == pg * idx) by (nonlinear_arith);
                assert(end == pg * idx + off);
            }
        };
        if end > i * pg {
            let d = end - i * pg;
            // idx == i + d / pg and off == d % pg
            vstd::arithmetic::div_mod::lemma_hoist_over_denominator(d, i, pg as nat);
            assert(d + i * pg == end);
            vstd::arithmetic::div_mod::lemma_mod_multiples_vanish(i, d, pg);
            assert(pg * i + d == end) by (nonlinear_arith)
                requires d + i * pg == end,
            ;
            assert(idx == i + d / pg && off == d % pg);
            // consumed == d / pg + 1 because d is not frame-aligned
            vstd::arithmetic::div_mod::lemma_fundamental_div_mod(d, pg);
            vstd::arithmetic::div_mod::lemma_mod_division_less_than_divisor(d, pg);
            lemma_align_up_properties(d, pg);
            assert(align_up_s(d, pg) == d + pg - (d % pg));
            assert(align_up_s(d, pg) == (d / pg + 1) * pg) by (nonlinear_arith)
                requires
                    align_up_s(d, pg) == d + pg - (d % pg),
                    d == pg * (d / pg) + d % pg,
            ;
            vstd::arithmetic::div_mod::lemma_div_multiples_vanish(d / pg + 1, pg);
            assert(pg * (d / pg + 1) == (d / pg + 1) * pg) by (nonlinear_arith);
            assert(consumed == d / pg + 1);
            vstd::arithmetic::div_mod::lemma_div_pos_is_pos(d, pg);
            assert(i <= idx < i + consumed);
            assert(m2.bits[idx]);
        } else {
            // The allocation ends inside the tracked frame that precedes
            // the run, which stays marked.
            lemma_mul_mod_zero(i, pg, pg);
            assert(end < i * pg);
            assert(sh >= actual - 0) by {
                assert(end == i * pg + actual - sh);
            };
            assert(sh > 0);
            let lp = m.last->Some_0;
            assert(lp.idx == i - 1);
            assert(end > (i - 1) * pg) by {
                assert((i - 1) * pg == i * pg - pg) by (nonlinear_arith);
            };
            vstd::arithmetic::div_mod::lemma_fundamental_div_mod_converse(
                end,
                pg,
                i - 1,
                end - (i - 1) * pg,
            );
            assert(idx == i - 1);
            assert(m2.bits[idx] == m.bits[idx]);
        }
    }
}

/// Law: deallocating exactly what `allocate` returned restores the
/// bitmap and the tracked partial frame to their prior state, for a
/// single allocation made while no partial frame was tracked.
/// (When a partial frame is already tracked, a successful allocation
/// retargets the tracking, so the prior tracking cannot be recovered.)
pub proof fn lemma_deallocate_inverts_allocate(m: AllocModel, size: int, alignment: int)
    requires
        model_wf(m),
        m.last is None,
        allocate_spec(m, size, alignment).result is Ok,
    ensures
        ({
            let step = allocate_spec(m, size, alignment);
            let back = deallocate_spec(step.m, step.result->Ok_0, size, alignment);
            &&& back.result == Ok::<(), AllocError>(())
            &&& back.m == m
        }),
{
    let pg = PAGE_SIZE as int;
    let step = allocate_spec(m, size, alignment);
    let actual = align_up_s(size, alignment);
    let rounded = align_up_s(actual, pg);
    let cnt = rounded / pg;
    let len = m.bits.len() as int;
    lemma_align_up_properties(size, alignment);
    lemma_align_up_properties(actual, pg);
    vstd::arithmetic::div_mod::lemma_fundamental_div_mod(rounded, pg);
    vstd::arithmetic::div_mod::lemma_mod_division_less_than_divisor(rounded, pg);
    assert(pg * (rounded / pg) == (rounded / pg) * pg) by (nonlinear_arith);
    let i = first_fit(m.bits, cnt)->Some_0;
    lemma_first_fit_from(m.bits, cnt, 0);
    assert(0 <= i && i + cnt <= len && run_clear(m.bits, i, cnt));
    // no partial frame is tracked, so there is no squeeze
    assert(squeeze_shift_s(m.last, i, alignment) == 0);
    let start = i * pg;
    let end = start + actual;
    vstd::arithmetic::div_mod::lemma_fundamental_div_mod(actual, pg);
    vstd::arithmetic::div_mod::lemma_mod_division_less_than_divisor(actual, pg);
    let full = actual / pg;
    let rem = actual % pg;
    assert(cnt >= 1) by {
        if cnt <= 0 {
            assert(cnt * pg <= 0) by (nonlinear_arith)
                requires cnt <= 0, 0 < pg,
            ;
        }
    };
    // cnt == full when the size is frame-aligned, full + 1 otherwise
    if rem == 0 {
        assert(actual == pg * full);
        assert(rounded == actual);
        vstd::arithmetic::div_mod::lemma_div_multiples_vanish(full, pg);
        assert(cnt == full);
    } else {
        assert(rounded == actual + pg - rem);
        assert(rounded == pg * (full + 1)) by (nonlinear_arith)
            requires
                rounded == actual + pg - rem,
                actual == pg * full + rem,
        ;
        vstd::arithmetic::div_mod::lemma_div_multiples_vanish(full + 1, pg);
        assert(cnt == full + 1);
    }
    // the allocation starts frame-aligned and consumes cnt frames
    lemma_mul_mod_zero(i, pg, pg);
    assert(start % pg == 0 && start >= 0) by {
        assert(i * pg >= 0) by (nonlinear_arith)
            requires 0 <= i, 0 < pg,
        ;
    };
    let d = end - start;
    assert(d == actual);
    let consumed = if end <= i * pg {
        0
    } else {
        align_up_s(end - i * pg, pg) / pg
    };
    assert(actual >= 1);
    assert(consumed == cnt);
    assert(step.m.bits == mark_run(m.bits, i, cnt, true));
    // the allocation's end names the tracked frame the spec predicts
    vstd::arithmetic::div_mod::lemma_hoist_over_denominator(actual, i, pg as nat);
    vstd::arithmetic::div_mod::lemma_mod_multiples_vanish(i, actual, pg);
    assert(i * pg == pg * i) by (nonlinear_arith);
    assert(end / pg == i + full && end % pg == rem);
    // now walk the deallocation
    let back = deallocate_spec(step.m, start, size, alignment);
    assert(end <= len * pg) by {
        lemma_mul_le(i + cnt, len, pg);
        assert((i + cnt) * pg == i * pg + cnt * pg) by (nonlinear_arith);
    };
    vstd::arithmetic::div_mod::lemma_div_multiples_vanish(i, pg);
    assert(start / pg == i);
    if rem > 0 {
        assert(step.m.last == Some(LastModel { idx: i + full, off: rem }));
        assert(back.m.bits == mark_run(step.m.bits, i, full + 1, false));
        assert(back.m.bits =~= m.bits);
        assert(back.m.last is None);
        assert(back.m =~= m);
    } else {
        assert(step.m.last is None);
        assert(back.m.bits == mark_run(step.m.bits, i, full, false));
        assert(back.m.bits =~= m.bits);
        assert(back.m =~= m);
    }
}

/// Law: deallocating exactly what a squeezed `allocate` returned also
/// restores the bitmap and the tracked partial frame, provided the
/// squeeze wasted no alignment padding (the tracked frame's first free
/// byte was already aligned) and the allocation's end is not exactly a
/// frame boundary.  (Padding bytes cannot be recovered, and an exactly
/// boundary-filling squeeze drops the tracking, so those inputs are
/// excluded.)
pub proof fn lemma_deallocate_inverts_squeezed_allocate(m: AllocModel, size: int, alignment: int)
    requires
        model_wf(m),
        allocate_spec(m, size, alignment).result is Ok,
        ({
            let pg = PAGE_SIZE as int;
            let actual = align_up_s(size, alignment);
            let cnt = align_up_s(actual, pg) / pg;
            let i = first_fit(m.bits, cnt)->Some_0;
            &&& m.last matches Some(lp) && lp.idx == i - 1 && ((i - 1) * pg + lp.off) % alignment
                == 0
            &&& (((i - 1) * pg + m.last->Some_0.off) + actual) % pg != 0
        }),
    ensures
        ({
            let step = allocate_spec(m, size, alignment);
            let back = deallocate_spec(step.m, step.result->Ok_0, size, alignment);
            &&& back.result == Ok::<(), AllocError>(())
            &&& back.m == m
        }),
{
    let pg = PAGE_SIZE as int;
    let step = allocate_spec(m, size, alignment);
    let actual = align_up_s(size, alignment);
    let rounded = align_up_s(actual, pg);
    let cnt = rounded / pg;
    let len = m.bits.len() as int;
    lemma_align_up_properties(size, alignment);
    lemma_align_up_properties(actual, pg);
    vstd::arithmetic::div_mod::lemma_fundamental_div_mod(rounded, pg);
    vstd::arithmetic::div_mod::lemma_mod_division_less_than_divisor(rounded, pg);
    assert(pg * (rounded / pg) == (rounded / pg) * pg) by (nonlinear_arith);
    assert(cnt >= 1) by {
        if cnt <= 0 {
            assert(cnt * pg <= 0) by (nonlinear_arith)
                requires cnt <= 0, 0 < pg,
            ;
        }
    };
    let i = first_fit(m.bits, cnt)->Some_0;
    lemma_first_fit_from(m.bits, cnt, 0);
    lemma_squeeze_shift_bounds(m, i, alignment);
    let lp = m.last->Some_0;
    let v = (i - 1) * pg + lp.off;
    // With the first free byte aligned, the allocation starts exactly
    // there: the shift reclaims the whole tail.
    assert((i - 1) * pg >= 0) by (nonlinear_arith)
        requires 1 <= i, 0 < pg,
    ;
    lemma_align_up_properties(v, alignment);
    assert(align_up_s(v, alignment) == v);
    let sh = squeeze_shift_s(m.last, i, alignment);
    assert(sh == i * pg - v);
    assert((i - 1) * pg + pg == i * pg) by (nonlinear_arith);
    assert(0 < sh);
    let start = i * pg - sh;
    assert(start == v);
    let end = start + actual;
    assert(end % pg != 0);
    let consumed = if end <= i * pg {
        0
    } else {
        align_up_s(end - i * pg, pg) / pg
    };
    assert(step.m.bits == mark_run(m.bits, i, consumed, true));
    assert(end <= len * pg) by {
        lemma_mul_le(i + cnt, len, pg);
        assert((i + cnt) * pg == i * pg + cnt * pg) by (nonlinear_arith);
    };
    // The deallocation sees an unaligned start inside frame i - 1.
    vstd::arithmetic::div_mod::lemma_fundamental_div_mod_converse(start, pg, i - 1, lp.off);
    assert(start % pg == lp.off && start / pg == i - 1);
    let back = deallocate_spec(step.m, start, size, alignment);
    let head = i - 1;
    let bnd = i * pg;
    assert((head + 1) * pg == bnd) by (nonlinear_arith)
        requires
            head == i - 1,
            bnd == i * pg,
    ;
    if end < bnd {
        // The allocation fits inside the tracked frame's tail: nothing
        // was marked, and the tracking rolls back to the start.
        assert(consumed == 0);
        assert(step.m.bits =~= m.bits);
        vstd::arithmetic::div_mod::lemma_fundamental_div_mod_converse(
            end,
            pg,
            i - 1,
            end - (i - 1) * pg,
        );
        assert(step.m.last == Some(LastModel { idx: head, off: end % pg }));
        assert(back.m.bits == step.m.bits);
        assert(back.m.last == Some(LastModel { idx: head, off: lp.off }));
        assert(back.m =~= m);
    } else {
        // The allocation runs past the boundary: the cleared frames are
        // exactly the marked ones, and the tracking rolls back.
        assert(end != bnd);
        assert(end > i * pg);
        let d = end - i * pg;
        let fullend = end / pg;
        let rem = end % pg;
        vstd::arithmetic::div_mod::lemma_hoist_over_denominator(d, i, pg as nat);
        vstd::arithmetic::div_mod::lemma_mod_multiples_vanish(i, d, pg);
        assert(pg * i + d == end) by (nonlinear_arith)
            requires d + i * pg == end,
        ;
        assert(fullend == i + d / pg && rem == d % pg);
        vstd::arithmetic::div_mod::lemma_fundamental_div_mod(d, pg);
        vstd::arithmetic::div_mod::lemma_mod_division_less_than_divisor(d, pg);
        lemma_align_up_properties(d, pg);
        assert(align_up_s(d, pg) == (d / pg + 1) * pg) by (nonlinear_arith)
            requires
                align_up_s(d, pg) == d + pg - (d % pg),
                d == pg * (d / pg) + d % pg,
                d % pg != 0,
        ;
        vstd::arithmetic::div_mod::lemma_div_multiples_vanish(d / pg + 1, pg);
        assert(pg * (d / pg + 1) == (d / pg + 1) * pg) by (nonlinear_arith);
        assert(consumed == d / pg + 1);
        assert(i + consumed == fullend + 1);
        assert(step.m.last == Some(LastModel { idx: fullend, off: rem }));
        // The head frame stays marked, so the rollback is accepted.
        assert(step.m.bits[head] == m.bits[head]);
        assert(back.m.bits == mark_run(step.m.bits, i, fullend - i + 1, false));
        assert(back.m.bits =~= m.bits) by {
            assert(consumed <= cnt) by {
                lemma_mul_mod_zero(cnt, pg, pg);
                lemma_align_up_le_multiple(d, cnt * pg, pg);
                vstd::arithmetic::div_mod::lemma_div_is_ordered(align_up_s(d, pg), cnt * pg, pg);
                vstd::arithmetic::div_mod::lemma_div_multiples_vanish(cnt, pg);
                assert(cnt * pg == pg * cnt) by (nonlinear_arith);
            };
        };
        assert(back.m.last == Some(LastModel { idx: head, off: lp.off }));
        assert(back.m =~= m);
    }
}

proof fn lemma_mul_le(a: int, b: int, c: int)
    requires
        a <= b,
        0 <= c,
    ensures
        a * c <= b * c,
{
    vstd::arithmetic::mul::lemma_mul_inequality(a, b, c);
}

proof fn lemma_div_lower(b: int, k: int, d: int)
    requires
        k * d <= b,
        0 < d,
    ensures
        k <= b / d,
{
    vstd::arithmetic::div_mod::lemma_div_is_ordered(k * d, b, d);
    vstd::arithmetic::div_mod::lemma_div_multiples_vanish(k, d);
    assert(k * d == d * k) by (nonlinear_arith);
}

proof fn lemma_div_upper(b: int, k: int, d: int)
    requires
        0 <= b < k * d,
        0 < d,
    ensures
        b / d < k,
{
    vstd::arithmetic::div_mod::lemma_fundamental_div_mod(b, d);
    vstd::arithmetic::div_mod::lemma_mod_division_less_than_divisor(b, d);
    if b / d >= k {
        assert((b / d) * d >= k * d) by (nonlinear_arith)
            requires b / d >= k, 0 < d,
        ;
        assert(d * (b / d) == (b / d) * d) by (nonlinear_arith);
    }
}

/// The bytes `[lo, hi)`.
pub open spec fn range_set(lo: int, hi: int) -> Set<int> {
    Set::new(|b: int| lo <= b < hi)
}

/// Bytes the allocator holds as unavailable: every byte of an allocated
/// frame, except the free tail of the tracked partial frame.
pub open spec fn committed_bytes(m: AllocModel) -> Set<int> {
    let pg = PAGE_SIZE as int;
    Set::new(
        |b: int|
            {
                &&& 0 <= b < m.bits.len() * pg
                &&& m.bits[b / pg]
                &&& match m.last {
                    Some(lp) => !(b / pg == lp.idx && b % pg >= lp.off),
                    None => true,
                }
            },
    )
}

/// Law: a successful allocation serves bytes that were all available
/// beforehand, commits them (and nothing outside the reclaimed span's
/// frames), and marks only frames that the served range touches.  The
/// pieces:
/// - the served range was disjoint from the committed bytes;
/// - committed bytes only grow, and the served range is committed
///   afterwards;
/// - every frame that changed state became allocated and overlaps the
///   served range, so the bitmap never reports more allocated frames
///   than the live allocations require.
pub proof fn lemma_allocate_range_fresh(m: AllocModel, size: int, alignment: int)
    requires
        model_wf(m),
        allocate_spec(m, size, alignment).result is Ok,
    ensures
        ({
            let step = allocate_spec(m, size, alignment);
            let start = step.result->Ok_0;
            let end = start + align_up_s(size, alignment);
            let pg = PAGE_SIZE as int;
            &&& range_set(start, end).disjoint(committed_bytes(m))
            &&& committed_bytes(m).subset_of(committed_bytes(step.m))
            &&& range_set(start, end).subset_of(committed_bytes(step.m))
            &&& forall|f: int|
                0 <= f < m.bits.len() && step.m.bits[f] != m.bits[f] ==> !m.bits[f]
                    && step.m.bits[f] && f * pg < end && start < (f + 1) * pg
        }),
{
    let pg = PAGE_SIZE as int;
    let step = allocate_spec(m, size, alignment);
    let actual = align_up_s(size, alignment);
    let rounded = align_up_s(actual, pg);
    let cnt = rounded / pg;
    let len = m.bits.len() as int;
    lemma_align_up_properties(size, alignment);
    lemma_align_up_properties(actual, pg);
    vstd::arithmetic::div_mod::lemma_fundamental_div_mod(rounded, pg);
    vstd::arithmetic::div_mod::lemma_mod_division_less_than_divisor(rounded, pg);
    assert(pg * (rounded / pg) == (rounded / pg) * pg) by (nonlinear_arith);
    assert(cnt >= 1) by {
        if cnt <= 0 {
            assert(cnt * pg <= 0) by (nonlinear_arith)
                requires cnt <= 0, 0 < pg,
            ;
        }
    };
    let i = first_fit(m.bits, cnt)->Some_0;
    lemma_first_fit_from(m.bits, cnt, 0);
    assert(0 <= i && i + cnt <= len && run_clear(m.bits, i, cnt));
    lemma_squeeze_shift_bounds(m, i, alignment);
    let sh = squeeze_shift_s(m.last, i, alignment);
    let start = i * pg - sh;
    let end = start + actual;
    assert(step.result->Ok_0 == start);
    assert(1 <= i ==> i * pg >= pg) by (nonlinear_arith)
        requires 0 < pg,
    ;
    assert(0 <= start);
    assert((i + cnt) * pg == i * pg + cnt * pg) by (nonlinear_arith);
    lemma_mul_le(i + cnt, len, pg);
    assert(end <= i * pg + cnt * pg <= len * pg);
    let consumed = if end <= i * pg {
        0
    } else {
        align_up_s(end - i * pg, pg) / pg
    };
    assert(step.m.bits == mark_run(m.bits, i, consumed, true));
    if end > i * pg {
        let d = end - i * pg;
        lemma_align_up_properties(d, pg);
        lemma_mul_mod_zero(cnt, pg, pg);
        lemma_align_up_le_multiple(d, cnt * pg, pg);
        vstd::arithmetic::div_mod::lemma_div_is_ordered(align_up_s(d, pg), cnt * pg, pg);
        vstd::arithmetic::div_mod::lemma_div_multiples_vanish(cnt, pg);
        assert(cnt * pg == pg * cnt) by (nonlinear_arith);
        vstd::arithmetic::div_mod::lemma_div_pos_is_pos(align_up_s(d, pg), pg);
        // consumed * pg == align_up_s(d, pg), so it covers d and wastes
        // less than a frame
        vstd::arithmetic::div_mod::lemma_fundamental_div_mod(align_up_s(d, pg), pg);
        lemma_mul_mod_zero(consumed, pg, pg);
        assert(consumed * pg == align_up_s(d, pg)) by {
            lemma_align_up_properties(d, pg);
            vstd::arithmetic::div_mod::lemma_fundamental_div_mod(d, pg);
            vstd::arithmetic::div_mod::lemma_mod_division_less_than_divisor(d, pg);
            if d % pg == 0 {
                assert(align_up_s(d, pg) == d);
                assert(pg * (d / pg) == (d / pg) * pg) by (nonlinear_arith);
                vstd::arithmetic::div_mod::lemma_div_multiples_vanish(d / pg, pg);
            } else {
                assert(align_up_s(d, pg) == d + pg - d % pg);
                assert(align_up_s(d, pg) == (d / pg + 1) * pg) by (nonlinear_arith)
                    requires
                        align_up_s(d, pg) == d + pg - d % pg,
                        d == pg * (d / pg) + d % pg,
                ;
                vstd::arithmetic::div_mod::lemma_div_multiples_vanish(d / pg + 1, pg);
                assert(pg * (d / pg + 1) == (d / pg + 1) * pg) by (nonlinear_arith);
            }
        };
        assert(d <= consumed * pg < d + pg);
        assert((consumed - 1) * pg == consumed * pg - pg) by (nonlinear_arith);
        assert((i + consumed) * pg == i * pg + consumed * pg) by (nonlinear_arith);
        assert((i + consumed - 1) * pg == i * pg + consumed * pg - pg) by (nonlinear_arith);
        assert(consumed >= 1);
    }
    if sh > 0 {
        let lp = m.last->Some_0;
        assert(lp.idx == i - 1 && 1 <= i);
        let v = (i - 1) * pg + lp.off;
        lemma_mul_mod_zero(i, pg, alignment);
        assert((i - 1) * pg + pg == i * pg) by (nonlinear_arith);
        lemma_align_up_properties(v, alignment);
        assert(start == align_up_s(v, alignment));
        assert(v <= start);
        assert((i - 1) * pg < v);
    }
    // (a) the served range was entirely available
    assert forall|b: int| range_set(start, end).contains(b) implies !committed_bytes(m).contains(
        b,
    ) by {
        vstd::arithmetic::div_mod::lemma_fundamental_div_mod(b, pg);
        vstd::arithmetic::div_mod::lemma_mod_division_less_than_divisor(b, pg);
        if b >= i * pg {
            lemma_div_lower(b, i, pg);
            lemma_div_upper(b, i + cnt, pg);
            assert(i <= b / pg < i + cnt);
            assert(!m.bits[b / pg]);
        } else {
            // below the run only a squeeze reaches, into the tracked
            // frame's free tail
            assert(sh > 0);
            let lp = m.last->Some_0;
            vstd::arithmetic::div_mod::lemma_fundamental_div_mod_converse(
                b,
                pg,
                i - 1,
                b - (i - 1) * pg,
            );
            assert(b / pg == lp.idx);
            assert(b % pg >= lp.off);
        }
    };
    // (b) committed bytes only grow
    assert forall|b: int| committed_bytes(m).contains(b) implies committed_bytes(
        step.m,
    ).contains(b) by {
        vstd::arithmetic::div_mod::lemma_fundamental_div_mod(b, pg);
        vstd::arithmetic::div_mod::lemma_mod_division_less_than_divisor(b, pg);
        let f = b / pg;
        assert(step.m.bits[f]);
        match step.m.last {
            Some(lp1) => {
                if f == lp1.idx && b % pg >= lp1.off {
                    // the new tracked frame: impossible for a committed byte
                    if end > i * pg {
                        let d = end - i * pg;
                        lemma_div_lower(end - 1, i, pg);
                        lemma_div_upper(end - 1, i + consumed, pg);
                        vstd::arithmetic::div_mod::lemma_fundamental_div_mod(end, pg);
                        vstd::arithmetic::div_mod::lemma_mod_division_less_than_divisor(end, pg);
                        assert(lp1.idx == end / pg);
                        assert(i <= end / pg) by {
                            lemma_div_lower(end, i, pg);
                        };
                        assert(end / pg < i + consumed) by {
                            lemma_div_upper(b, i + consumed, pg);
                            assert(end == pg * (end / pg) + end % pg);
                            if end / pg >= i + consumed {
                                assert(pg * (end / pg) >= pg * (i + consumed))
                                    by (nonlinear_arith)
                                    requires end / pg >= i + consumed, 0 < pg,
                                ;
                                assert(pg * (i + consumed) == (i + consumed) * pg)
                                    by (nonlinear_arith);
                            }
                        };
                        assert(!m.bits[f]);
                    } else {
                        // the run was not reached; the tracked frame is
                        // the old one, with a larger used prefix
                        assert(sh > 0);
                        let lp = m.last->Some_0;
                        let v = (i - 1) * pg + lp.off;
                        vstd::arithmetic::div_mod::lemma_fundamental_div_mod(end, pg);
                        vstd::arithmetic::div_mod::lemma_mod_division_less_than_divisor(end, pg);
                        lemma_mul_mod_zero(i, pg, pg);
                        assert(end < i * pg);
                        assert((i - 1) * pg == i * pg - pg) by (nonlinear_arith);
                        assert(end > (i - 1) * pg) by {
                            assert((i - 1) * pg < v <= start <= end);
                        };
                        vstd::arithmetic::div_mod::lemma_fundamental_div_mod_converse(
                            end,
                            pg,
                            i - 1,
                            end - (i - 1) * pg,
                        );
                        assert(lp1.idx == i - 1 == lp.idx);
                        assert(lp1.off == end % pg == end - (i - 1) * pg);
                        assert(lp.off <= lp1.off) by {
                            assert(v <= end);
                        };
                        assert(b % pg >= lp.off);
                    }
                }
            },
            None => {},
        }
    };
    // (c) the served range is committed afterwards
    assert forall|b: int| range_set(start, end).contains(b) implies committed_bytes(
        step.m,
    ).contains(b) by {
        vstd::arithmetic::div_mod::lemma_fundamental_div_mod(b, pg);
        vstd::arithmetic::div_mod::lemma_mod_division_less_than_divisor(b, pg);
        let f = b / pg;
        assert(0 <= b < len * pg);
        if b >= i * pg {
            lemma_div_lower(b, i, pg);
            lemma_div_upper(b, i + consumed, pg);
            assert(i <= f < i + consumed);
            assert(step.m.bits[f]);
        } else {
            assert(sh > 0);
            vstd::arithmetic::div_mod::lemma_fundamental_div_mod_converse(
                b,
                pg,
                i - 1,
                b - (i - 1) * pg,
            );
            assert(f == i - 1);
            assert(m.bits[f]);
            assert(step.m.bits[f]);
        }
        match step.m.last {
            Some(lp1) => {
                if f == lp1.idx {
                    assert(end % pg != 0);
                    vstd::arithmetic::div_mod::lemma_fundamental_div_mod(end, pg);
                    vstd::arithmetic::div_mod::lemma_mod_division_less_than_divisor(end, pg);
                    assert(lp1.idx == end / pg && lp1.off == end % pg);
                    assert(b < end);
                    assert(b % pg < lp1.off) by {
                        assert(b == pg * f + b % pg && end == pg * f + end % pg);
                    };
                }
            },
            None => {},
        }
    };
    // (d) only frames under the served range change state
    assert forall|f: int|
        0 <= f < m.bits.len() && step.m.bits[f] != m.bits[f] implies !m.bits[f] && step.m.bits[f]
        && f * pg < end && start < (f + 1) * pg by {
        assert(i <= f < i + consumed);
        assert(consumed >= 1);
        assert(end > i * pg);
        lemma_mul_le(f, i + consumed - 1, pg);
        assert(f * pg <= (i + consumed - 1) * pg < end);
        assert(start <= i * pg);
        lemma_mul_le(i, f, pg);
        assert((f + 1) * pg == f * pg + pg) by (nonlinear_arith);
        assert(start <= i * pg <= f * pg < (f + 1) * pg);
    };
}

/// Law: two successive successful allocations return disjoint byte
/// ranges — no two live allocations overlap.
pub proof fn lemma_live_allocations_disjoint(m0: AllocModel, s1: int, a1: int, s2: int, a2: int)
    requires
        model_wf(m0),
        allocate_spec(m0, s1, a1).result is Ok,
        allocate_spec(allocate_spec(m0, s1, a1).m, s2, a2).result is Ok,
    ensures
        ({
            let step1 = allocate_spec(m0, s1, a1);
            let step2 = allocate_spec(step1.m, s2, a2);
            range_set(step1.result->Ok_0, step1.result->Ok_0 + align_up_s(s1, a1)).disjoint(
                range_set(step2.result->Ok_0, step2.result->Ok_0 + align_up_s(s2, a2)),
            )
        }),
{
    let step1 = allocate_spec(m0, s1, a1);
    let step2 = allocate_spec(step1.m, s2, a2);
    lemma_allocate_model_wf(m0, s1, a1);
    lemma_allocate_range_fresh(m0, s1, a1);
    lemma_allocate_range_fresh(step1.m, s2, a2);
    let r1 = range_set(step1.result->Ok_0, step1.result->Ok_0 + align_up_s(s1, a1));
    let r2 = range_set(step2.result->Ok_0, step2.result->Ok_0 + align_up_s(s2, a2));
    assert forall|b: int| r1.contains(b) implies !r2.contains(b) by {
        assert(committed_bytes(step1.m).contains(b));
    };
}

/// Law: a successful deallocation only releases bytes, and releases
/// none outside the freed range: the committed bytes shrink, and every
/// committed byte outside `[off, off + aligned size)` stays committed.
pub proof fn lemma_deallocate_only_frees(m: AllocModel, off: int, size: int, alignment: int)
    requires
        model_wf(m),
        deallocate_spec(m, off, size, alignment).result is Ok,
    ensures
        ({
            let step = deallocate_spec(m, off, size, alignment);
            let end = off + align_up_s(size, alignment);
            &&& committed_bytes(step.m).subset_of(committed_bytes(m))
            &&& committed_bytes(m).difference(range_set(off, end)).subset_of(
                committed_bytes(step.m),
            )
        }),
{
    let pg = PAGE_SIZE as int;
    let step = deallocate_spec(m, off, size, alignment);
    let actual = align_up_s(size, alignment);
    let end = off + actual;
    let len = m.bits.len() as int;
    lemma_align_up_properties(size, alignment);
    assert(0 <= off && end <= len * pg && size >= 1);
    vstd::arithmetic::div_mod::lemma_fundamental_div_mod(off, pg);
    vstd::arithmetic::div_mod::lemma_mod_division_less_than_divisor(off, pg);
    vstd::arithmetic::div_mod::lemma_fundamental_div_mod(end, pg);
    vstd::arithmetic::div_mod::lemma_mod_division_less_than_divisor(end, pg);
    vstd::arithmetic::div_mod::lemma_fundamental_div_mod(actual, pg);
    vstd::arithmetic::div_mod::lemma_mod_division_less_than_divisor(actual, pg);
    assert forall|b: int| committed_bytes(step.m).contains(b) implies committed_bytes(m).contains(
        b,
    ) by {
        vstd::arithmetic::div_mod::lemma_fundamental_div_mod(b, pg);
        vstd::arithmetic::div_mod::lemma_mod_division_less_than_divisor(b, pg);
        lemma_dealloc_byte_cases(m, off, size, alignment, b);
    };
    assert forall|b: int|
        committed_bytes(m).difference(range_set(off, end)).contains(b) implies committed_bytes(
        step.m,
    ).contains(b) by {
        vstd::arithmetic::div_mod::lemma_fundamental_div_mod(b, pg);
        vstd::arithmetic::div_mod::lemma_mod_division_less_than_divisor(b, pg);
        lemma_dealloc_byte_cases(m, off, size, alignment, b);
    };
}

/// Byte-level facts shared by both directions of
/// `lemma_deallocate_only_frees`.
proof fn lemma_dealloc_byte_cases(m: AllocModel, off: int, size: int, alignment: int, b: int)
    requires
        model_wf(m),
        deallocate_spec(m, off, size, alignment).result is Ok,
        b == (PAGE_SIZE as int) * (b / (PAGE_SIZE as int)) + b % (PAGE_SIZE as int),
        0 <= b % (PAGE_SIZE as int) < (PAGE_SIZE as int),
    ensures
        committed_bytes(deallocate_spec(m, off, size, alignment).m).contains(b)
            ==> committed_bytes(m).contains(b),
        committed_bytes(m).contains(b) && !range_set(
            off,
            off + align_up_s(size, alignment),
        ).contains(b) ==> committed_bytes(deallocate_spec(m, off, size, alignment).m).contains(b),
{
    let pg = PAGE_SIZE as int;
    let step = deallocate_spec(m, off, size, alignment);
    let actual = align_up_s(size, alignment);
    let end = off + actual;
    let len = m.bits.len() as int;
    let f = b / pg;
    lemma_align_up_properties(size, alignment);
    vstd::arithmetic::div_mod::lemma_fundamental_div_mod(off, pg);
    vstd::arithmetic::div_mod::lemma_mod_division_less_than_divisor(off, pg);
    vstd::arithmetic::div_mod::lemma_fundamental_div_mod(end, pg);
    vstd::arithmetic::div_mod::lemma_mod_division_less_than_divisor(end, pg);
    vstd::arithmetic::div_mod::lemma_fundamental_div_mod(actual, pg);
    vstd::arithmetic::div_mod::lemma_mod_division_less_than_divisor(actual, pg);
    let s0 = off % pg;
    // the frame byte range of f
    assert(f * pg <= b < (f + 1) * pg) by (nonlinear_arith)
        requires
            b == pg * f + b % pg,
            0 <= b % pg < pg,
    ;
    if s0 == 0 {
        let i = off / pg;
        let full = actual / pg;
        let rem = actual % pg;
        assert(off == i * pg) by (nonlinear_arith)
            requires off == pg * i,
        ;
        assert(end == i * pg + full * pg + rem) by (nonlinear_arith)
            requires
                off == pg * i,
                actual == pg * full + rem,
                end == off + actual,
        ;
        assert((i + full) * pg == i * pg + full * pg) by (nonlinear_arith);
        if i <= f < i + full {
            // fully covered frame: its bytes lie inside the freed range
            lemma_mul_le(i, f, pg);
            lemma_mul_le(f + 1, i + full, pg);
            assert(off <= f * pg && (f + 1) * pg <= i * pg + full * pg <= end);
        }
        if f == i + full && rem > 0 {
            assert(f * pg == off + full * pg <= end);
        }
    } else {
        let head = off / pg;
        let bnd = (head + 1) * pg;
        assert(head * pg < off < bnd) by (nonlinear_arith)
            requires
                off == pg * head + s0,
                0 < s0 < pg,
                bnd == (head + 1) * pg,
        ;
        if end > bnd {
            let i = head + 1;
            let fullend = end / pg;
            let rem = end % pg;
            assert(i * pg == bnd) by (nonlinear_arith)
                requires
                    i == head + 1,
                    bnd == (head + 1) * pg,
            ;
            assert(fullend * pg == end - rem) by (nonlinear_arith)
                requires end == pg * fullend + rem,
            ;
            if i <= f < fullend {
                lemma_mul_le(i, f, pg);
                lemma_mul_le(f + 1, fullend, pg);
                assert(off < i * pg <= f * pg && (f + 1) * pg <= fullend * pg <= end);
            }
            if f == fullend && rem > 0 {
                assert(f * pg == end - rem >= off);
            }
            if f == head {
                assert((f + 1) * pg == bnd <= end);
            }
        } else {
            // the freed range lies inside the head frame
            assert(end / pg == head || end == bnd) by {
                if end < bnd {
                    vstd::arithmetic::div_mod::lemma_fundamental_div_mod_converse(
                        end,
                        pg,
                        head,
                        end - head * pg,
                    );
                }
            };
            if f == head {
                assert(head * pg <= off);
            }
        }
    }
}

/// A successful allocation preserves well-formedness of the model.
pub proof fn lemma_allocate_model_wf(m: AllocModel, size: int, alignment: int)
    requires
        model_wf(m),
        allocate_spec(m, size, alignment).result is Ok,
    ensures
        model_wf(allocate_spec(m, size, alignment).m),
{
    let pg = PAGE_SIZE as int;
    let actual = align_up_s(size, alignment);
    let rounded = align_up_s(actual, pg);
    let cnt = rounded / pg;
    let len = m.bits.len() as int;
    let i = first_fit(m.bits, cnt)->Some_0;
    lemma_first_fit_from(m.bits, cnt, 0);
    lemma_align_up_properties(size, alignment);
    lemma_align_up_properties(actual, pg);
    vstd::arithmetic::div_mod::lemma_fundamental_div_mod(rounded, pg);
    vstd::arithmetic::div_mod::lemma_mod_division_less_than_divisor(rounded, pg);
    assert(pg * (rounded / pg) == (rounded / pg) * pg) by (nonlinear_arith);
    lemma_mul_le(cnt, len, pg);
    assert(actual <= rounded == cnt * pg <= len * pg);
    lemma_allocate_wf(m, size, alignment, i, len);
}

/// `x <= len * d` gives `x / d <= len`.
proof fn lemma_div_le_linear(x: int, len: int, d: int)
    requires
        0 <= x <= len * d,
        0 < d,
    ensures
        x / d <= len,
{
    vstd::arithmetic::div_mod::lemma_div_is_ordered(x, len * d, d);
    vstd::arithmetic::div_mod::lemma_div_multiples_vanish(len, d);
    assert(len * d == d * len) by (nonlinear_arith);
}

/// First-fit search of the bitmap for `page_cnt` contiguous clear bits.
fn find_page_idx(bv: &FrameBits, page_cnt: usize) -> (r: Option<
    usize,
>)
    requires
        1 <= page_cnt,
    ensures
        match r {
            Some(i) => first_fit(frame_bits(*bv), page_cnt as int) == Some(i as int),
            None => first_fit(frame_bits(*bv), page_cnt as int) is None,
        },
{
    let ghost bits = frame_bits(*bv);
    let len = bits_len(bv);
    if page_cnt > len {
        return None;
    }
    let mut i: usize = 0;
    while i <= len - page_cnt
        invariant
            bits == frame_bits(*bv),
            first_fit(bits, page_cnt as int) == first_fit_from(bits, page_cnt as int, i as int),
            1 <= page_cnt <= len == bits.len(),
            i <= len - page_cnt + 1,
        decreases len - page_cnt - i + 1,
    {
        let mut k: usize = 0;
        let mut clear = true;
        while k < page_cnt && clear
            invariant
                bits == frame_bits(*bv),
                i + page_cnt <= len == bits.len(),
                1 <= page_cnt,
                k <= page_cnt,
                clear <==> (forall|m: int| i <= m < i + k ==> !bits[m]),
            decreases page_cnt - k,
        {
            if bits_get(bv, i + k) {
                clear = false;
            }
            k += 1;
        }
        if clear {
            assert(run_clear(bits, i as int, page_cnt as int));
            return Some(i);
        }
        assert(!run_clear(bits, i as int, page_cnt as int)) by {
            let m = choose|m: int| i <= m < i + page_cnt && bits[m];
        };
        i += 1;
    }
    assert(first_fit_from(bits, page_cnt as int, i as int) is None);
    None
}

} // verus!
