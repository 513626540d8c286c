//! A bitmap over a compile-time constant number of 64-bit words:
//! `ConstBitmap<N>` holds `64 * N` slots.

use vstd::prelude::*;

verus! {

/// Bit `i` of a word-backed bitmap, low bits of low words first.
pub open spec fn bit_of(words: Seq<u64>, i: int) -> bool {
    (words[i / 64] >> ((i % 64) as u64)) & 1 == 1
}

/// Setting one bit of a word leaves every other bit of it unchanged.
pub proof fn lemma_word_set_bit(x: u64, o1: u64, o2: u64)
    by (bit_vector)
    requires
        o1 < 64,
        o2 < 64,
    ensures
        ((x | (1u64 << o2)) >> o1) & 1 == if o1 == o2 {
            1u64
        } else {
            (x >> o1) & 1
        },
{
}

/// Clearing one bit of a word leaves every other bit of it unchanged.
pub proof fn lemma_word_clear_bit(x: u64, o1: u64, o2: u64)
    by (bit_vector)
    requires
        o1 < 64,
        o2 < 64,
    ensures
        ((x & !(1u64 << o2)) >> o1) & 1 == if o1 == o2 {
            0u64
        } else {
            (x >> o1) & 1
        },
{
}

/// A single bit is zero or one.
pub proof fn lemma_word_bit_cases(x: u64, o: u64)
    by (bit_vector)
    requires
        o < 64,
    ensures
        (x >> o) & 1 == 0 || (x >> o) & 1 == 1,
{
}

/// Every bit of an all-ones word is set.
pub proof fn lemma_word_all_ones(x: u64, o: u64)
    by (bit_vector)
    requires
        x == 0xFFFF_FFFF_FFFF_FFFFu64,
        o < 64,
    ensures
        (x >> o) & 1 == 1,
{
}

/// Which word a bit index falls in.
pub fn long_word_idx(bit_idx: usize) -> (r: usize)
    ensures
        r == bit_idx as int / 64,
{
    bit_idx / 64
}

/// The bit's offset within its word.
pub fn long_word_offset(bit_idx: usize) -> (r: usize)
    ensures
        r == bit_idx as int % 64,
{
    bit_idx % 64
}

/// Bitmap over `64 * N` slots, `N` fixed at construction.
pub struct ConstBitmap<const N: usize> {
    long_words: Vec<u64>,
}

impl<const N: usize> ConstBitmap<N> {
    pub closed spec fn words(&self) -> Seq<u64> {
        self.long_words@
    }

    /// Slot `i` of the bitmap.
    pub open spec fn bit(&self, i: int) -> bool {
        bit_of(self.words(), i)
    }

    pub open spec fn wf(&self) -> bool {
        self.words().len() == N
    }

    /// A bitmap with every slot clear.
    pub fn new() -> (r: Self)
        ensures
            r.wf(),
            forall|i: int| 0 <= i < 64 * N ==> !r.bit(i),
    {
        let mut words: Vec<u64> = Vec::new();
        let mut i: usize = 0;
        while i < N
            invariant
                i <= N,
                words@.len() == i,
                forall|k: int| 0 <= k < i ==> words@[k] == 0u64,
            decreases N - i,
        {
            words.push(0);
            i += 1;
        }
        let r = ConstBitmap { long_words: words };
        proof {
            assert forall|j: int| 0 <= j < 64 * N implies !r.bit(j) by {
                vstd::arithmetic::div_mod::lemma_mod_division_less_than_divisor(j, 64);
                vstd::arithmetic::div_mod::lemma_fundamental_div_mod(j, 64);
                lemma_bit_index_bounds(j, N as int);
                let o = (j % 64) as u64;
                assert((0u64 >> o) & 1 == 0) by (bit_vector);
            };
        }
        r
    }

    /// Whether slot `bit_idx` is set.
    pub fn test(&self, bit_idx: usize) -> (r: bool)
        requires
            self.wf(),
            bit_idx < 64 * N,
        ensures
            r == self.bit(bit_idx as int),
    {
        proof {
            lemma_bit_index_bounds(bit_idx as int, N as int);
            lemma_word_bit_cases(
                self.words()[bit_idx as int / 64],
                (bit_idx as int % 64) as u64,
            );
        }
        let word = self.long_words[long_word_idx(bit_idx)];
        (word >> (long_word_offset(bit_idx) as u64)) & 1 != 0
    }

    /// Sets slot `bit_idx`, leaving every other slot unchanged.
    pub fn set(&mut self, bit_idx: usize)
        requires
            old(self).wf(),
            bit_idx < 64 * N,
        ensures
            final(self).wf(),
            final(self).bit(bit_idx as int),
            forall|j: int|
                0 <= j < 64 * N && j != bit_idx ==> final(self).bit(j) == old(self).bit(j),
    {
        proof {
            lemma_bit_index_bounds(bit_idx as int, N as int);
        }
        let w = long_word_idx(bit_idx);
        let o = long_word_offset(bit_idx) as u64;
        let ghost old_words = self.long_words@;
        self.long_words[w] = self.long_words[w] | (1u64 << o);
        proof {
            lemma_bit_update_effect(old_words, self.long_words@, bit_idx as int, N as int, true);
        }
    }

    /// Clears slot `bit_idx`, leaving every other slot unchanged.
    pub fn clear(&mut self, bit_idx: usize)
        requires
            old(self).wf(),
            bit_idx < 64 * N,
        ensures
            final(self).wf(),
            !final(self).bit(bit_idx as int),
            forall|j: int|
                0 <= j < 64 * N && j != bit_idx ==> final(self).bit(j) == old(self).bit(j),
    {
        proof {
            lemma_bit_index_bounds(bit_idx as int, N as int);
        }
        let w = long_word_idx(bit_idx);
        let o = long_word_offset(bit_idx) as u64;
        let ghost old_words = self.long_words@;
        self.long_words[w] = self.long_words[w] & !(1u64 << o);
        proof {
            lemma_bit_update_effect(old_words, self.long_words@, bit_idx as int, N as int, false);
        }
    }

    /// The lowest clear slot, or `None` when every slot is set.
    pub fn first_clear_idx(&self) -> (r: Option<usize>)
        requires
            self.wf(),
            64 * N <= usize::MAX,
        ensures
            match r {
                Some(i) => i < 64 * N && !self.bit(i as int) && forall|j: int|
                    0 <= j < i ==> self.bit(j),
                None => forall|j: int| 0 <= j < 64 * N ==> self.bit(j),
            },
    {
        let mut i: usize = 0;
        while i < N
            invariant
                self.wf(),
                i <= N,
                64 * N <= usize::MAX,
                forall|j: int| 0 <= j < 64 * i ==> self.bit(j),
            decreases N - i,
        {
            let word = self.long_words[i];
            if word == 0xFFFF_FFFF_FFFF_FFFF {
                proof {
                    assert forall|j: int| 0 <= j < 64 * (i + 1) implies self.bit(j) by {
                        if j >= 64 * i {
                            lemma_bit_locate(j, i as int);
                            lemma_word_all_ones(word, (j % 64) as u64);
                        }
                    };
                }
                i += 1;
                continue ;
            }
            let mut off: usize = 0;
            while off < 64
                invariant
                    self.wf(),
                    i < N,
                    off <= 64,
                    64 * N <= usize::MAX,
                    word == self.words()[i as int],
                    forall|j: int| 0 <= j < 64 * i ==> self.bit(j),
                    forall|o: int| 0 <= o < off ==> (#[trigger] (word >> (o as u64))) & 1 == 1,
                decreases 64 - off,
            {
                proof {
                    lemma_word_bit_cases(word, off as u64);
                }
                if (word >> (off as u64)) & 1 == 0 {
                    proof {
                        assert((i as int) * 64 + off < 64 * (N as int)) by (nonlinear_arith)
                            requires
                                0 <= (i as int) < (N as int),
                                0 <= off < 64,
                        ;
                    }
                    let r = i * 64 + off;
                    proof {
                        lemma_bit_locate(r as int, i as int);
                        assert(!self.bit(r as int));
                        assert forall|j: int| 0 <= j < r implies self.bit(j) by {
                            if j >= 64 * i {
                                lemma_bit_locate(j, i as int);
                            }
                        };
                        assert(r < 64 * N) by (nonlinear_arith)
                            requires
                                r as int == (i as int) * 64 + off,
                                (i as int) < (N as int),
                                off < 64,
                        ;
                    }
                    return Some(r);
                }
                off += 1;
            }
            proof {
                assert forall|j: int| 0 <= j < 64 * (i + 1) implies self.bit(j) by {
                    if j >= 64 * i {
                        lemma_bit_locate(j, i as int);
                    }
                };
            }
            i += 1;
        }
        None
    }
}

/// A bit index below `64 * n` lives in word `i / 64 < n` at offset
/// `i % 64`.
pub proof fn lemma_bit_index_bounds(i: int, n: int)
    requires
        0 <= i < 64 * n,
    ensures
        0 <= i / 64 < n,
        0 <= i % 64 < 64,
{
    vstd::arithmetic::div_mod::lemma_mod_division_less_than_divisor(i, 64);
    vstd::arithmetic::div_mod::lemma_fundamental_div_mod(i, 64);
    vstd::arithmetic::div_mod::lemma_div_pos_is_pos(i, 64);
    if i / 64 >= n {
        assert(64 * (i / 64) >= 64 * n) by (nonlinear_arith)
            requires i / 64 >= n,
        ;
    }
}

/// Bits `64 * w ..= 64 * w + 63` live in word `w` at their offset.
pub proof fn lemma_bit_locate(j: int, w: int)
    requires
        0 <= w,
        64 * w <= j < 64 * (w + 1),
    ensures
        j / 64 == w,
        j % 64 == j - 64 * w,
{
    vstd::arithmetic::div_mod::lemma_fundamental_div_mod_converse(j, 64, w, j - 64 * w);
}

/// Effect of a one-word OR/AND-NOT update on the whole bitmap.
pub proof fn lemma_bit_update_effect(
    old_words: Seq<u64>,
    new_words: Seq<u64>,
    bit_idx: int,
    n: int,
    value: bool,
)
    requires
        old_words.len() == n,
        0 <= bit_idx < 64 * n,
        new_words == old_words.update(
            bit_idx / 64,
            if value {
                old_words[bit_idx / 64] | (1u64 << ((bit_idx % 64) as u64))
            } else {
                old_words[bit_idx / 64] & !(1u64 << ((bit_idx % 64) as u64))
            },
        ),
    ensures
        bit_of(new_words, bit_idx) == value,
        forall|j: int|
            0 <= j < 64 * n && j != bit_idx ==> bit_of(new_words, j) == bit_of(old_words, j),
{
    lemma_bit_index_bounds(bit_idx, n);
    let w = bit_idx / 64;
    let o2 = (bit_idx % 64) as u64;
    if value {
        lemma_word_set_bit(old_words[w], o2, o2);
    } else {
        lemma_word_clear_bit(old_words[w], o2, o2);
    }
    assert forall|j: int|
        0 <= j < 64 * n && j != bit_idx implies bit_of(new_words, j) == bit_of(old_words, j) by {
        lemma_bit_index_bounds(j, n);
        if j / 64 == w {
            let o1 = (j % 64) as u64;
            vstd::arithmetic::div_mod::lemma_fundamental_div_mod(j, 64);
            vstd::arithmetic::div_mod::lemma_fundamental_div_mod(bit_idx, 64);
            assert(o1 != o2);
            if value {
                lemma_word_set_bit(old_words[w], o1, o2);
            } else {
                lemma_word_clear_bit(old_words[w], o1, o2);
            }
        }
    };
}

} // verus!
