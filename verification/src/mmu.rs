//! Page-size constants and alignment arithmetic shared by the frame
//! allocator and the page-table builder.

pub mod activate;
pub mod layout;
pub mod paging;
pub mod tables;

use vstd::prelude::*;

verus! {

pub const PAGE_SIZE_ORDER: usize = 12;

/// One hardware page: `1 << PAGE_SIZE_ORDER` bytes.
pub const PAGE_SIZE: usize = 4096;

/// 512 MiB of physical memory.
pub const TOTAL_MEMORY: usize = 0x2000_0000;

/// Largest multiple of `a` that is at most `v`.
pub open spec fn align_down_s(v: int, a: int) -> int {
    (v / a) * a
}

/// Smallest multiple of `a` that is at least `v`.
pub open spec fn align_up_s(v: int, a: int) -> int {
    ((v + a - 1) / a) * a
}

/// An alignment the frame allocator accepts: a power of two no larger
/// than one page. The powers of two up to `PAGE_SIZE` are exactly the
/// positive divisors of `PAGE_SIZE`, itself a power of two.
pub open spec fn valid_alignment(a: int) -> bool {
    1 <= a && PAGE_SIZE as int % a == 0
}

pub proof fn lemma_align_down_properties(v: int, a: int)
    requires
        0 <= v,
        1 <= a,
    ensures
        align_down_s(v, a) % a == 0,
        align_down_s(v, a) <= v < align_down_s(v, a) + a,
        align_down_s(v, a) == v - (v % a),
{
    vstd::arithmetic::div_mod::lemma_fundamental_div_mod(v, a);
    vstd::arithmetic::div_mod::lemma_mod_division_less_than_divisor(v, a);
    assert((v / a) * a == a * (v / a)) by (nonlinear_arith);
    vstd::arithmetic::div_mod::lemma_mod_multiples_basic(v / a, a);
}

pub proof fn lemma_align_up_properties(v: int, a: int)
    requires
        0 <= v,
        1 <= a,
    ensures
        align_up_s(v, a) % a == 0,
        v <= align_up_s(v, a) < v + a,
        v % a == 0 ==> align_up_s(v, a) == v,
        align_up_s(v, a) == if v % a == 0 { v } else { v + a - (v % a) },
{
    let w = v + a - 1;
    lemma_align_down_properties(w, a);
    vstd::arithmetic::div_mod::lemma_mod_division_less_than_divisor(v, a);
    let r = v % a;
    vstd::arithmetic::div_mod::lemma_add_mod_noop(v, a - 1, a);
    vstd::arithmetic::div_mod::lemma_small_mod((a - 1) as nat, a as nat);
    if r == 0 {
        assert(w % a == a - 1);
    } else {
        vstd::arithmetic::div_mod::lemma_mod_sub_multiples_vanish(r + a - 1, a);
        vstd::arithmetic::div_mod::lemma_small_mod((r - 1) as nat, a as nat);
        assert(w % a == r - 1);
    }
}

/// A valid alignment is between one byte and one page: the divisors
/// of `PAGE_SIZE` cannot exceed it.
pub proof fn lemma_valid_alignment_bounds(a: int)
    requires
        valid_alignment(a),
    ensures
        1 <= a <= PAGE_SIZE,
{
    if a > PAGE_SIZE {
        vstd::arithmetic::div_mod::lemma_small_mod(PAGE_SIZE as nat, a as nat);
    }
}

/// Aligning up commutes with adding a multiple of the alignment.
pub proof fn lemma_align_up_add_multiple(b: int, x: int, a: int)
    requires
        0 <= b,
        0 <= x,
        1 <= a,
        b % a == 0,
    ensures
        align_up_s(b + x, a) == b + align_up_s(x, a),
{
    lemma_align_up_properties(x, a);
    lemma_align_up_properties(b + x, a);
    vstd::arithmetic::div_mod::lemma_add_mod_noop(b, x, a);
    vstd::arithmetic::div_mod::lemma_mod_division_less_than_divisor(x, a);
    vstd::arithmetic::div_mod::lemma_small_mod((x % a) as nat, a as nat);
}

/// `align_up_s(v, a)` never passes a multiple of `a` that lies at or
/// above `v`.
pub proof fn lemma_align_up_le_multiple(v: int, m: int, a: int)
    requires
        0 <= v <= m,
        1 <= a,
        m % a == 0,
    ensures
        align_up_s(v, a) <= m,
{
    lemma_align_up_properties(v, a);
    let r = v % a;
    if r != 0 {
        let d = m - (v - r);
        vstd::arithmetic::div_mod::lemma_fundamental_div_mod(v, a);
        vstd::arithmetic::div_mod::lemma_mod_division_less_than_divisor(v, a);
        assert((v - r) % a == 0) by {
            assert(v - r == a * (v / a));
            assert(a * (v / a) == (v / a) * a) by (nonlinear_arith);
            vstd::arithmetic::div_mod::lemma_mod_multiples_basic(v / a, a);
        };
        assert(d % a == 0) by {
            vstd::arithmetic::div_mod::lemma_sub_mod_noop(m, v - r, a);
            vstd::arithmetic::div_mod::lemma_small_mod(0nat, a as nat);
        };
        if d < a {
            vstd::arithmetic::div_mod::lemma_small_mod(d as nat, a as nat);
        }
    }
}

/// A divisor of a divisor of `x` divides `x`.
pub proof fn lemma_mod_divides_trans(x: int, a: int, p: int)
    requires
        0 <= x,
        1 <= a,
        1 <= p,
        x % p == 0,
        p % a == 0,
    ensures
        x % a == 0,
{
    vstd::arithmetic::div_mod::lemma_fundamental_div_mod(x, p);
    vstd::arithmetic::div_mod::lemma_fundamental_div_mod(p, a);
    assert(x == ((p / a) * (x / p)) * a) by (nonlinear_arith)
        requires x == p * (x / p), p == a * (p / a),
    ;
    vstd::arithmetic::div_mod::lemma_mod_multiples_basic((p / a) * (x / p), a);
}

/// A multiple of a multiple of `a` is a multiple of `a`.
pub proof fn lemma_mul_mod_zero(k: int, p: int, a: int)
    requires
        0 <= k,
        1 <= p,
        1 <= a,
        p % a == 0,
    ensures
        (k * p) % a == 0,
{
    assert(k * p >= 0) by (nonlinear_arith)
        requires 0 <= k, 1 <= p,
    ;
    vstd::arithmetic::div_mod::lemma_mod_multiples_basic(k, p);
    lemma_mod_divides_trans(k * p, a, p);
}

pub fn align_down(value: usize, align: usize) -> (r: usize)
    requires
        1 <= align,
    ensures
        r == align_down_s(value as int, align as int),
        r <= value,
{
    proof {
        lemma_align_down_properties(value as int, align as int);
    }
    (value / align) * align
}

pub fn align_up(value: usize, align: usize) -> (r: usize)
    requires
        1 <= align,
        value + align - 1 <= usize::MAX,
    ensures
        r == align_up_s(value as int, align as int),
        value <= r < value + align,
        r % align == 0,
{
    proof {
        lemma_align_up_properties(value as int, align as int);
    }
    ((align - 1 + value) / align) * align
}

pub fn is_aligned(value: usize, align: usize) -> (r: bool)
    requires
        1 <= align,
    ensures
        r == (value as int % align as int == 0),
{
    value % align == 0
}

} // verus!
