//! Power-of-two alignment arithmetic.

use vstd::arithmetic::div_mod::{
    lemma_fundamental_div_mod, lemma_fundamental_div_mod_converse, lemma_mod_breakdown,
    lemma_mod_multiples_basic,
};
use vstd::arithmetic::power2::is_pow2;
use vstd::prelude::*;

verus! {

/// `value` rounded down to a multiple of `align`.
pub open spec fn align_down_spec(value: int, align: int) -> int {
    value - value % align
}

/// The smallest multiple of `align` that is not below `value`.
pub open spec fn align_up_spec(value: int, align: int) -> int {
    if value % align == 0 {
        value
    } else {
        value - value % align + align
    }
}

/// A power of two has a single bit set.
pub proof fn lemma_pow2_single_bit(a: usize)
    requires
        is_pow2(a as int),
    ensures
        a != 0,
        a & ((a - 1) as usize) == 0,
    decreases a,
{
    reveal(is_pow2);
    if a == 1 {
        assert(1usize & 0usize == 0) by (bit_vector);
    } else {
        let h: usize = a / 2;
        lemma_pow2_single_bit(h);
        assert(a & ((a - 1) as usize) == 0) by (bit_vector)
            requires
                a > 1,
                a % 2 == 0,
                h == a / 2,
                h & ((h - 1) as usize) == 0,
        ;
    }
}

/// A nonzero value with a single bit set is a power of two.
pub proof fn lemma_single_bit_pow2(a: usize)
    requires
        a != 0,
        a & ((a - 1) as usize) == 0,
    ensures
        is_pow2(a as int),
    decreases a,
{
    reveal(is_pow2);
    if a != 1 {
        let h: usize = a / 2;
        assert(a % 2 == 0 && h != 0 && h & ((h - 1) as usize) == 0) by (bit_vector)
            requires
                a != 0,
                a != 1,
                h == a / 2,
                a & ((a - 1) as usize) == 0,
        ;
        lemma_single_bit_pow2(h);
    }
}

/// Masking with a power of two less one is the remainder by that power.
pub proof fn lemma_mask_is_mod(x: usize, a: usize)
    requires
        is_pow2(a as int),
    ensures
        x & ((a - 1) as usize) == x % a,
    decreases a,
{
    reveal(is_pow2);
    if a == 1 {
        assert(x & 0usize == 0) by (bit_vector);
    } else {
        let h: usize = a / 2;
        let y: usize = x / 2;
        lemma_mask_is_mod(y, h);
        let m: usize = y & ((h - 1) as usize);
        assert(x & ((a - 1) as usize) == 2 * m + x % 2) by (bit_vector)
            requires
                a > 1,
                a % 2 == 0,
                h == a / 2,
                y == x / 2,
                m == y & ((h - 1) as usize),
        ;
        assert(m == y % h);
        lemma_mod_breakdown(x as int, 2, h as int);
    }
}

/// Whether `align` is a power of two.
pub fn is_power_of_two(align: usize) -> (r: bool)
    ensures
        r == is_pow2(align as int),
{
    if align == 0 {
        proof {
            reveal(is_pow2);
        }
        return false;
    }
    let single: bool = align & (align - 1) == 0;
    proof {
        if single {
            lemma_single_bit_pow2(align);
        }
        if is_pow2(align as int) {
            lemma_pow2_single_bit(align);
        }
    }
    single
}

/// Largest multiple of `align` that does not exceed `value`.
pub fn align_down(value: usize, align: usize) -> (r: usize)
    requires
        is_pow2(align as int),
    ensures
        r == align_down_spec(value as int, align as int),
        r % align == 0,
        r <= value,
        value - r < align,
{
    proof {
        lemma_pow2_single_bit(align);
        lemma_mask_is_mod(value, align);
        let m: usize = ((align - 1) as usize);
        assert(value & !m == value - (value & m)) by (bit_vector);
        lemma_align_down_props(value as int, align as int);
    }
    value & !(align - 1)
}

/// Smallest multiple of `align` that is not below `value`.
pub fn align_up(value: usize, align: usize) -> (r: usize)
    requires
        is_pow2(align as int),
        value + align - 1 <= usize::MAX,
    ensures
        r == align_up_spec(value as int, align as int),
        r % align == 0,
        r >= value,
        r - value < align,
{
    proof {
        lemma_pow2_single_bit(align);
        lemma_align_up_props(value as int, align as int);
        lemma_align_up_as_down(value as int, align as int);
    }
    align_down(value + (align - 1), align)
}

/// Whether `value` is a multiple of `align`.
pub fn is_aligned(value: usize, align: usize) -> (r: bool)
    requires
        is_pow2(align as int),
    ensures
        r == (value % align == 0),
{
    proof {
        lemma_pow2_single_bit(align);
        lemma_mask_is_mod(value, align);
    }
    (value & (align - 1)) == 0
}

/// What rounding down guarantees.
pub proof fn lemma_align_down_props(value: int, align: int)
    requires
        value >= 0,
        align > 0,
    ensures
        align_down_spec(value, align) % align == 0,
        0 <= align_down_spec(value, align) <= value,
        value - align_down_spec(value, align) < align,
        align_down_spec(value, align) == (value / align) * align,
{
    lemma_fundamental_div_mod(value, align);
    assert(align_down_spec(value, align) == align * (value / align));
    lemma_mod_multiples_basic(value / align, align);
    assert((value / align) * align == align * (value / align)) by (nonlinear_arith);
}

/// What rounding up guarantees.
pub proof fn lemma_align_up_props(value: int, align: int)
    requires
        value >= 0,
        align > 0,
    ensures
        align_up_spec(value, align) % align == 0,
        align_up_spec(value, align) >= value,
        align_up_spec(value, align) - value < align,
{
    lemma_align_down_props(value, align);
    if value % align != 0 {
        let d = align_down_spec(value, align);
        assert((d + align) % align == 0) by (nonlinear_arith)
            requires
                d % align == 0,
                align > 0,
        ;
    }
}

/// Rounding up is rounding down after adding `align - 1`.
pub proof fn lemma_align_up_as_down(value: int, align: int)
    requires
        value >= 0,
        align > 0,
    ensures
        align_down_spec(value + align - 1, align) == align_up_spec(value, align),
{
    lemma_fundamental_div_mod(value, align);
    let q = value / align;
    let m = value % align;
    if m == 0 {
        assert((align * q + (align - 1)) % align == align - 1) by (nonlinear_arith)
            requires
                align > 0,
        ;
    } else {
        assert((align * (q + 1) + (m - 1)) % align == m - 1) by (nonlinear_arith)
            requires
                align > 0,
                0 < m < align,
        ;
        assert(value + align - 1 == align * (q + 1) + (m - 1)) by (nonlinear_arith)
            requires
                value == align * q + m,
        ;
    }
}

/// Rounding up twice is rounding up once.
pub proof fn lemma_align_up_idempotent(value: int, align: int)
    requires
        value >= 0,
        align > 0,
    ensures
        align_up_spec(align_up_spec(value, align), align) == align_up_spec(value, align),
{
    lemma_align_up_props(value, align);
}

/// The largest power of two that divides `n`; zero for zero.
pub open spec fn largest_pow2_divisor(n: nat) -> nat
    decreases n,
{
    if n == 0 {
        0
    } else if n % 2 == 1 {
        1
    } else {
        2 * largest_pow2_divisor(n / 2)
    }
}

/// For a nonzero `n`, `largest_pow2_divisor(n)` is a power of two that
/// divides `n` and leaves an odd quotient.
pub proof fn lemma_largest_pow2_divisor(n: nat)
    requires
        n > 0,
    ensures
        is_pow2(largest_pow2_divisor(n) as int),
        0 < largest_pow2_divisor(n) <= n,
        n % largest_pow2_divisor(n) == 0,
        (n / largest_pow2_divisor(n)) % 2 == 1,
    decreases n,
{
    reveal(is_pow2);
    if n % 2 == 1 {
    } else {
        let h = n / 2;
        lemma_largest_pow2_divisor(h);
        let d = largest_pow2_divisor(h);
        assert((2 * d) / 2 == d && (2 * d) % 2 == 0);
        let k = h as int / d as int;
        lemma_fundamental_div_mod(h as int, d as int);
        assert(n == k * (2 * d) + 0) by (nonlinear_arith)
            requires
                n == 2 * h,
                h == d * k,
        ;
        lemma_fundamental_div_mod_converse(n as int, 2 * d as int, k, 0);
    }
}

proof fn lemma_lowest_bit(x: usize)
    requires
        x != 0,
    ensures
        x & (x ^ ((x - 1) as usize)) == largest_pow2_divisor(x as nat),
    decreases x,
{
    if x % 2 == 1 {
        assert(x & (x ^ ((x - 1) as usize)) == 1) by (bit_vector)
            requires
                x % 2 == 1,
        ;
    } else {
        let h: usize = x / 2;
        lemma_lowest_bit(h);
        let low: usize = h & (h ^ ((h - 1) as usize));
        assert(x & (x ^ ((x - 1) as usize)) == 2 * low) by (bit_vector)
            requires
                x != 0,
                x % 2 == 0,
                h == x / 2,
                low == h & (h ^ ((h - 1) as usize)),
        ;
    }
}

/// The alignment of an address: the largest power of two that divides it.
pub fn get_alignment(addr: usize) -> (r: usize)
    ensures
        r == largest_pow2_divisor(addr as nat),
{
    if addr == 0 {
        return 0;
    }
    proof {
        lemma_lowest_bit(addr);
    }
    addr & (addr ^ (addr - 1))
}

/// Size of a cache line in bytes.
pub fn cache_line_size() -> (r: usize)
    ensures
        r == 64,
{
    64
}

} // verus!
