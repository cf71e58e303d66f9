//! Bit-level facts about 64-bit words, stated per bit index.
//!
//! Every other module reasons about a word only through [`bit`]; the lemmas
//! here turn the machine operators into statements about single bits.

use vstd::prelude::*;
use vstd::std_specs::bits::{axiom_u64_trailing_zeros, u64_trailing_zeros};

verus! {

/// Bit `i` of `b` is set. False for every index outside `0..64`.
pub open spec fn bit(b: u64, i: int) -> bool {
    0 <= i < 64 && (b >> (i as u64)) & 1 == 1
}

pub broadcast proof fn lemma_bit_and(a: u64, b: u64, i: int)
    ensures
        #[trigger] bit(a & b, i) == (bit(a, i) && bit(b, i)),
{
    if 0 <= i < 64 {
        let k: u64 = i as u64;
        assert((((a & b) >> k) & 1 == 1) == ((a >> k) & 1 == 1 && (b >> k) & 1 == 1))
            by (bit_vector);
    }
}

pub broadcast proof fn lemma_bit_or(a: u64, b: u64, i: int)
    ensures
        #[trigger] bit(a | b, i) == (bit(a, i) || bit(b, i)),
{
    if 0 <= i < 64 {
        let k: u64 = i as u64;
        assert((((a | b) >> k) & 1 == 1) == ((a >> k) & 1 == 1 || (b >> k) & 1 == 1))
            by (bit_vector);
    }
}

pub broadcast proof fn lemma_bit_xor(a: u64, b: u64, i: int)
    ensures
        #[trigger] bit(a ^ b, i) == (0 <= i < 64 && bit(a, i) != bit(b, i)),
{
    if 0 <= i < 64 {
        let k: u64 = i as u64;
        assert((((a ^ b) >> k) & 1 == 1) == (((a >> k) & 1 == 1) != ((b >> k) & 1 == 1)))
            by (bit_vector);
    }
}

pub broadcast proof fn lemma_bit_not(a: u64, i: int)
    ensures
        #[trigger] bit(!a, i) == (0 <= i < 64 && !bit(a, i)),
{
    if 0 <= i < 64 {
        let k: u64 = i as u64;
        assert((((!a) >> k) & 1 == 1) == !((a >> k) & 1 == 1)) by (bit_vector)
            requires
                k < 64,
        ;
    }
}

pub broadcast proof fn lemma_bit_shl(a: u64, n: u64, i: int)
    requires
        n < 64,
    ensures
        #[trigger] bit(a << n, i) == (n <= i < 64 && bit(a, i - n)),
{
    if 0 <= i < 64 {
        let k: u64 = i as u64;
        assert((((a << n) >> k) & 1 == 1) == (k >= n && (a >> ((k - n) as u64)) & 1 == 1))
            by (bit_vector)
            requires
                n < 64,
                k < 64,
        ;
    }
}

pub broadcast proof fn lemma_bit_shr(a: u64, n: u64, i: int)
    requires
        n < 64,
    ensures
        #[trigger] bit(a >> n, i) == (0 <= i && bit(a, i + n)),
{
    if 0 <= i < 64 {
        let k: u64 = i as u64;
        assert((((a >> n) >> k) & 1 == 1) == (k + n < 64 && (a >> ((k + n) as u64)) & 1 == 1))
            by (bit_vector)
            requires
                n < 64,
                k < 64,
        ;
    }
}

pub broadcast proof fn lemma_bit_one(n: u64, i: int)
    requires
        n < 64,
    ensures
        #[trigger] bit(1u64 << n, i) == (i == n),
{
    if 0 <= i < 64 {
        let k: u64 = i as u64;
        assert((((1u64 << n) >> k) & 1 == 1) == (k == n)) by (bit_vector)
            requires
                n < 64,
                k < 64,
        ;
    }
}

pub broadcast proof fn lemma_bit_zero(i: int)
    ensures
        !#[trigger] bit(0u64, i),
{
    if 0 <= i < 64 {
        let k: u64 = i as u64;
        assert((0u64 >> k) & 1 == 0) by (bit_vector);
    }
}

pub broadcast proof fn lemma_bit_full(i: int)
    ensures
        #[trigger] bit(0xffff_ffff_ffff_ffffu64, i) == (0 <= i < 64),
{
    if 0 <= i < 64 {
        let k: u64 = i as u64;
        assert((0xffff_ffff_ffff_ffffu64 >> k) & 1 == 1) by (bit_vector)
            requires
                k < 64,
        ;
    }
}

pub broadcast group group_bits {
    lemma_bit_and,
    lemma_bit_or,
    lemma_bit_xor,
    lemma_bit_not,
    lemma_bit_shl,
    lemma_bit_shr,
    lemma_bit_one,
    lemma_bit_zero,
    lemma_bit_full,
}

/// The index of the lowest set bit of a non-zero word.
pub proof fn lemma_lowest_bit(b: u64)
    requires
        b != 0,
    ensures
        u64_trailing_zeros(b) < 64,
        bit(b, u64_trailing_zeros(b) as int),
        forall|j: int| 0 <= j < u64_trailing_zeros(b) ==> !bit(b, j),
{
    axiom_u64_trailing_zeros(b);
    let t: u32 = u64_trailing_zeros(b);
    assert forall|j: int| 0 <= j < t implies !bit(b, j) by {
        let k: u64 = j as u64;
        assert((b >> k) & 1u64 == 0u64);
    }
}

/// Two words with the same bits are the same word.
pub proof fn lemma_bit_ext(a: u64, b: u64)
    requires
        forall|i: int| 0 <= i < 64 ==> bit(a, i) == bit(b, i),
    ensures
        a == b,
{
    let x: u64 = a ^ b;
    if x != 0 {
        lemma_lowest_bit(x);
        lemma_bit_xor(a, b, u64_trailing_zeros(x) as int);
    }
    assert(a ^ b == 0 ==> a == b) by (bit_vector);
}

} // verus!
