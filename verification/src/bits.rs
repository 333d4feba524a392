//! Facts about single bits of machine words, shared by the bit-set types.
use vstd::prelude::*;

verus! {

/// Number of bits in one `usize` word, as a mathematical integer.
pub open spec fn wbits() -> int {
    usize::BITS as int
}

pub proof fn lemma_wbits()
    ensures
        wbits() == 32 || wbits() == 64,
        usize::MAX == (if wbits() == 32 { 0xffff_ffffint } else { 0xffff_ffff_ffff_ffffint }),
{
}

/// Bit `j` of the word `w` (least significant bit first).
pub open spec fn word_bit(w: usize, j: usize) -> bool {
    (w >> j) & 1usize == 1usize
}

/// Bit `j` of the 64-bit word `w`.
pub open spec fn u64_bit(w: u64, j: u64) -> bool {
    (w >> j) & 1u64 == 1u64
}

pub proof fn lemma_mask_test(w: usize, k: usize)
    requires
        k < usize::BITS,
    ensures
        ((w & (1usize << k)) != 0) == word_bit(w, k),
        (((1usize << k) & w) != 0) == word_bit(w, k),
{
    assert(((w & (1usize << k)) != 0) == ((w >> k) & 1usize == 1usize) && (((1usize << k) & w)
        != 0) == ((w >> k) & 1usize == 1usize)) by (bit_vector)
        requires
            k < usize::BITS,
    ;
}

pub proof fn lemma_set_bit(w: usize, k: usize, j: usize)
    requires
        k < usize::BITS,
        j < usize::BITS,
    ensures
        word_bit(w | (1usize << k), j) == (j == k || word_bit(w, j)),
{
    assert(((w | (1usize << k)) >> j) & 1usize == 1usize <==> (j == k || (w >> j) & 1usize
        == 1usize)) by (bit_vector)
        requires
            k < usize::BITS,
            j < usize::BITS,
    ;
}

pub proof fn lemma_clear_bit(w: usize, k: usize, j: usize)
    requires
        k < usize::BITS,
        j < usize::BITS,
    ensures
        word_bit(w & !(1usize << k), j) == (j != k && word_bit(w, j)),
{
    assert(((w & !(1usize << k)) >> j) & 1usize == 1usize <==> (j != k && (w >> j) & 1usize
        == 1usize)) by (bit_vector)
        requires
            k < usize::BITS,
            j < usize::BITS,
    ;
}

pub proof fn lemma_and_bit(a: usize, b: usize, j: usize)
    requires
        j < usize::BITS,
    ensures
        word_bit(a & b, j) == (word_bit(a, j) && word_bit(b, j)),
{
    assert(((a & b) >> j) & 1usize == 1usize <==> ((a >> j) & 1usize == 1usize && (b >> j)
        & 1usize == 1usize)) by (bit_vector)
        requires
            j < usize::BITS,
    ;
}

pub proof fn lemma_or_bit(a: usize, b: usize, j: usize)
    requires
        j < usize::BITS,
    ensures
        word_bit(a | b, j) == (word_bit(a, j) || word_bit(b, j)),
{
    assert(((a | b) >> j) & 1usize == 1usize <==> ((a >> j) & 1usize == 1usize || (b >> j)
        & 1usize == 1usize)) by (bit_vector)
        requires
            j < usize::BITS,
    ;
}

pub proof fn lemma_not_bit(a: usize, j: usize)
    requires
        j < usize::BITS,
    ensures
        word_bit(!a, j) == !word_bit(a, j),
{
    assert(((!a) >> j) & 1usize == 1usize <==> !((a >> j) & 1usize == 1usize)) by (bit_vector)
        requires
            j < usize::BITS,
    ;
}

pub proof fn lemma_zero_has_no_bits(j: usize)
    requires
        j < usize::BITS,
    ensures
        !word_bit(0usize, j),
{
    assert(!((0usize >> j) & 1usize == 1usize)) by (bit_vector);
}

/// A word with a set bit is not zero.
pub proof fn lemma_bit_implies_nonzero(w: usize, j: usize)
    requires
        j < usize::BITS,
        word_bit(w, j),
    ensures
        w != 0,
{
    lemma_zero_has_no_bits(j);
}

pub proof fn lemma_u64_set_bit(w: u64, k: u64, j: u64)
    requires
        k < 64,
        j < 64,
    ensures
        u64_bit(w | (1u64 << k), j) == (j == k || u64_bit(w, j)),
        u64_bit(w & !(1u64 << k), j) == (j != k && u64_bit(w, j)),
{
    assert(((w | (1u64 << k)) >> j) & 1u64 == 1u64 <==> (j == k || (w >> j) & 1u64 == 1u64))
        by (bit_vector)
        requires
            k < 64,
            j < 64,
    ;
    assert(((w & !(1u64 << k)) >> j) & 1u64 == 1u64 <==> (j != k && (w >> j) & 1u64 == 1u64))
        by (bit_vector)
        requires
            k < 64,
            j < 64,
    ;
}

pub proof fn lemma_u64_mask_test(w: u64, k: u64)
    requires
        k < 64,
    ensures
        ((w & (1u64 << k)) > 0) == u64_bit(w, k),
{
    assert(((w & (1u64 << k)) > 0) == ((w >> k) & 1u64 == 1u64)) by (bit_vector)
        requires
            k < 64,
    ;
}

} // verus!
