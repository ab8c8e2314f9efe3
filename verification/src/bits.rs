//! Facts about the bitwise operators on 32-bit words, each settled by the
//! bit-vector solver and used by the proofs of the other modules.

use vstd::prelude::*;

verus! {

/// Three empty masks are disjoint and cover the bits below bit 0.
pub(crate) proof fn lemma_empty_masks()
    by (bit_vector)
    ensures
        0u32 & 0u32 == 0u32,
        0u32 | 0u32 | 0u32 == 0u32,
        1u32 & 0u32 == 0u32,
        0u32 & !0u32 == 0u32,
{
}

/// Adding the single bit `m` to one of three disjoint masks that together
/// cover exactly the bits below `m`: the masks stay disjoint, cover the bits
/// below `2 * m`, and the mask that takes the bit grows by `m`.
pub(crate) proof fn lemma_claim_bit(a: u32, b: u32, c: u32, m: u32)
    by (bit_vector)
    requires
        a & b == 0,
        a & c == 0,
        b & c == 0,
        0 < m < 0x8000_0000,
        m & ((m - 1) as u32) == 0,
        a | b | c == (m - 1) as u32,
    ensures
        a < m,
        b < m,
        c < m,
        a | m == a + m,
        b | m == b + m,
        c | m == c + m,
        (a | m) & b == 0,
        (a | m) & c == 0,
        a & (b | m) == 0,
        (b | m) & c == 0,
        a & (c | m) == 0,
        b & (c | m) == 0,
        m << 1 == 2 * m,
        (m << 1) & (((m << 1) - 1) as u32) == 0,
        (a | m) | b | c == ((m << 1) - 1) as u32,
        a | (b | m) | c == ((m << 1) - 1) as u32,
        a | b | (c | m) == ((m << 1) - 1) as u32,
{
}

/// Shifting a word below `2^31` left by one doubles it.
pub(crate) proof fn lemma_shl_one_doubles(b: u32)
    by (bit_vector)
    requires
        b < 0x8000_0000,
    ensures
        b << 1 == 2 * b,
{
}

/// For pairwise disjoint words, exclusive or, inclusive or and sum agree.
pub(crate) proof fn lemma_disjoint_union(a: u32, b: u32, c: u32)
    by (bit_vector)
    requires
        a & b == 0,
        a & c == 0,
        b & c == 0,
    ensures
        a ^ b ^ c == a | b | c,
        a | b | c == a + b + c,
{
}

/// What one round of scattering needs of a single bit `bit`: how the test of a
/// pattern bit and of a value's low bit read as arithmetic, and what setting
/// the bit and shifting do.
pub(crate) proof fn lemma_single_bit(pattern: u32, bit: u32, result: u32, value: u32)
    by (bit_vector)
    requires
        bit != 0,
        bit & ((bit - 1) as u32) == 0,
        result < bit,
    ensures
        (pattern & bit != 0) <==> ((pattern / bit) % 2 == 1),
        result | bit == result + bit,
        result | 0 == result,
        (value & 1 != 0) <==> (value % 2 == 1),
        value >> 1 == value / 2,
        bit < 0x8000_0000 ==> bit << 1 == 2 * bit && (bit << 1) & (((bit << 1) - 1) as u32) == 0,
        bit >= 0x8000_0000 ==> bit == 0x8000_0000 && bit << 1 == 0,
{
}

/// A word made of a bit that the pattern's low bit allows and of twice a word
/// that lies within the pattern's upper bits lies within the pattern.
pub(crate) proof fn lemma_within_pattern_step(pattern: u32, upper: u32, low: u32)
    by (bit_vector)
    requires
        upper & !(pattern / 2) == 0,
        low <= pattern % 2,
    ensures
        low + 2 * upper <= pattern,
        ((low + 2 * upper) as u32) & !pattern == 0,
{
}

/// Three words that lie within three pairwise disjoint masks: their union is
/// their sum, lies within the union of the masks, and each word is the part
/// of the union that lies within its mask.
pub(crate) proof fn lemma_disjoint_parts(a: u32, b: u32, c: u32, ma: u32, mb: u32, mc: u32)
    by (bit_vector)
    requires
        ma & mb == 0,
        ma & mc == 0,
        mb & mc == 0,
        a & !ma == 0,
        b & !mb == 0,
        c & !mc == 0,
    ensures
        a | b | c == a + b + c,
        (a | b | c) & ma == a,
        (a | b | c) & mb == b,
        (a | b | c) & mc == c,
        a | b | c <= ma | mb | mc,
{
}

/// The part of a word within a pattern, from the low bits of both and from
/// the parts above them.
pub(crate) proof fn lemma_and_step(word: u32, pattern: u32)
    by (bit_vector)
    ensures
        pattern % 2 == 1 ==> word & pattern == word % 2 + 2 * ((word / 2) & (pattern / 2)),
        pattern % 2 == 0 ==> word & pattern == 2 * ((word / 2) & (pattern / 2)),
        pattern == 0 ==> word & pattern == 0,
{
}

/// A word that is at most a run of low bits lies within the run, and the
/// parts of the word within three masks that make up the run make up the
/// word.
pub(crate) proof fn lemma_split_parts(word: u32, ma: u32, mb: u32, mc: u32, top: u32)
    by (bit_vector)
    requires
        0 < top,
        top & ((top - 1) as u32) == 0,
        ma | mb | mc == (top - 1) as u32,
        word < top,
    ensures
        (word & ma) | (word & mb) | (word & mc) == word,
{
}

/// One, shifted left by less than 32, is a single bit.
pub(crate) proof fn lemma_shifted_one_is_single_bit(shift: u32)
    by (bit_vector)
    requires
        shift < 32,
    ensures
        (1u32 << shift) & (((1u32 << shift) - 1) as u32) == 0,
{
}

} // verus!
