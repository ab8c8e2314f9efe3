//! Bit patterns: counting the bits of a pattern and scattering the low bits of
//! a value into the positions that a pattern marks.

use vstd::prelude::*;
use vstd::arithmetic::power2::{
    pow2, lemma_pow2_unfold, lemma_pow2_pos, lemma_pow2_strictly_increases, lemma2_to64,
};
use vstd::arithmetic::div_mod::lemma_div_denominator;
use crate::bits::{lemma_and_step, lemma_empty_masks, lemma_single_bit, lemma_within_pattern_step};

verus! {

/// Number of one bits of `pattern`.
pub open spec fn ones(pattern: nat) -> nat
    decreases pattern,
{
    if pattern == 0 {
        0
    } else {
        pattern % 2 + ones(pattern / 2)
    }
}

/// Setting a bit above all the bits of a pattern adds one to its bit count.
pub proof fn lemma_ones_add_high_bit(pattern: nat, position: nat)
    requires
        pattern < pow2(position),
    ensures
        ones(pattern + pow2(position)) == ones(pattern) + 1,
    decreases position,
{
    lemma2_to64();
    if position == 0 {
        assert(pattern == 0);
        assert(ones(1) == 1 + ones(0));
    } else {
        lemma_pow2_unfold(position);
        lemma_pow2_pos((position - 1) as nat);
        let rest = pow2((position - 1) as nat);
        assert((pattern + 2 * rest) / 2 == pattern / 2 + rest);
        assert((pattern + 2 * rest) % 2 == pattern % 2);
        lemma_ones_add_high_bit(pattern / 2, (position - 1) as nat);
    }
}

/// The low bits of `value`, scattered into the positions that `pattern`
/// marks: the lowest marked position takes the lowest bit of the value, the
/// next marked position the next bit, and so on. Bits of the value beyond the
/// number of marked positions are dropped.
pub open spec fn scatter(pattern: nat, value: nat) -> nat
    decreases pattern,
{
    if pattern == 0 {
        0
    } else if pattern % 2 == 1 {
        value % 2 + 2 * scatter(pattern / 2, value / 2)
    } else {
        2 * scatter(pattern / 2, value)
    }
}

/// Number of values that a pattern tells apart: two to the number of its bits.
pub open spec fn capacity(pattern: nat) -> nat {
    pow2(ones(pattern))
}

/// Scattering zero gives zero.
pub proof fn lemma_scatter_zero(pattern: nat)
    ensures
        scatter(pattern, 0) == 0,
    decreases pattern,
{
    if pattern != 0 {
        lemma_scatter_zero(pattern / 2);
    }
}

/// A scattered value has no bit outside the pattern, so it is at most the
/// pattern.
pub proof fn lemma_scatter_within_pattern(pattern: u32, value: nat)
    ensures
        scatter(pattern as nat, value) <= pattern,
        (scatter(pattern as nat, value) as u32) & !pattern == 0,
    decreases pattern,
{
    if pattern == 0 {
        lemma_empty_masks();
    } else {
        let upper_value = if pattern % 2 == 1 {
            value / 2
        } else {
            value
        };
        let low: u32 = if pattern % 2 == 1 {
            (value % 2) as u32
        } else {
            0
        };
        lemma_scatter_within_pattern(pattern / 2, upper_value);
        let upper = scatter((pattern / 2) as nat, upper_value) as u32;
        lemma_within_pattern_step(pattern, upper, low);
    }
}

/// Below the capacity of the pattern, scattering keeps the order of the
/// values, so distinct values are scattered to distinct words.
pub proof fn lemma_scatter_increases(pattern: nat, smaller: nat, larger: nat)
    requires
        smaller < larger < capacity(pattern),
    ensures
        scatter(pattern, smaller) < scatter(pattern, larger),
    decreases pattern,
{
    lemma2_to64();
    if pattern == 0 {
    } else if pattern % 2 == 1 {
        lemma_pow2_unfold(ones(pattern));
        if smaller / 2 < larger / 2 {
            lemma_scatter_increases(pattern / 2, smaller / 2, larger / 2);
        }
    } else {
        lemma_scatter_increases(pattern / 2, smaller, larger);
    }
}

/// The bits of `word` at the positions that `pattern` marks, gathered into
/// the low bits: the lowest marked position gives the lowest bit, the next
/// marked position the next bit, and so on.
pub open spec fn gather(pattern: nat, word: nat) -> nat
    decreases pattern,
{
    if pattern == 0 {
        0
    } else if pattern % 2 == 1 {
        word % 2 + 2 * gather(pattern / 2, word / 2)
    } else {
        gather(pattern / 2, word / 2)
    }
}

/// What is gathered from a word lies below the capacity of the pattern.
pub proof fn lemma_gather_below_capacity(pattern: nat, word: nat)
    ensures
        gather(pattern, word) < capacity(pattern),
    decreases pattern,
{
    lemma2_to64();
    if pattern != 0 {
        lemma_gather_below_capacity(pattern / 2, word / 2);
        if pattern % 2 == 1 {
            lemma_pow2_unfold(ones(pattern));
        }
    }
}

/// Gathering undoes scattering: below the capacity of the pattern, a value
/// is gathered back from the word that it was scattered to.
pub proof fn lemma_gather_scatter(pattern: nat, value: nat)
    requires
        value < capacity(pattern),
    ensures
        gather(pattern, scatter(pattern, value)) == value,
    decreases pattern,
{
    lemma2_to64();
    if pattern == 0 {
    } else if pattern % 2 == 1 {
        lemma_pow2_unfold(ones(pattern));
        lemma_gather_scatter(pattern / 2, value / 2);
    } else {
        lemma_gather_scatter(pattern / 2, value);
    }
}

/// Gathering reads only the part of a word within the pattern.
pub proof fn lemma_gather_reads_within_pattern(pattern: u32, word: u32)
    ensures
        gather(pattern as nat, word as nat) == gather(pattern as nat, (word & pattern) as nat),
    decreases pattern,
{
    lemma_and_step(word, pattern);
    if pattern != 0 {
        lemma_gather_reads_within_pattern(pattern / 2, word / 2);
    }
}

/// Scattering undoes gathering within the pattern: what is gathered from a
/// word is scattered back to the part of the word within the pattern.
pub proof fn lemma_scatter_gather(pattern: u32, word: u32)
    ensures
        scatter(pattern as nat, gather(pattern as nat, word as nat)) == word & pattern,
    decreases pattern,
{
    lemma_and_step(word, pattern);
    if pattern != 0 {
        lemma_scatter_gather(pattern / 2, word / 2);
    }
}

/// Scatters the low bits of `value` into the positions marked by `pattern`.
///
/// The lowest marked position takes the lowest bit of the value, the next
/// marked position the next bit. Bits of the value that find no marked
/// position are dropped, so the result lies within the pattern.
pub fn fill_pattern(pattern: u32, value: u32) -> (result: u32)
    ensures
        result == scatter(pattern as nat, value as nat),
        result & !pattern == 0,
{
    let mut result: u32 = 0;
    let mut bit: u32 = 1;
    let mut local_value: u32 = value;

    let ghost mut i: nat = 0;
    let ghost mut rest: nat = pattern as nat;

    proof {
        lemma2_to64();
        lemma_empty_masks();
        assert(scatter(pattern as nat, value as nat) == 0 + 1 * scatter(rest, local_value as nat));
    }

    while local_value != 0 && bit != 0
        invariant
            i <= 32,
            bit != 0 ==> i < 32 && bit == pow2(i),
            bit == 0 ==> i == 32,
            bit != 0 ==> bit & ((bit - 1) as u32) == 0,
            rest == pattern as nat / pow2(i),
            result < pow2(i),
            scatter(pattern as nat, value as nat) == result + pow2(i) * scatter(
                rest,
                local_value as nat,
            ),
        decreases 32 - i,
    {
        let ghost unit = pow2(i);
        let ghost upper_value = if rest % 2 == 1 {
            local_value as nat / 2
        } else {
            local_value as nat
        };
        let ghost upper = scatter(rest / 2, upper_value);
        let ghost low: nat = if rest % 2 == 1 {
            local_value as nat % 2
        } else {
            0
        };
        proof {
            lemma2_to64();
            if i < 31 {
                lemma_pow2_strictly_increases(i, 31);
            }
            lemma_single_bit(pattern, bit, result, local_value);
            lemma_pow2_unfold(i + 1);
            lemma_pow2_pos(i);
            lemma_div_denominator(pattern as int, unit as int, 2);
            if rest == 0 {
                assert(upper == 0);
            }
            assert(scatter(rest, local_value as nat) == low + 2 * upper);
            assert(unit * (low + 2 * upper) == unit * low + (2 * unit) * upper)
                by (nonlinear_arith);
            assert(low == 0 ==> unit * low == 0) by (nonlinear_arith);
            assert(low == 1 ==> unit * low == unit) by (nonlinear_arith);
        }

        if pattern & bit != 0 {
            let mut tmp: u32 = 0;
            if local_value & 1 != 0 {
                tmp = bit;
            }
            result = result | tmp;
            local_value = local_value >> 1;
        }
        bit = bit << 1;

        proof {
            i = i + 1;
            rest = rest / 2;
        }
    }

    proof {
        if local_value == 0 {
            lemma_scatter_zero(rest);
        } else {
            assert(pattern as nat / pow2(32) == 0);
        }
        assert(pow2(i) * 0 == 0) by (nonlinear_arith);
        lemma_scatter_within_pattern(pattern, value as nat);
    }
    result
}

} // verus!
