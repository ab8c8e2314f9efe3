//! Swizzle masks: which bits of a texel address belong to which axis.
//!
//! Address bits are handed out in rounds. In round `k` each axis, in the order
//! x, y, z, takes the next free address bit if `2^k` is below its extent.

use vstd::prelude::*;
use vstd::arithmetic::power2::{
    pow2, lemma_pow2_adds, lemma_pow2_pos, lemma_pow2_unfold, lemma_pow2_strictly_increases,
    lemma2_to64,
};
use vstd::bits::lemma_u32_shl_is_mul;
use crate::bits::{
    lemma_claim_bit, lemma_disjoint_union, lemma_empty_masks, lemma_shifted_one_is_single_bit,
    lemma_shl_one_doubles,
};
use crate::pattern::{ones, lemma_ones_add_high_bit};

verus! {

/// One of the three spatial axes, in the order in which they take address bits.
pub enum Axis {
    X,
    Y,
    Z,
}

/// The bits of a texel address that carry the x, y and z coordinate.
#[derive(Clone, Copy, Debug, PartialEq, Eq, Structural)]
pub struct SwizzleMask {
    pub x: u32,
    pub y: u32,
    pub z: u32,
}

/// The smaller of two natural numbers.
pub open spec fn least(a: nat, b: nat) -> nat {
    if a <= b {
        a
    } else {
        b
    }
}

/// Number of address bits that an axis of the given extent takes: the number
/// of powers of two below the extent, which is the base-2 logarithm of the
/// extent, rounded up.
pub open spec fn axis_bits(extent: nat) -> nat
    decreases extent,
{
    if extent <= 1 {
        0
    } else {
        1 + axis_bits((extent + 1) / 2)
    }
}

/// Number of address bits that the three axes take together.
pub open spec fn total_bits(width: nat, height: nat, depth: nat) -> nat {
    axis_bits(width) + axis_bits(height) + axis_bits(depth)
}

/// `axis_bits` counts the powers of two below the extent.
pub proof fn lemma_axis_bits_counts_powers(extent: nat, k: nat)
    ensures
        pow2(k) < extent <==> k < axis_bits(extent),
    decreases k,
{
    lemma2_to64();
    if k > 0 {
        lemma_pow2_unfold(k);
        lemma_axis_bits_counts_powers((extent + 1) / 2, (k - 1) as nat);
    }
}

/// An extent is at most two to the number of its address bits.
pub proof fn lemma_extent_fits_axis_bits(extent: nat)
    ensures
        extent <= pow2(axis_bits(extent)),
{
    lemma_axis_bits_counts_powers(extent, axis_bits(extent));
}

/// Whether `n` is a power of two.
pub open spec fn power_of_two(n: nat) -> bool {
    exists|e: nat| n == #[trigger] pow2(e)
}

/// The powers of two are the extents that fill their address bits exactly.
pub proof fn lemma_power_of_two_fills_bits(extent: nat)
    ensures
        power_of_two(extent) <==> extent == pow2(axis_bits(extent)),
{
    if power_of_two(extent) {
        let e = choose|e: nat| extent == #[trigger] pow2(e);
        lemma_axis_bits_counts_powers(extent, e);
        if e > 0 {
            lemma_pow2_strictly_increases((e - 1) as nat, e);
            lemma_axis_bits_counts_powers(extent, (e - 1) as nat);
        }
        assert(axis_bits(extent) == e);
    }
}

/// A texture whose extents are powers of two has as many texels as its
/// address bits can tell apart: the product of the extents.
pub proof fn lemma_power_of_two_texels(width: nat, height: nat, depth: nat)
    requires
        power_of_two(width),
        power_of_two(height),
        power_of_two(depth),
    ensures
        pow2(total_bits(width, height, depth)) == width * height * depth,
{
    lemma_power_of_two_fills_bits(width);
    lemma_power_of_two_fills_bits(height);
    lemma_power_of_two_fills_bits(depth);
    lemma_pow2_adds(axis_bits(width), axis_bits(height));
    lemma_pow2_adds(axis_bits(width) + axis_bits(height), axis_bits(depth));
}

/// A 32-bit extent takes at most 32 address bits.
pub proof fn lemma_axis_bits_bound(extent: u32)
    ensures
        axis_bits(extent as nat) <= 32,
{
    lemma2_to64();
    lemma_axis_bits_counts_powers(extent as nat, 32);
}

/// Number of address bits handed out in the rounds before round `k`.
pub open spec fn cursor(width: nat, height: nat, depth: nat, k: nat) -> nat {
    least(k, axis_bits(width)) + least(k, axis_bits(height)) + least(k, axis_bits(depth))
}

/// 1 if an axis of the given extent takes an address bit in round `k`, else 0.
pub open spec fn takes(extent: nat, k: nat) -> nat {
    if k < axis_bits(extent) {
        1
    } else {
        0
    }
}

/// Position of the address bit that `axis` takes in round `k`, for each round
/// in which it takes one: the bits of all earlier rounds come first, then those
/// of the axes that precede it in this round.
pub open spec fn slot(axis: Axis, width: nat, height: nat, depth: nat, k: nat) -> nat {
    cursor(width, height, depth, k) + match axis {
        Axis::X => 0,
        Axis::Y => takes(width, k),
        Axis::Z => takes(width, k) + takes(height, k),
    }
}

/// The mask made of the address bits that `axis` takes in its first `rounds`
/// rounds.
pub open spec fn axis_mask(axis: Axis, width: nat, height: nat, depth: nat, rounds: nat) -> nat
    decreases rounds,
{
    if rounds == 0 {
        0
    } else {
        axis_mask(axis, width, height, depth, (rounds - 1) as nat) + pow2(
            slot(axis, width, height, depth, (rounds - 1) as nat),
        )
    }
}

/// The extent that belongs to an axis.
pub open spec fn extent_of(axis: Axis, width: nat, height: nat, depth: nat) -> nat {
    match axis {
        Axis::X => width,
        Axis::Y => height,
        Axis::Z => depth,
    }
}

/// The mask of an axis: the address bits that it takes in all its rounds.
pub open spec fn mask_of(axis: Axis, width: nat, height: nat, depth: nat) -> nat {
    axis_mask(axis, width, height, depth, axis_bits(extent_of(axis, width, height, depth)))
}

/// The swizzle masks of a texture of the given extents.
pub open spec fn masks_for(width: nat, height: nat, depth: nat) -> SwizzleMask {
    SwizzleMask {
        x: mask_of(Axis::X, width, height, depth) as u32,
        y: mask_of(Axis::Y, width, height, depth) as u32,
        z: mask_of(Axis::Z, width, height, depth) as u32,
    }
}

impl SwizzleMask {
    /// No address bit belongs to two axes.
    pub open spec fn disjoint(self) -> bool {
        &&& self.x & self.y == 0
        &&& self.x & self.z == 0
        &&& self.y & self.z == 0
    }

    /// The address bits of the three axes, taken together.
    pub open spec fn union(self) -> u32 {
        self.x | self.y | self.z
    }

    /// The masks are those of a texture of the given extents, each of them
    /// the number that `mask_of` gives.
    pub open spec fn is_for(self, width: nat, height: nat, depth: nat) -> bool {
        &&& self.x == mask_of(Axis::X, width, height, depth)
        &&& self.y == mask_of(Axis::Y, width, height, depth)
        &&& self.z == mask_of(Axis::Z, width, height, depth)
    }
}

/// Two to a power below 32 is a single bit of a 32-bit word.
pub proof fn lemma_pow2_single_bit(e: nat)
    requires
        e < 32,
    ensures
        0 < pow2(e) <= 0x8000_0000,
        (pow2(e) as u32) & ((pow2(e) - 1) as u32) == 0,
{
    lemma2_to64();
    if e < 31 {
        lemma_pow2_strictly_increases(e, 31);
    }
    lemma_pow2_pos(e);
    lemma_u32_shl_is_mul(1, e as u32);
    lemma_shifted_one_is_single_bit(e as u32);
}

/// Two to a power below 31 is below `2^31`.
proof fn lemma_pow2_below_top(e: nat)
    requires
        e <= 30,
    ensures
        0 < pow2(e) < 0x8000_0000,
{
    lemma2_to64();
    if e < 30 {
        lemma_pow2_strictly_increases(e, 30);
    }
    lemma_pow2_pos(e);
}

/// What holds of three masks while address bits are handed out, `pos` bits
/// so far: the masks are pairwise disjoint and cover exactly the bits below
/// `pos`.
#[verifier::opaque]
spec fn handed_out(x: nat, y: nat, z: nat, pos: nat) -> bool {
    &&& pos <= 31
    &&& x + y + z == pow2(pos) - 1
    &&& (x as u32) & (y as u32) == 0
    &&& (x as u32) & (z as u32) == 0
    &&& (y as u32) & (z as u32) == 0
    &&& (x as u32) | (y as u32) | (z as u32) == pow2(pos) - 1
    &&& (pow2(pos) as u32) & ((pow2(pos) - 1) as u32) == 0
}

/// Handing the next address bit to one axis keeps the masks a partition of
/// the bits handed out. Setting the bit in the mask adds the bit's value to
/// the mask, and shifting the bit left by one gives the bit after it.
proof fn lemma_hand_out(axis: Axis, x: nat, y: nat, z: nat, pos: nat)
    requires
        handed_out(x, y, z, pos),
        pos <= 30,
    ensures
        0 < pow2(pos) < 0x8000_0000,
        pow2(pos + 1) == 2 * pow2(pos),
        (pow2(pos) as u32) << 1 == pow2(pos + 1),
        x < pow2(pos),
        y < pow2(pos),
        z < pow2(pos),
        match axis {
            Axis::X => {
                &&& handed_out(x + pow2(pos), y, z, pos + 1)
                &&& ones(x + pow2(pos)) == ones(x) + 1
                &&& (x as u32) | (pow2(pos) as u32) == x + pow2(pos)
            },
            Axis::Y => {
                &&& handed_out(x, y + pow2(pos), z, pos + 1)
                &&& ones(y + pow2(pos)) == ones(y) + 1
                &&& (y as u32) | (pow2(pos) as u32) == y + pow2(pos)
            },
            Axis::Z => {
                &&& handed_out(x, y, z + pow2(pos), pos + 1)
                &&& ones(z + pow2(pos)) == ones(z) + 1
                &&& (z as u32) | (pow2(pos) as u32) == z + pow2(pos)
            },
        },
{
    reveal(handed_out);
    lemma_pow2_below_top(pos);
    lemma_pow2_unfold(pos + 1);
    lemma_claim_bit(x as u32, y as u32, z as u32, pow2(pos) as u32);
    match axis {
        Axis::X => lemma_ones_add_high_bit(x, pos),
        Axis::Y => lemma_ones_add_high_bit(y, pos),
        Axis::Z => lemma_ones_add_high_bit(z, pos),
    }
}

/// The masks after `k` rounds partition the address bits handed out in these
/// rounds, and each holds one bit for each round in which its axis took one.
proof fn lemma_rounds(width: nat, height: nat, depth: nat, k: nat)
    requires
        total_bits(width, height, depth) < 32,
    ensures
        handed_out(
            axis_mask(Axis::X, width, height, depth, least(k, axis_bits(width))),
            axis_mask(Axis::Y, width, height, depth, least(k, axis_bits(height))),
            axis_mask(Axis::Z, width, height, depth, least(k, axis_bits(depth))),
            cursor(width, height, depth, k),
        ),
        ones(axis_mask(Axis::X, width, height, depth, least(k, axis_bits(width)))) == least(
            k,
            axis_bits(width),
        ),
        ones(axis_mask(Axis::Y, width, height, depth, least(k, axis_bits(height)))) == least(
            k,
            axis_bits(height),
        ),
        ones(axis_mask(Axis::Z, width, height, depth, least(k, axis_bits(depth)))) == least(
            k,
            axis_bits(depth),
        ),
    decreases k,
{
    if k == 0 {
        reveal(handed_out);
        lemma2_to64();
        lemma_empty_masks();
    } else {
        let j = (k - 1) as nat;
        lemma_rounds(width, height, depth, j);
        let x0 = axis_mask(Axis::X, width, height, depth, least(j, axis_bits(width)));
        let y0 = axis_mask(Axis::Y, width, height, depth, least(j, axis_bits(height)));
        let z0 = axis_mask(Axis::Z, width, height, depth, least(j, axis_bits(depth)));
        let p0 = cursor(width, height, depth, j);
        let x1 = axis_mask(Axis::X, width, height, depth, least(k, axis_bits(width)));
        let y1 = axis_mask(Axis::Y, width, height, depth, least(k, axis_bits(height)));
        let z1 = axis_mask(Axis::Z, width, height, depth, least(k, axis_bits(depth)));
        let p1 = slot(Axis::Y, width, height, depth, j);
        let p2 = slot(Axis::Z, width, height, depth, j);
        if j < axis_bits(width) {
            lemma_hand_out(Axis::X, x0, y0, z0, p0);
        }
        assert(handed_out(x1, y0, z0, p1));
        if j < axis_bits(height) {
            lemma_hand_out(Axis::Y, x1, y0, z0, p1);
        }
        assert(handed_out(x1, y1, z0, p2));
        if j < axis_bits(depth) {
            lemma_hand_out(Axis::Z, x1, y1, z0, p2);
        }
    }
}

/// The swizzle masks of a texture partition its address bits: they fit in 32
/// bits, no address bit belongs to two of them, and their exclusive or, their
/// union and their sum are the run of the low `total_bits` bits. Each mask has
/// as many bits as its axis takes.
pub proof fn lemma_masks_partition(width: nat, height: nat, depth: nat)
    requires
        total_bits(width, height, depth) < 32,
    ensures
        masks_for(width, height, depth).is_for(width, height, depth),
        masks_for(width, height, depth).disjoint(),
        masks_for(width, height, depth).x ^ masks_for(width, height, depth).y ^ masks_for(
            width,
            height,
            depth,
        ).z == pow2(total_bits(width, height, depth)) - 1,
        masks_for(width, height, depth).union() == pow2(total_bits(width, height, depth)) - 1,
        mask_of(Axis::X, width, height, depth) + mask_of(Axis::Y, width, height, depth) + mask_of(
            Axis::Z,
            width,
            height,
            depth,
        ) == pow2(total_bits(width, height, depth)) - 1,
        ones(mask_of(Axis::X, width, height, depth)) == axis_bits(width),
        ones(mask_of(Axis::Y, width, height, depth)) == axis_bits(height),
        ones(mask_of(Axis::Z, width, height, depth)) == axis_bits(depth),
{
    reveal(handed_out);
    lemma_rounds(width, height, depth, 32);
    let mask = masks_for(width, height, depth);
    lemma_disjoint_union(mask.x, mask.y, mask.z);
}

/// A swizzle mask that is the one of a texture is determined by the extents:
/// two such masks for the same extents are equal.
pub proof fn lemma_masks_determined(
    first: SwizzleMask,
    second: SwizzleMask,
    width: nat,
    height: nat,
    depth: nat,
)
    requires
        first.is_for(width, height, depth),
        second.is_for(width, height, depth),
    ensures
        first == second,
{
}

/// Derives the swizzle masks of a texture from its extents.
///
/// The three masks are pairwise disjoint and together cover exactly the low
/// `total_bits` address bits. The extents must leave the address within 32
/// bits: the bit after the last one handed out has to exist.
pub fn generate_swizzle_masks(width: u32, height: u32, depth: u32) -> (mask: SwizzleMask)
    requires
        total_bits(width as nat, height as nat, depth as nat) < 32,
    ensures
        mask == masks_for(width as nat, height as nat, depth as nat),
        mask.is_for(width as nat, height as nat, depth as nat),
        mask.disjoint(),
        mask.x ^ mask.y ^ mask.z == pow2(total_bits(width as nat, height as nat, depth as nat)) - 1,
{
    let mut x: u32 = 0;
    let mut y: u32 = 0;
    let mut z: u32 = 0;

    let mut bit: u32 = 1;
    let mut mask_bit: u32 = 1;

    let mut done = false;

    let ghost w = width as nat;
    let ghost h = height as nat;
    let ghost d = depth as nat;
    let ghost mut k: nat = 0;

    proof {
        lemma2_to64();
        lemma_empty_masks();
    }

    while !done
        invariant
            w == width,
            h == height,
            d == depth,
            total_bits(w, h, d) < 32,
            k <= 32,
            !done ==> k <= 31 && bit == pow2(k),
            done ==> k >= axis_bits(w) && k >= axis_bits(h) && k >= axis_bits(d),
            mask_bit == pow2(cursor(w, h, d, k)),
            x == axis_mask(Axis::X, w, h, d, least(k, axis_bits(w))),
            y == axis_mask(Axis::Y, w, h, d, least(k, axis_bits(h))),
            z == axis_mask(Axis::Z, w, h, d, least(k, axis_bits(d))),
        decreases 33 - k,
    {
        done = true;

        proof {
            lemma_axis_bits_counts_powers(w, k);
            lemma_axis_bits_counts_powers(h, k);
            lemma_axis_bits_counts_powers(d, k);
            lemma_rounds(w, h, d, k);
        }

        if bit < width {
            proof {
                lemma_hand_out(Axis::X, x as nat, y as nat, z as nat, cursor(w, h, d, k));
            }
            x = x | mask_bit;
            mask_bit = mask_bit << 1;
            done = false;
        }

        if bit < height {
            proof {
                lemma_hand_out(Axis::Y, x as nat, y as nat, z as nat, slot(Axis::Y, w, h, d, k));
            }
            y = y | mask_bit;
            mask_bit = mask_bit << 1;
            done = false;
        }

        if bit < depth {
            proof {
                lemma_hand_out(Axis::Z, x as nat, y as nat, z as nat, slot(Axis::Z, w, h, d, k));
            }
            z = z | mask_bit;
            mask_bit = mask_bit << 1;
            done = false;
        }

        proof {
            if !done {
                lemma_pow2_below_top(k);
                lemma_shl_one_doubles(bit);
                lemma_pow2_unfold(k + 1);
            }
            k = k + 1;
        }
        bit = bit << 1;
    }

    proof {
        lemma_masks_partition(w, h, d);
    }
    SwizzleMask { x, y, z }
}

/// The number of address bits of an extent, and two to that number: the
/// least power of two that is not below the extent.
fn covering_power(extent: u32) -> (covering: (u32, u64))
    ensures
        covering.0 == axis_bits(extent as nat),
        covering.0 <= 32,
        covering.1 == pow2(axis_bits(extent as nat)),
{
    let mut bits: u32 = 0;
    let mut power: u64 = 1;
    proof {
        lemma2_to64();
        lemma_axis_bits_bound(extent);
    }
    while power < extent as u64
        invariant
            bits <= axis_bits(extent as nat) <= 32,
            power == pow2(bits as nat),
        decreases axis_bits(extent as nat) - bits,
    {
        proof {
            lemma_axis_bits_counts_powers(extent as nat, bits as nat);
            lemma_pow2_unfold((bits + 1) as nat);
        }
        power = power * 2;
        bits = bits + 1;
    }
    proof {
        lemma_axis_bits_counts_powers(extent as nat, bits as nat);
    }
    (bits, power)
}

/// Number of address bits that an axis of the given extent takes.
pub fn address_bits(extent: u32) -> (bits: u32)
    ensures
        bits == axis_bits(extent as nat),
        bits <= 32,
{
    covering_power(extent).0
}

/// Whether `extent` is a power of two.
pub fn is_power_of_two(extent: u32) -> (yes: bool)
    ensures
        yes == power_of_two(extent as nat),
{
    proof {
        lemma_power_of_two_fills_bits(extent as nat);
    }
    covering_power(extent).1 == extent as u64
}

} // verus!
