//! Swizzled texel offsets: where the texel at a coordinate lies in a swizzled
//! texture.

use vstd::prelude::*;
use vstd::arithmetic::power2::pow2;
use crate::bits::{lemma_disjoint_parts, lemma_empty_masks, lemma_split_parts};
use crate::mask::{
    lemma_extent_fits_axis_bits, lemma_masks_partition, lemma_pow2_single_bit,
    lemma_power_of_two_fills_bits, lemma_power_of_two_texels, masks_for, power_of_two,
    total_bits, SwizzleMask,
};
use crate::pattern::{
    capacity, fill_pattern, gather, lemma_gather_below_capacity,
    lemma_gather_reads_within_pattern, lemma_gather_scatter, lemma_scatter_gather,
    lemma_scatter_increases, lemma_scatter_within_pattern, lemma_scatter_zero, scatter,
};

verus! {

/// Number of bytes of a texel.
pub const BYTES_PER_TEXEL: usize = 4;

/// Index of the texel at `(x, y, z)` in swizzled order: each coordinate is
/// scattered into the address bits of its axis, and the three are joined.
pub open spec fn swizzled_texel(mask: SwizzleMask, x: u32, y: u32, z: u32) -> u32 {
    (scatter(mask.x as nat, x as nat) as u32) | (scatter(mask.y as nat, y as nat) as u32) | (
    scatter(mask.z as nat, z as nat) as u32)
}

/// Byte offset of the texel at `(x, y, z)` in a swizzled texture.
pub open spec fn swizzled_offset(mask: SwizzleMask, x: u32, y: u32, z: u32) -> nat {
    4 * swizzled_texel(mask, x, y, z) as nat
}

/// Whatever the masks, the texel at the origin lies at offset 0.
pub proof fn lemma_origin_offset(mask: SwizzleMask)
    ensures
        swizzled_offset(mask, 0, 0, 0) == 0,
{
    lemma_scatter_zero(mask.x as nat);
    lemma_scatter_zero(mask.y as nat);
    lemma_scatter_zero(mask.z as nat);
    lemma_empty_masks();
}

/// With disjoint masks the swizzled texel index is the sum of the three
/// scattered coordinates, each of which can be read back from it through its
/// mask, and it has no bit outside the masks.
pub proof fn lemma_texel_parts(mask: SwizzleMask, x: u32, y: u32, z: u32)
    requires
        mask.disjoint(),
    ensures
        swizzled_texel(mask, x, y, z) == scatter(mask.x as nat, x as nat) + scatter(
            mask.y as nat,
            y as nat,
        ) + scatter(mask.z as nat, z as nat),
        swizzled_texel(mask, x, y, z) & mask.x == scatter(mask.x as nat, x as nat),
        swizzled_texel(mask, x, y, z) & mask.y == scatter(mask.y as nat, y as nat),
        swizzled_texel(mask, x, y, z) & mask.z == scatter(mask.z as nat, z as nat),
        swizzled_texel(mask, x, y, z) <= mask.union(),
{
    lemma_scatter_within_pattern(mask.x, x as nat);
    lemma_scatter_within_pattern(mask.y, y as nat);
    lemma_scatter_within_pattern(mask.z, z as nat);
    lemma_disjoint_parts(
        scatter(mask.x as nat, x as nat) as u32,
        scatter(mask.y as nat, y as nat) as u32,
        scatter(mask.z as nat, z as nat) as u32,
        mask.x,
        mask.y,
        mask.z,
    );
}

/// With disjoint masks, a coordinate that the masks can hold is gathered back
/// from its swizzled texel index through the masks: gathering is the inverse
/// of the offset map.
pub proof fn lemma_coordinate_from_texel(mask: SwizzleMask, x: u32, y: u32, z: u32)
    requires
        mask.disjoint(),
        x < capacity(mask.x as nat),
        y < capacity(mask.y as nat),
        z < capacity(mask.z as nat),
    ensures
        gather(mask.x as nat, swizzled_texel(mask, x, y, z) as nat) == x,
        gather(mask.y as nat, swizzled_texel(mask, x, y, z) as nat) == y,
        gather(mask.z as nat, swizzled_texel(mask, x, y, z) as nat) == z,
{
    let texel = swizzled_texel(mask, x, y, z);
    lemma_texel_parts(mask, x, y, z);
    lemma_gather_reads_within_pattern(mask.x, texel);
    lemma_gather_reads_within_pattern(mask.y, texel);
    lemma_gather_reads_within_pattern(mask.z, texel);
    lemma_gather_scatter(mask.x as nat, x as nat);
    lemma_gather_scatter(mask.y as nat, y as nat);
    lemma_gather_scatter(mask.z as nat, z as nat);
}

/// With disjoint masks, two coordinates that the masks can tell apart have
/// different swizzled texel indices: the offset map can be inverted.
pub proof fn lemma_texel_injective(
    mask: SwizzleMask,
    x1: u32,
    y1: u32,
    z1: u32,
    x2: u32,
    y2: u32,
    z2: u32,
)
    requires
        mask.disjoint(),
        x1 < capacity(mask.x as nat),
        x2 < capacity(mask.x as nat),
        y1 < capacity(mask.y as nat),
        y2 < capacity(mask.y as nat),
        z1 < capacity(mask.z as nat),
        z2 < capacity(mask.z as nat),
        swizzled_texel(mask, x1, y1, z1) == swizzled_texel(mask, x2, y2, z2),
    ensures
        x1 == x2,
        y1 == y2,
        z1 == z2,
{
    lemma_coordinate_from_texel(mask, x1, y1, z1);
    lemma_coordinate_from_texel(mask, x2, y2, z2);
}

/// With disjoint masks, the swizzled texel index does not fall when a
/// coordinate grows, as long as the masks can hold the coordinates.
pub proof fn lemma_texel_monotone(
    mask: SwizzleMask,
    x1: u32,
    y1: u32,
    z1: u32,
    x2: u32,
    y2: u32,
    z2: u32,
)
    requires
        mask.disjoint(),
        x1 <= x2 < capacity(mask.x as nat),
        y1 <= y2 < capacity(mask.y as nat),
        z1 <= z2 < capacity(mask.z as nat),
    ensures
        swizzled_texel(mask, x1, y1, z1) <= swizzled_texel(mask, x2, y2, z2),
{
    lemma_texel_parts(mask, x1, y1, z1);
    lemma_texel_parts(mask, x2, y2, z2);
    if x1 < x2 {
        lemma_scatter_increases(mask.x as nat, x1 as nat, x2 as nat);
    }
    if y1 < y2 {
        lemma_scatter_increases(mask.y as nat, y1 as nat, y2 as nat);
    }
    if z1 < z2 {
        lemma_scatter_increases(mask.z as nat, z1 as nat, z2 as nat);
    }
}

/// In a texture, the masks can hold every coordinate within the extents, and
/// every texel index lies below two to the number of address bits.
pub proof fn lemma_texel_in_texture(width: u32, height: u32, depth: u32, x: u32, y: u32, z: u32)
    requires
        total_bits(width as nat, height as nat, depth as nat) < 32,
        x < width,
        y < height,
        z < depth,
    ensures
        masks_for(width as nat, height as nat, depth as nat).disjoint(),
        x < capacity(masks_for(width as nat, height as nat, depth as nat).x as nat),
        y < capacity(masks_for(width as nat, height as nat, depth as nat).y as nat),
        z < capacity(masks_for(width as nat, height as nat, depth as nat).z as nat),
        swizzled_texel(masks_for(width as nat, height as nat, depth as nat), x, y, z) < pow2(
            total_bits(width as nat, height as nat, depth as nat),
        ),
{
    let mask = masks_for(width as nat, height as nat, depth as nat);
    lemma_masks_partition(width as nat, height as nat, depth as nat);
    lemma_extent_fits_axis_bits(width as nat);
    lemma_extent_fits_axis_bits(height as nat);
    lemma_extent_fits_axis_bits(depth as nat);
    lemma_texel_parts(mask, x, y, z);
}

/// In a texture whose extents are powers of two the texels tile the address
/// space: every texel index below the number of texels is the index of the
/// coordinate that is gathered from it through the masks, and that
/// coordinate lies within the extents.
pub proof fn lemma_texels_tile(width: u32, height: u32, depth: u32, texel: u32)
    requires
        power_of_two(width as nat),
        power_of_two(height as nat),
        power_of_two(depth as nat),
        total_bits(width as nat, height as nat, depth as nat) < 32,
        texel < width * height * depth,
    ensures
        gather(masks_for(width as nat, height as nat, depth as nat).x as nat, texel as nat)
            < width,
        gather(masks_for(width as nat, height as nat, depth as nat).y as nat, texel as nat)
            < height,
        gather(masks_for(width as nat, height as nat, depth as nat).z as nat, texel as nat)
            < depth,
        swizzled_texel(
            masks_for(width as nat, height as nat, depth as nat),
            gather(masks_for(width as nat, height as nat, depth as nat).x as nat, texel as nat) as u32,
            gather(masks_for(width as nat, height as nat, depth as nat).y as nat, texel as nat) as u32,
            gather(masks_for(width as nat, height as nat, depth as nat).z as nat, texel as nat) as u32,
        ) == texel,
{
    let (w, h, d) = (width as nat, height as nat, depth as nat);
    let mask = masks_for(w, h, d);
    lemma_masks_partition(w, h, d);
    lemma_power_of_two_texels(w, h, d);
    lemma_power_of_two_fills_bits(w);
    lemma_power_of_two_fills_bits(h);
    lemma_power_of_two_fills_bits(d);
    lemma_gather_below_capacity(mask.x as nat, texel as nat);
    lemma_gather_below_capacity(mask.y as nat, texel as nat);
    lemma_gather_below_capacity(mask.z as nat, texel as nat);
    lemma_scatter_gather(mask.x, texel);
    lemma_scatter_gather(mask.y, texel);
    lemma_scatter_gather(mask.z, texel);
    lemma_pow2_single_bit(total_bits(w, h, d));
    lemma_split_parts(texel, mask.x, mask.y, mask.z, pow2(total_bits(w, h, d)) as u32);
}

/// Byte offset of the texel at `(x, y, z)` in a swizzled texture with the
/// given masks.
pub fn get_swizzled_offset(x: u32, y: u32, z: u32, mask: &SwizzleMask) -> (offset: usize)
    requires
        swizzled_offset(*mask, x, y, z) <= usize::MAX,
    ensures
        offset == swizzled_offset(*mask, x, y, z),
{
    proof {
        lemma_scatter_within_pattern(mask.x, x as nat);
        lemma_scatter_within_pattern(mask.y, y as nat);
        lemma_scatter_within_pattern(mask.z, z as nat);
    }
    let texel = fill_pattern(mask.x, x) | fill_pattern(mask.y, y) | fill_pattern(mask.z, z);
    (texel as usize) * BYTES_PER_TEXEL
}

} // verus!
