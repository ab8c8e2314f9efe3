//! Copying a linear image into a swizzled texture and back.
//!
//! A linear image holds its texels row by row, `row_pitch` texels from one
//! row to the next, four bytes per texel in the order red, green, blue,
//! alpha. A swizzled texture holds the texel at `(x, y, z)` at its swizzled
//! offset, in the order blue, green, red, alpha.

use vstd::prelude::*;
use vstd::arithmetic::power2::{
    lemma2_to64, lemma_pow2_pos, lemma_pow2_strictly_increases, pow2,
};
use crate::mask::{
    address_bits, generate_swizzle_masks, is_power_of_two, lemma_power_of_two_texels, masks_for,
    power_of_two, total_bits, SwizzleMask,
};
use crate::offset::{
    get_swizzled_offset, lemma_texel_in_texture, lemma_texel_injective, lemma_texel_monotone,
    lemma_texels_tile, swizzled_offset, swizzled_texel,
};
use crate::pattern::gather;

verus! {

/// Byte offset of the texel at `(x, y)` in a linear image whose rows lie
/// `row_pitch` texels apart.
pub open spec fn linear_offset(row_pitch: u32, x: u32, y: u32) -> nat {
    4 * (y as nat * row_pitch as nat + x as nat)
}

/// The four bytes of `dst` at `to` are the four bytes of `src` at `from` with
/// the first and the third exchanged: red and blue change places, green and
/// alpha stay.
pub open spec fn texel_swapped(dst: Seq<u8>, to: int, src: Seq<u8>, from: int) -> bool {
    &&& 0 <= to && to + 4 <= dst.len()
    &&& 0 <= from && from + 4 <= src.len()
    &&& dst[to] == src[from + 2]
    &&& dst[to + 1] == src[from + 1]
    &&& dst[to + 2] == src[from]
    &&& dst[to + 3] == src[from + 3]
}

/// The masks of the texture with these extents.
pub open spec fn texture_masks(width: u32, height: u32, depth: u32) -> SwizzleMask {
    masks_for(width as nat, height as nat, depth as nat)
}

/// A buffer of `length` bytes holds every texel of a linear image with these
/// extents: the image has a texel, and the buffer reaches to the end of the
/// last texel of the last row.
pub open spec fn holds_image(length: nat, width: u32, height: u32, row_pitch: u32) -> bool {
    &&& width >= 1
    &&& height >= 1
    &&& linear_offset(row_pitch, (width - 1) as u32, (height - 1) as u32) + 4 <= length
}

/// A buffer of `length` bytes holds the first `slices` slices of a swizzled
/// texture with these extents: the texture has a texel, its texels can be
/// addressed with less than 32 bits, and the buffer reaches to the end of the
/// texel that lies farthest, the last texel of the last of these slices.
pub open spec fn holds_slices(
    length: nat,
    width: u32,
    height: u32,
    depth: u32,
    slices: u32,
) -> bool {
    &&& width >= 1
    &&& height >= 1
    &&& 1 <= slices <= depth
    &&& total_bits(width as nat, height as nat, depth as nat) < 32
    &&& swizzled_offset(
        texture_masks(width, height, depth),
        (width - 1) as u32,
        (height - 1) as u32,
        (slices - 1) as u32,
    ) + 4 <= length
}

/// Whether byte `j` of a swizzled texture belongs to a texel with coordinates
/// within the extents.
pub open spec fn in_texture(width: u32, height: u32, depth: u32, j: int) -> bool {
    exists|x: u32, y: u32, z: u32|
        x < width && y < height && z < depth && #[trigger] swizzled_offset(
            texture_masks(width, height, depth),
            x,
            y,
            z,
        ) == 4 * (j / 4)
}

/// `swizzled` is what `before` becomes when the linear image `linear` is
/// copied into it: the texel at `(x, y, z)` holds the texel of the image at
/// `(x, y)`, red and blue exchanged, and the bytes that belong to no texel
/// within the extents are those of `before`.
pub open spec fn swizzled_from(
    swizzled: Seq<u8>,
    before: Seq<u8>,
    linear: Seq<u8>,
    width: u32,
    height: u32,
    depth: u32,
    row_pitch: u32,
) -> bool {
    &&& swizzled.len() == before.len()
    &&& forall|x: u32, y: u32, z: u32|
        x < width && y < height && z < depth ==> texel_swapped(
            swizzled,
            #[trigger] swizzled_offset(texture_masks(width, height, depth), x, y, z) as int,
            linear,
            linear_offset(row_pitch, x, y) as int,
        )
    &&& forall|j: int|
        0 <= j < swizzled.len() && !in_texture(width, height, depth, j) ==> #[trigger] swizzled[j]
            == before[j]
}

/// Whether the copy reaches `(x, y, z)` before `(x0, y0, z0)`: it goes
/// through the slices in turn, through the rows of a slice in turn, and along
/// each row.
spec fn precedes(x: u32, y: u32, z: u32, x0: int, y0: int, z0: int) -> bool {
    z < z0 || (z == z0 && (y < y0 || (y == y0 && x < x0)))
}

/// Whether byte `j` of a swizzled texture belongs to a texel that the copy
/// reaches before `(x0, y0, z0)`.
spec fn reached(width: u32, height: u32, depth: u32, x0: int, y0: int, z0: int, j: int) -> bool {
    exists|x: u32, y: u32, z: u32|
        x < width && y < height && z < depth && precedes(x, y, z, x0, y0, z0)
            && #[trigger] swizzled_offset(texture_masks(width, height, depth), x, y, z) == 4 * (j
            / 4)
}

/// State of the swizzled texture when the copy is about to reach
/// `(x0, y0, z0)`.
spec fn swizzled_up_to(
    swizzled: Seq<u8>,
    before: Seq<u8>,
    linear: Seq<u8>,
    width: u32,
    height: u32,
    depth: u32,
    row_pitch: u32,
    x0: int,
    y0: int,
    z0: int,
) -> bool {
    &&& swizzled.len() == before.len()
    &&& forall|x: u32, y: u32, z: u32|
        x < width && y < height && z < depth && precedes(x, y, z, x0, y0, z0) ==> texel_swapped(
            swizzled,
            #[trigger] swizzled_offset(texture_masks(width, height, depth), x, y, z) as int,
            linear,
            linear_offset(row_pitch, x, y) as int,
        )
    &&& forall|j: int|
        0 <= j < swizzled.len() && !reached(width, height, depth, x0, y0, z0, j)
            ==> #[trigger] swizzled[j] == before[j]
}

/// Copying one more texel takes the swizzled texture from the state before
/// `(x0, y0, z0)` to the state before the next texel of the row.
proof fn lemma_swizzle_step(
    after: Seq<u8>,
    swizzled: Seq<u8>,
    before: Seq<u8>,
    linear: Seq<u8>,
    width: u32,
    height: u32,
    depth: u32,
    row_pitch: u32,
    x0: u32,
    y0: u32,
    z0: u32,
)
    requires
        total_bits(width as nat, height as nat, depth as nat) < 32,
        x0 < width,
        y0 < height,
        z0 < depth,
        swizzled_up_to(
            swizzled,
            before,
            linear,
            width,
            height,
            depth,
            row_pitch,
            x0 as int,
            y0 as int,
            z0 as int,
        ),
        after.len() == swizzled.len(),
        texel_swapped(
            after,
            swizzled_offset(texture_masks(width, height, depth), x0, y0, z0) as int,
            linear,
            linear_offset(row_pitch, x0, y0) as int,
        ),
        forall|j: int|
            0 <= j < after.len() && 4 * (j / 4) != swizzled_offset(
                texture_masks(width, height, depth),
                x0,
                y0,
                z0,
            ) ==> #[trigger] after[j] == swizzled[j],
    ensures
        swizzled_up_to(
            after,
            before,
            linear,
            width,
            height,
            depth,
            row_pitch,
            x0 + 1,
            y0 as int,
            z0 as int,
        ),
{
    let mask = texture_masks(width, height, depth);
    let here = swizzled_offset(mask, x0, y0, z0);
    assert forall|x: u32, y: u32, z: u32|
        x < width && y < height && z < depth && precedes(
            x,
            y,
            z,
            x0 + 1,
            y0 as int,
            z0 as int,
        ) implies texel_swapped(
        after,
        #[trigger] swizzled_offset(mask, x, y, z) as int,
        linear,
        linear_offset(row_pitch, x, y) as int,
    ) by {
        if x == x0 && y == y0 && z == z0 {
        } else {
            lemma_texel_in_texture(width, height, depth, x, y, z);
            lemma_texel_in_texture(width, height, depth, x0, y0, z0);
            if swizzled_texel(mask, x, y, z) == swizzled_texel(mask, x0, y0, z0) {
                lemma_texel_injective(mask, x, y, z, x0, y0, z0);
            }
            let there = swizzled_offset(mask, x, y, z) as int;
            assert(precedes(x, y, z, x0 as int, y0 as int, z0 as int));
            assert(texel_swapped(swizzled, there, linear, linear_offset(row_pitch, x, y) as int));
            assert(after[there] == swizzled[there]);
            assert(after[there + 1] == swizzled[there + 1]);
            assert(after[there + 2] == swizzled[there + 2]);
            assert(after[there + 3] == swizzled[there + 3]);
        }
    }
    assert forall|j: int|
        0 <= j < after.len() && !reached(
            width,
            height,
            depth,
            x0 + 1,
            y0 as int,
            z0 as int,
            j,
        ) implies #[trigger] after[j] == before[j] by {
        assert(precedes(x0, y0, z0, x0 + 1, y0 as int, z0 as int));
        assert(swizzled_offset(mask, x0, y0, z0) != 4 * (j / 4));
        if reached(width, height, depth, x0 as int, y0 as int, z0 as int, j) {
            let (x, y, z) = choose|x: u32, y: u32, z: u32|
                x < width && y < height && z < depth && precedes(
                    x,
                    y,
                    z,
                    x0 as int,
                    y0 as int,
                    z0 as int,
                ) && #[trigger] swizzled_offset(mask, x, y, z) == 4 * (j / 4);
            assert(precedes(x, y, z, x0 + 1, y0 as int, z0 as int));
        }
        assert(after[j] == swizzled[j]);
    }
}

/// Copies a linear image into a swizzled texture.
///
/// For every coordinate within the extents, the texel of `src_buf` at
/// `(x, y)` is copied to the swizzled offset of `(x, y, z)` in `dst_buf`, red
/// and blue exchanged. Every slice of the texture receives the same image.
/// The other bytes of `dst_buf` and the whole of `src_buf` stay as they are.
///
/// `src_buf` must hold the image and `dst_buf` all the slices of the texture.
pub fn swizzle_box(
    src_buf: &mut Vec<u8>,
    width: u32,
    height: u32,
    depth: u32,
    dst_buf: &mut Vec<u8>,
    row_pitch: u32,
)
    requires
        holds_image(old(src_buf)@.len(), width, height, row_pitch),
        holds_slices(old(dst_buf)@.len(), width, height, depth, depth),
    ensures
        final(src_buf)@ == old(src_buf)@,
        swizzled_from(
            final(dst_buf)@,
            old(dst_buf)@,
            old(src_buf)@,
            width,
            height,
            depth,
            row_pitch,
        ),
{
    let mask = generate_swizzle_masks(width, height, depth);
    let ghost linear = src_buf@;
    let ghost before = dst_buf@;
    proof {
        assert(linear.len() == src_buf.len());
        assert(before.len() == dst_buf.len());
    }

    for z in 0..depth
        invariant
            mask == texture_masks(width, height, depth),
            src_buf@ == linear,
            linear.len() <= usize::MAX,
            before.len() <= usize::MAX,
            holds_image(linear.len(), width, height, row_pitch),
            holds_slices(before.len(), width, height, depth, depth),
            swizzled_up_to(
                dst_buf@,
                before,
                linear,
                width,
                height,
                depth,
                row_pitch,
                0,
                0,
                z as int,
            ),
    {
        for y in 0..height
            invariant
                z < depth,
                mask == texture_masks(width, height, depth),
                src_buf@ == linear,
                linear.len() <= usize::MAX,
                before.len() <= usize::MAX,
                holds_image(linear.len(), width, height, row_pitch),
                holds_slices(before.len(), width, height, depth, depth),
                swizzled_up_to(
                    dst_buf@,
                    before,
                    linear,
                    width,
                    height,
                    depth,
                    row_pitch,
                    0,
                    y as int,
                    z as int,
                ),
        {
            for x in 0..width
                invariant
                    z < depth,
                    y < height,
                    mask == texture_masks(width, height, depth),
                    src_buf@ == linear,
                    linear.len() <= usize::MAX,
                    before.len() <= usize::MAX,
                    holds_image(linear.len(), width, height, row_pitch),
                    holds_slices(before.len(), width, height, depth, depth),
                    swizzled_up_to(
                        dst_buf@,
                        before,
                        linear,
                        width,
                        height,
                        depth,
                        row_pitch,
                        x as int,
                        y as int,
                        z as int,
                    ),
            {
                let ghost swizzled = dst_buf@;
                proof {
                    lemma_within_buffers(width, height, depth, depth, row_pitch, x, y, z);
                }
                let left = get_swizzled_offset(x, y, z, &mask);
                let right = ((y as usize) * (row_pitch as usize) + (x as usize)) * 4;

                // red
                dst_buf[left + 2] = src_buf[right];
                // green
                dst_buf[left + 1] = src_buf[right + 1];
                // blue
                dst_buf[left] = src_buf[right + 2];
                // alpha
                dst_buf[left + 3] = src_buf[right + 3];

                proof {
                    lemma_swizzle_step(
                        dst_buf@,
                        swizzled,
                        before,
                        linear,
                        width,
                        height,
                        depth,
                        row_pitch,
                        x,
                        y,
                        z,
                    );
                }
            }
            proof {
                lemma_row_done(dst_buf@, before, linear, width, height, depth, row_pitch, y, z);
            }
        }
        proof {
            lemma_slice_done(dst_buf@, before, linear, width, height, depth, row_pitch, z);
        }
    }
    proof {
        lemma_all_done(dst_buf@, before, linear, width, height, depth, row_pitch);
    }
}

/// No texel within the extents lies farther in a linear image than the last
/// texel of the last row, and none within the first `slices` slices lies
/// farther in the swizzled texture than the last texel of the last of them.
pub proof fn lemma_within_buffers(
    width: u32,
    height: u32,
    depth: u32,
    slices: u32,
    row_pitch: u32,
    x: u32,
    y: u32,
    z: u32,
)
    requires
        total_bits(width as nat, height as nat, depth as nat) < 32,
        x < width,
        y < height,
        z < slices <= depth,
    ensures
        linear_offset(row_pitch, x, y) <= linear_offset(
            row_pitch,
            (width - 1) as u32,
            (height - 1) as u32,
        ),
        swizzled_offset(texture_masks(width, height, depth), x, y, z) <= swizzled_offset(
            texture_masks(width, height, depth),
            (width - 1) as u32,
            (height - 1) as u32,
            (slices - 1) as u32,
        ),
{
    let last_x = (width - 1) as u32;
    let last_y = (height - 1) as u32;
    let last_z = (slices - 1) as u32;
    lemma_texel_in_texture(width, height, depth, x, y, z);
    lemma_texel_in_texture(width, height, depth, last_x, last_y, last_z);
    lemma_texel_monotone(texture_masks(width, height, depth), x, y, z, last_x, last_y, last_z);
    assert(y * row_pitch <= (height - 1) * row_pitch) by (nonlinear_arith)
        requires
            y <= height - 1,
    ;
}

/// At the end of a row the copy stands before the first texel of the next
/// row.
proof fn lemma_row_done(
    swizzled: Seq<u8>,
    before: Seq<u8>,
    linear: Seq<u8>,
    width: u32,
    height: u32,
    depth: u32,
    row_pitch: u32,
    y0: u32,
    z0: u32,
)
    requires
        swizzled_up_to(
            swizzled,
            before,
            linear,
            width,
            height,
            depth,
            row_pitch,
            width as int,
            y0 as int,
            z0 as int,
        ),
    ensures
        swizzled_up_to(
            swizzled,
            before,
            linear,
            width,
            height,
            depth,
            row_pitch,
            0,
            y0 + 1,
            z0 as int,
        ),
{
    let mask = texture_masks(width, height, depth);
    assert forall|x: u32, y: u32, z: u32|
        x < width && y < height && z < depth implies (precedes(x, y, z, 0, y0 + 1, z0 as int)
        <==> precedes(x, y, z, width as int, y0 as int, z0 as int)) by {}
    assert forall|j: int|
        0 <= j < swizzled.len() && !reached(
            width,
            height,
            depth,
            0,
            y0 + 1,
            z0 as int,
            j,
        ) implies #[trigger] swizzled[j] == before[j] by {
        if reached(width, height, depth, width as int, y0 as int, z0 as int, j) {
            let (x, y, z) = choose|x: u32, y: u32, z: u32|
                x < width && y < height && z < depth && precedes(
                    x,
                    y,
                    z,
                    width as int,
                    y0 as int,
                    z0 as int,
                ) && #[trigger] swizzled_offset(mask, x, y, z) == 4 * (j / 4);
            assert(precedes(x, y, z, 0, y0 + 1, z0 as int));
        }
    }
}

/// At the end of a slice the copy stands before the first texel of the next
/// slice.
proof fn lemma_slice_done(
    swizzled: Seq<u8>,
    before: Seq<u8>,
    linear: Seq<u8>,
    width: u32,
    height: u32,
    depth: u32,
    row_pitch: u32,
    z0: u32,
)
    requires
        swizzled_up_to(
            swizzled,
            before,
            linear,
            width,
            height,
            depth,
            row_pitch,
            0,
            height as int,
            z0 as int,
        ),
    ensures
        swizzled_up_to(swizzled, before, linear, width, height, depth, row_pitch, 0, 0, z0 + 1),
{
    let mask = texture_masks(width, height, depth);
    assert forall|x: u32, y: u32, z: u32|
        x < width && y < height && z < depth implies (precedes(x, y, z, 0, 0, z0 + 1)
        <==> precedes(x, y, z, 0, height as int, z0 as int)) by {}
    assert forall|j: int|
        0 <= j < swizzled.len() && !reached(
            width,
            height,
            depth,
            0,
            0,
            z0 + 1,
            j,
        ) implies #[trigger] swizzled[j] == before[j] by {
        if reached(width, height, depth, 0, height as int, z0 as int, j) {
            let (x, y, z) = choose|x: u32, y: u32, z: u32|
                x < width && y < height && z < depth && precedes(
                    x,
                    y,
                    z,
                    0,
                    height as int,
                    z0 as int,
                ) && #[trigger] swizzled_offset(mask, x, y, z) == 4 * (j / 4);
            assert(precedes(x, y, z, 0, 0, z0 + 1));
        }
    }
}

/// After the last slice every texel within the extents has been copied.
proof fn lemma_all_done(
    swizzled: Seq<u8>,
    before: Seq<u8>,
    linear: Seq<u8>,
    width: u32,
    height: u32,
    depth: u32,
    row_pitch: u32,
)
    requires
        swizzled_up_to(
            swizzled,
            before,
            linear,
            width,
            height,
            depth,
            row_pitch,
            0,
            0,
            depth as int,
        ),
    ensures
        swizzled_from(swizzled, before, linear, width, height, depth, row_pitch),
{
    let mask = texture_masks(width, height, depth);
    assert forall|x: u32, y: u32, z: u32|
        x < width && y < height && z < depth implies precedes(x, y, z, 0, 0, depth as int) by {}
    assert forall|j: int|
        0 <= j < swizzled.len() && !in_texture(
            width,
            height,
            depth,
            j,
        ) implies #[trigger] swizzled[j] == before[j] by {
        if reached(width, height, depth, 0, 0, depth as int, j) {
            let (x, y, z) = choose|x: u32, y: u32, z: u32|
                x < width && y < height && z < depth && precedes(x, y, z, 0, 0, depth as int)
                    && #[trigger] swizzled_offset(mask, x, y, z) == 4 * (j / 4);
            assert(in_texture(width, height, depth, j));
        }
    }
}

/// Why an image is not swizzled.
#[derive(Clone, Copy, Debug, PartialEq, Eq, Structural)]
pub enum SwizzleError {
    /// An extent is not a power of two.
    NotPowerOfTwo { width: u32, height: u32, depth: u32 },
    /// The image has more than one slice, and a linear image holds only one.
    UnsupportedDepth { depth: u32 },
    /// The texels take 32 address bits or more; a swizzle mask holds 31.
    TooLarge { width: u32, height: u32 },
    /// The rows of the image are shorter than its width.
    RowPitchTooSmall { row_pitch: u32, width: u32 },
    /// The image does not have four bytes for each texel of each row.
    LengthMismatch { row_pitch: u32, height: u32, length: usize },
}

/// The first reason, in the order of the variants, for which an image of
/// `length` bytes is not swizzled, or `None` if there is none.
pub open spec fn swizzle_refusal(
    length: nat,
    width: u32,
    height: u32,
    depth: u32,
    row_pitch: u32,
) -> Option<SwizzleError> {
    if !(power_of_two(width as nat) && power_of_two(height as nat) && power_of_two(depth as nat)) {
        Some(SwizzleError::NotPowerOfTwo { width, height, depth })
    } else if depth != 1 {
        Some(SwizzleError::UnsupportedDepth { depth })
    } else if total_bits(width as nat, height as nat, depth as nat) >= 32 {
        Some(SwizzleError::TooLarge { width, height })
    } else if row_pitch < width {
        Some(SwizzleError::RowPitchTooSmall { row_pitch, width })
    } else if length != 4 * row_pitch * height {
        Some(SwizzleError::LengthMismatch { row_pitch, height, length: length as usize })
    } else {
        None
    }
}

/// A buffer with four bytes for each texel that the address bits can tell
/// apart holds all the slices of the texture.
pub proof fn lemma_whole_texture_holds_slices(length: nat, width: u32, height: u32, depth: u32)
    requires
        width >= 1,
        height >= 1,
        depth >= 1,
        total_bits(width as nat, height as nat, depth as nat) < 32,
        4 * pow2(total_bits(width as nat, height as nat, depth as nat)) <= length,
    ensures
        holds_slices(length, width, height, depth, depth),
{
    lemma_texel_in_texture(
        width,
        height,
        depth,
        (width - 1) as u32,
        (height - 1) as u32,
        (depth - 1) as u32,
    );
}

/// A buffer with four bytes for each texel of each row, the rows at least as
/// long as the width, holds the image.
pub proof fn lemma_whole_rows_hold_image(length: nat, width: u32, height: u32, row_pitch: u32)
    requires
        1 <= width <= row_pitch,
        height >= 1,
        4 * (row_pitch * height) <= length,
    ensures
        holds_image(length, width, height, row_pitch),
{
    assert((height - 1) * row_pitch + row_pitch == row_pitch * height) by (nonlinear_arith);
}

/// In a texture whose extents are powers of two, every byte of the four
/// bytes for each texel belongs to a texel within the extents: swizzling
/// writes all of them.
pub proof fn lemma_power_of_two_texture_is_covered(width: u32, height: u32, depth: u32, j: int)
    requires
        power_of_two(width as nat),
        power_of_two(height as nat),
        power_of_two(depth as nat),
        total_bits(width as nat, height as nat, depth as nat) < 32,
        0 <= j < 4 * (width * height * depth),
    ensures
        in_texture(width, height, depth, j),
{
    let mask = texture_masks(width, height, depth);
    lemma_power_of_two_texels(width as nat, height as nat, depth as nat);
    lemma_pow2_strictly_increases(total_bits(width as nat, height as nat, depth as nat), 32);
    lemma2_to64();
    let texel = (j / 4) as u32;
    lemma_texels_tile(width, height, depth, texel);
    let x = gather(mask.x as nat, texel as nat) as u32;
    let y = gather(mask.y as nat, texel as nat) as u32;
    let z = gather(mask.z as nat, texel as nat) as u32;
    assert(swizzled_offset(mask, x, y, z) == 4 * (j / 4));
}

/// An image that `swizzle` accepts and a texture of the same length are
/// buffers that `swizzle_box` can work on.
proof fn lemma_accepted_image_fits(length: nat, width: u32, height: u32, row_pitch: u32)
    requires
        swizzle_refusal(length, width, height, 1, row_pitch) is None,
    ensures
        holds_image(length, width, height, row_pitch),
        holds_slices(length, width, height, 1, 1),
{
    lemma_power_of_two_texels(width as nat, height as nat, 1);
    lemma_pow2_pos(total_bits(width as nat, height as nat, 1));
    assert(width >= 1 && height >= 1) by (nonlinear_arith)
        requires
            width * height * 1 > 0,
    ;
    assert(width * height <= row_pitch * height) by (nonlinear_arith)
        requires
            width <= row_pitch,
    ;
    assert(4 * row_pitch * height == 4 * (row_pitch * height)) by (nonlinear_arith);
    lemma_whole_rows_hold_image(length, width, height, row_pitch);
    lemma_whole_texture_holds_slices(length, width, height, 1);
}

/// Swizzles a linear image into a new texture of the same length.
///
/// The image is swizzled if its extents are powers of two, it has one slice,
/// its texels can be addressed, its rows are at least as long as its width
/// and it holds four bytes for each texel of each row. It is then left as it
/// is, and the texture holds the texel of the image at `(x, y)` at the
/// swizzled offset of `(x, y, 0)`, red and blue exchanged, and zero in the
/// bytes that belong to no texel. Otherwise the error names the first of
/// these conditions that fails, and the image is left as it is.
pub fn swizzle(
    source: &mut Vec<u8>,
    width: u32,
    height: u32,
    depth: u32,
    row_pitch: u32,
) -> (result: Result<Vec<u8>, SwizzleError>)
    ensures
        final(source)@ == old(source)@,
        match result {
            Ok(texture) => {
                &&& swizzle_refusal(old(source)@.len(), width, height, depth, row_pitch) is None
                &&& swizzled_from(
                    texture@,
                    Seq::new(old(source)@.len(), |j: int| 0u8),
                    old(source)@,
                    width,
                    height,
                    depth,
                    row_pitch,
                )
            },
            Err(error) => swizzle_refusal(old(source)@.len(), width, height, depth, row_pitch)
                == Some(error),
        },
{
    let length = source.len();
    if !(is_power_of_two(width) && is_power_of_two(height) && is_power_of_two(depth)) {
        return Err(SwizzleError::NotPowerOfTwo { width, height, depth });
    }
    if depth != 1 {
        return Err(SwizzleError::UnsupportedDepth { depth });
    }
    if address_bits(width) + address_bits(height) + address_bits(depth) >= 32 {
        return Err(SwizzleError::TooLarge { width, height });
    }
    if row_pitch < width {
        return Err(SwizzleError::RowPitchTooSmall { row_pitch, width });
    }
    assert(4 * row_pitch * height <= 4 * 0xFFFF_FFFF * 0xFFFF_FFFF) by (nonlinear_arith)
        requires
            row_pitch <= 0xFFFF_FFFF,
            height <= 0xFFFF_FFFF,
    ;
    if length as u128 != 4 * (row_pitch as u128) * (height as u128) {
        return Err(SwizzleError::LengthMismatch { row_pitch, height, length });
    }
    proof {
        lemma_accepted_image_fits(length as nat, width, height, row_pitch);
    }
    let mut texture: Vec<u8> = vec![0u8; length];
    assert(texture@ =~= Seq::new(length as nat, |j: int| 0u8));
    swizzle_box(source, width, height, depth, &mut texture, row_pitch);
    Ok(texture)
}

} // verus!
