//! Copying a swizzled texture back into a linear image, and the law that this
//! undoes the swizzling.

use vstd::prelude::*;
use vstd::arithmetic::div_mod::{
    lemma_div_pos_is_pos, lemma_fundamental_div_mod, lemma_multiply_divide_lt,
};
use crate::mask::generate_swizzle_masks;
use crate::offset::{get_swizzled_offset, swizzled_offset};
use crate::swizzle::{
    holds_image, holds_slices, lemma_within_buffers, linear_offset, swizzled_from, texel_swapped,
    texture_masks,
};

verus! {

/// Whether byte `j` of a linear image belongs to a texel with coordinates
/// within the extents.
pub open spec fn in_image(width: u32, height: u32, row_pitch: u32, j: int) -> bool {
    exists|x: u32, y: u32|
        x < width && y < height && #[trigger] linear_offset(row_pitch, x, y) == 4 * (j / 4)
}

/// `linear` is what `before` becomes when the first slice of the texture
/// `swizzled` is copied back into it: the texel at `(x, y)` holds the texel of
/// the texture at `(x, y, 0)`, red and blue exchanged, and the bytes that
/// belong to no texel within the extents are those of `before`.
pub open spec fn unswizzled_from(
    linear: Seq<u8>,
    before: Seq<u8>,
    swizzled: Seq<u8>,
    width: u32,
    height: u32,
    depth: u32,
    row_pitch: u32,
) -> bool {
    &&& linear.len() == before.len()
    &&& forall|x: u32, y: u32|
        x < width && y < height ==> texel_swapped(
            linear,
            #[trigger] linear_offset(row_pitch, x, y) as int,
            swizzled,
            swizzled_offset(texture_masks(width, height, depth), x, y, 0) as int,
        )
    &&& forall|j: int|
        0 <= j < linear.len() && !in_image(width, height, row_pitch, j) ==> #[trigger] linear[j]
            == before[j]
}

/// Whether the copy back reaches `(x, y)` before `(x0, y0)`.
spec fn precedes_in_image(x: u32, y: u32, x0: int, y0: int) -> bool {
    y < y0 || (y == y0 && x < x0)
}

/// Whether byte `j` of a linear image belongs to a texel that the copy back
/// reaches before `(x0, y0)`.
spec fn reached_in_image(width: u32, height: u32, row_pitch: u32, x0: int, y0: int, j: int) -> bool {
    exists|x: u32, y: u32|
        x < width && y < height && precedes_in_image(x, y, x0, y0) && #[trigger] linear_offset(
            row_pitch,
            x,
            y,
        ) == 4 * (j / 4)
}

/// State of the linear image when the copy back is about to reach
/// `(x0, y0)`.
spec fn unswizzled_up_to(
    linear: Seq<u8>,
    before: Seq<u8>,
    swizzled: Seq<u8>,
    width: u32,
    height: u32,
    depth: u32,
    row_pitch: u32,
    x0: int,
    y0: int,
) -> bool {
    &&& linear.len() == before.len()
    &&& forall|x: u32, y: u32|
        x < width && y < height && precedes_in_image(x, y, x0, y0) ==> texel_swapped(
            linear,
            #[trigger] linear_offset(row_pitch, x, y) as int,
            swizzled,
            swizzled_offset(texture_masks(width, height, depth), x, y, 0) as int,
        )
    &&& forall|j: int|
        0 <= j < linear.len() && !reached_in_image(width, height, row_pitch, x0, y0, j)
            ==> #[trigger] linear[j] == before[j]
}

/// In a linear image whose rows are at least as long as its width, texels at
/// different coordinates lie at different offsets.
pub proof fn lemma_linear_offset_injective(
    width: u32,
    row_pitch: u32,
    x1: u32,
    y1: u32,
    x2: u32,
    y2: u32,
)
    requires
        width <= row_pitch,
        x1 < width,
        x2 < width,
    ensures
        linear_offset(row_pitch, x1, y1) == linear_offset(row_pitch, x2, y2) ==> x1 == x2 && y1
            == y2,
{
    if y1 < y2 {
        assert((y1 + 1) * row_pitch <= y2 * row_pitch) by (nonlinear_arith)
            requires
                y1 + 1 <= y2,
        ;
        assert((y1 + 1) * row_pitch == y1 * row_pitch + row_pitch) by (nonlinear_arith);
    }
    if y2 < y1 {
        assert((y2 + 1) * row_pitch <= y1 * row_pitch) by (nonlinear_arith)
            requires
                y2 + 1 <= y1,
        ;
        assert((y2 + 1) * row_pitch == y2 * row_pitch + row_pitch) by (nonlinear_arith);
    }
}

/// Copying one more texel back takes the linear image from the state before
/// `(x0, y0)` to the state before the next texel of the row.
proof fn lemma_unswizzle_step(
    after: Seq<u8>,
    linear: Seq<u8>,
    before: Seq<u8>,
    swizzled: Seq<u8>,
    width: u32,
    height: u32,
    depth: u32,
    row_pitch: u32,
    x0: u32,
    y0: u32,
)
    requires
        width <= row_pitch,
        x0 < width,
        y0 < height,
        unswizzled_up_to(
            linear,
            before,
            swizzled,
            width,
            height,
            depth,
            row_pitch,
            x0 as int,
            y0 as int,
        ),
        after.len() == linear.len(),
        texel_swapped(
            after,
            linear_offset(row_pitch, x0, y0) as int,
            swizzled,
            swizzled_offset(texture_masks(width, height, depth), x0, y0, 0) as int,
        ),
        forall|j: int|
            0 <= j < after.len() && 4 * (j / 4) != linear_offset(row_pitch, x0, y0)
                ==> #[trigger] after[j] == linear[j],
    ensures
        unswizzled_up_to(
            after,
            before,
            swizzled,
            width,
            height,
            depth,
            row_pitch,
            x0 + 1,
            y0 as int,
        ),
{
    let mask = texture_masks(width, height, depth);
    assert forall|x: u32, y: u32|
        x < width && y < height && precedes_in_image(x, y, x0 + 1, y0 as int) implies texel_swapped(
        after,
        #[trigger] linear_offset(row_pitch, x, y) as int,
        swizzled,
        swizzled_offset(mask, x, y, 0) as int,
    ) by {
        if x == x0 && y == y0 {
        } else {
            lemma_linear_offset_injective(width, row_pitch, x, y, x0, y0);
            let there = linear_offset(row_pitch, x, y) as int;
            assert(precedes_in_image(x, y, x0 as int, y0 as int));
            assert(texel_swapped(linear, there, swizzled, swizzled_offset(mask, x, y, 0) as int));
            assert(after[there] == linear[there]);
            assert(after[there + 1] == linear[there + 1]);
            assert(after[there + 2] == linear[there + 2]);
            assert(after[there + 3] == linear[there + 3]);
        }
    }
    assert forall|j: int|
        0 <= j < after.len() && !reached_in_image(
            width,
            height,
            row_pitch,
            x0 + 1,
            y0 as int,
            j,
        ) implies #[trigger] after[j] == before[j] by {
        assert(precedes_in_image(x0, y0, x0 + 1, y0 as int));
        assert(linear_offset(row_pitch, x0, y0) != 4 * (j / 4));
        if reached_in_image(width, height, row_pitch, x0 as int, y0 as int, j) {
            let (x, y) = choose|x: u32, y: u32|
                x < width && y < height && precedes_in_image(x, y, x0 as int, y0 as int)
                    && #[trigger] linear_offset(row_pitch, x, y) == 4 * (j / 4);
            assert(precedes_in_image(x, y, x0 + 1, y0 as int));
        }
        assert(after[j] == linear[j]);
    }
}

/// At the end of a row the copy back stands before the first texel of the
/// next row.
proof fn lemma_image_row_done(
    linear: Seq<u8>,
    before: Seq<u8>,
    swizzled: Seq<u8>,
    width: u32,
    height: u32,
    depth: u32,
    row_pitch: u32,
    y0: u32,
)
    requires
        unswizzled_up_to(
            linear,
            before,
            swizzled,
            width,
            height,
            depth,
            row_pitch,
            width as int,
            y0 as int,
        ),
    ensures
        unswizzled_up_to(linear, before, swizzled, width, height, depth, row_pitch, 0, y0 + 1),
{
    assert forall|x: u32, y: u32| x < width && y < height implies (precedes_in_image(
        x,
        y,
        0,
        y0 + 1,
    ) <==> precedes_in_image(x, y, width as int, y0 as int)) by {}
    assert forall|j: int|
        0 <= j < linear.len() && !reached_in_image(
            width,
            height,
            row_pitch,
            0,
            y0 + 1,
            j,
        ) implies #[trigger] linear[j] == before[j] by {
        if reached_in_image(width, height, row_pitch, width as int, y0 as int, j) {
            let (x, y) = choose|x: u32, y: u32|
                x < width && y < height && precedes_in_image(x, y, width as int, y0 as int)
                    && #[trigger] linear_offset(row_pitch, x, y) == 4 * (j / 4);
            assert(precedes_in_image(x, y, 0, y0 + 1));
        }
    }
}

/// After the last row every texel within the extents has been copied back.
proof fn lemma_image_done(
    linear: Seq<u8>,
    before: Seq<u8>,
    swizzled: Seq<u8>,
    width: u32,
    height: u32,
    depth: u32,
    row_pitch: u32,
)
    requires
        unswizzled_up_to(
            linear,
            before,
            swizzled,
            width,
            height,
            depth,
            row_pitch,
            0,
            height as int,
        ),
    ensures
        unswizzled_from(linear, before, swizzled, width, height, depth, row_pitch),
{
    assert forall|x: u32, y: u32| x < width && y < height implies precedes_in_image(
        x,
        y,
        0,
        height as int,
    ) by {}
    assert forall|j: int|
        0 <= j < linear.len() && !in_image(
            width,
            height,
            row_pitch,
            j,
        ) implies #[trigger] linear[j] == before[j] by {
        if reached_in_image(width, height, row_pitch, 0, height as int, j) {
            let (x, y) = choose|x: u32, y: u32|
                x < width && y < height && precedes_in_image(x, y, 0, height as int)
                    && #[trigger] linear_offset(row_pitch, x, y) == 4 * (j / 4);
            assert(in_image(width, height, row_pitch, j));
        }
    }
}

/// Copies the first slice of a swizzled texture back into a linear image:
/// the inverse of `swizzle_box`.
///
/// For every coordinate within width and height, the texel of `src_buf` at
/// the swizzled offset of `(x, y, 0)` is copied to `(x, y)` in `dst_buf`, blue
/// and red exchanged. The other bytes of `dst_buf` stay as they are.
///
/// The rows of the image must be at least as long as its width, `src_buf`
/// must hold the first slice of the texture and `dst_buf` the image.
pub fn unswizzle_box(
    src_buf: &Vec<u8>,
    width: u32,
    height: u32,
    depth: u32,
    dst_buf: &mut Vec<u8>,
    row_pitch: u32,
)
    requires
        width <= row_pitch,
        holds_slices(src_buf@.len(), width, height, depth, 1),
        holds_image(old(dst_buf)@.len(), width, height, row_pitch),
    ensures
        unswizzled_from(final(dst_buf)@, old(dst_buf)@, src_buf@, width, height, depth, row_pitch),
{
    let mask = generate_swizzle_masks(width, height, depth);
    let ghost swizzled = src_buf@;
    let ghost before = dst_buf@;
    proof {
        assert(swizzled.len() == src_buf.len());
        assert(before.len() == dst_buf.len());
    }

    for y in 0..height
        invariant
            width <= row_pitch,
            mask == texture_masks(width, height, depth),
            src_buf@ == swizzled,
            swizzled.len() <= usize::MAX,
            before.len() <= usize::MAX,
            holds_slices(swizzled.len(), width, height, depth, 1),
            holds_image(before.len(), width, height, row_pitch),
            unswizzled_up_to(
                dst_buf@,
                before,
                swizzled,
                width,
                height,
                depth,
                row_pitch,
                0,
                y as int,
            ),
    {
        for x in 0..width
            invariant
                y < height,
                width <= row_pitch,
                mask == texture_masks(width, height, depth),
                src_buf@ == swizzled,
                swizzled.len() <= usize::MAX,
                before.len() <= usize::MAX,
                holds_slices(swizzled.len(), width, height, depth, 1),
                holds_image(before.len(), width, height, row_pitch),
                unswizzled_up_to(
                    dst_buf@,
                    before,
                    swizzled,
                    width,
                    height,
                    depth,
                    row_pitch,
                    x as int,
                    y as int,
                ),
        {
            let ghost linear = dst_buf@;
            proof {
                lemma_within_buffers(width, height, depth, 1, row_pitch, x, y, 0);
            }
            let from = get_swizzled_offset(x, y, 0, &mask);
            let to = ((y as usize) * (row_pitch as usize) + (x as usize)) * 4;

            // red
            dst_buf[to] = src_buf[from + 2];
            // green
            dst_buf[to + 1] = src_buf[from + 1];
            // blue
            dst_buf[to + 2] = src_buf[from];
            // alpha
            dst_buf[to + 3] = src_buf[from + 3];

            proof {
                lemma_unswizzle_step(
                    dst_buf@,
                    linear,
                    before,
                    swizzled,
                    width,
                    height,
                    depth,
                    row_pitch,
                    x,
                    y,
                );
            }
        }
        proof {
            lemma_image_row_done(dst_buf@, before, swizzled, width, height, depth, row_pitch, y);
        }
    }
    proof {
        lemma_image_done(dst_buf@, before, swizzled, width, height, depth, row_pitch);
    }
}

/// The four bytes at `at` are the same in both sequences.
pub open spec fn same_texel(first: Seq<u8>, second: Seq<u8>, at: int) -> bool {
    &&& 0 <= at && at + 4 <= first.len() && at + 4 <= second.len()
    &&& first[at] == second[at]
    &&& first[at + 1] == second[at + 1]
    &&& first[at + 2] == second[at + 2]
    &&& first[at + 3] == second[at + 3]
}

/// Swizzling an image and copying the texture back gives the image again:
/// every texel within width and height of the restored image is the texel of
/// the image that was swizzled.
pub proof fn lemma_round_trip(
    image: Seq<u8>,
    texture_before: Seq<u8>,
    texture: Seq<u8>,
    restored_before: Seq<u8>,
    restored: Seq<u8>,
    width: u32,
    height: u32,
    depth: u32,
    row_pitch: u32,
)
    requires
        depth >= 1,
        swizzled_from(texture, texture_before, image, width, height, depth, row_pitch),
        unswizzled_from(restored, restored_before, texture, width, height, depth, row_pitch),
    ensures
        forall|x: u32, y: u32|
            x < width && y < height ==> same_texel(
                restored,
                image,
                #[trigger] linear_offset(row_pitch, x, y) as int,
            ),
{
    let mask = texture_masks(width, height, depth);
    assert forall|x: u32, y: u32| x < width && y < height implies same_texel(
        restored,
        image,
        #[trigger] linear_offset(row_pitch, x, y) as int,
    ) by {
        let there = swizzled_offset(mask, x, y, 0) as int;
        let here = linear_offset(row_pitch, x, y) as int;
        assert(texel_swapped(texture, there, image, here));
        assert(texel_swapped(restored, here, texture, there));
    }
}

/// Swizzling an image without gaps between its rows and copying the texture
/// back into a buffer of the same length gives the image exactly.
pub proof fn lemma_round_trip_exact(
    image: Seq<u8>,
    texture_before: Seq<u8>,
    texture: Seq<u8>,
    restored_before: Seq<u8>,
    restored: Seq<u8>,
    width: u32,
    height: u32,
    depth: u32,
)
    requires
        depth >= 1,
        image.len() == 4 * (width * height),
        restored_before.len() == image.len(),
        swizzled_from(texture, texture_before, image, width, height, depth, width),
        unswizzled_from(restored, restored_before, texture, width, height, depth, width),
    ensures
        restored == image,
{
    lemma_round_trip(
        image,
        texture_before,
        texture,
        restored_before,
        restored,
        width,
        height,
        depth,
        width,
    );
    assert forall|j: int| 0 <= j < image.len() implies restored[j] == image[j] by {
        let t = j / 4;
        assert(t < width * height);
        assert(width > 0) by (nonlinear_arith)
            requires
                0 <= t < width * height,
        ;
        lemma_fundamental_div_mod(t, width as int);
        lemma_multiply_divide_lt(t, width as int, height as int);
        lemma_div_pos_is_pos(t, width as int);
        let x = (t % width as int) as u32;
        let y = (t / width as int) as u32;
        assert(width * (t / width as int) == (t / width as int) * width) by (nonlinear_arith);
        assert(linear_offset(width, x, y) == 4 * t);
        assert(same_texel(restored, image, linear_offset(width, x, y) as int));
    }
    assert(restored =~= image);
}

} // verus!
