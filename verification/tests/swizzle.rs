use xpr_swizzle::{
    generate_swizzle_masks, get_swizzled_offset, swizzle, swizzle_box, unswizzle_box, SwizzleError,
};

/// An image whose bytes all differ within each texel and from texel to texel.
fn numbered_image(texels: usize) -> Vec<u8> {
    let mut image = Vec::with_capacity(4 * texels);
    for texel in 0..texels {
        image.push((texel % 251) as u8);
        image.push((texel / 251 % 251) as u8);
        image.push((texel * 7 % 256) as u8 ^ 0x5A);
        image.push(0xFF - (texel % 256) as u8);
    }
    image
}

#[test]
fn single_texel_changes_red_and_blue() {
    let mut source = vec![0x11, 0x22, 0x33, 0x44];
    let mut destination = vec![0u8; 4];
    swizzle_box(&mut source, 1, 1, 1, &mut destination, 1);
    assert_eq!(destination, vec![0x33, 0x22, 0x11, 0x44]);
    assert_eq!(source, vec![0x11, 0x22, 0x33, 0x44]);
}

#[test]
fn two_by_two_keeps_the_order_of_the_texels() {
    let mut source = vec![
        0x01, 0x02, 0x03, 0x04, 0x11, 0x12, 0x13, 0x14, 0x21, 0x22, 0x23, 0x24, 0x31, 0x32, 0x33,
        0x34,
    ];
    let mut destination = vec![0u8; 16];
    swizzle_box(&mut source, 2, 2, 1, &mut destination, 2);
    assert_eq!(
        destination,
        vec![
            0x03, 0x02, 0x01, 0x04, 0x13, 0x12, 0x11, 0x14, 0x23, 0x22, 0x21, 0x24, 0x33, 0x32,
            0x31, 0x34,
        ]
    );
}

#[test]
fn four_by_two_interleaves_the_rows() {
    // texel t of the source holds the bytes 4t .. 4t + 3
    let mut source: Vec<u8> = (0..32).collect();
    let mut destination = vec![0u8; 32];
    swizzle_box(&mut source, 4, 2, 1, &mut destination, 4);
    // x has the address bits 0 and 2, y has bit 1
    let order = [0, 1, 4, 5, 2, 3, 6, 7];
    for (to, from) in order.iter().enumerate() {
        let texel = &destination[4 * to..4 * to + 4];
        assert_eq!(texel, &[4 * from + 2, 4 * from + 1, 4 * from, 4 * from + 3]);
    }
}

#[test]
fn every_texel_of_64_by_64_lands_at_its_swizzled_offset() {
    let mut source = numbered_image(64 * 64);
    let before = source.clone();
    let mut destination = vec![0u8; 64 * 64 * 4];
    swizzle_box(&mut source, 64, 64, 1, &mut destination, 64);
    assert_eq!(source, before);
    let mask = generate_swizzle_masks(64, 64, 1);
    for y in 0..64u32 {
        for x in 0..64u32 {
            let to = get_swizzled_offset(x, y, 0, &mask);
            let from = ((y * 64 + x) * 4) as usize;
            assert_eq!(destination[to], source[from + 2]);
            assert_eq!(destination[to + 1], source[from + 1]);
            assert_eq!(destination[to + 2], source[from]);
            assert_eq!(destination[to + 3], source[from + 3]);
        }
    }
}

#[test]
fn every_slice_receives_the_image() {
    let mut source = numbered_image(4);
    let mut destination = vec![0u8; 2 * 2 * 2 * 4];
    swizzle_box(&mut source, 2, 2, 2, &mut destination, 2);
    let mask = generate_swizzle_masks(2, 2, 2);
    for z in 0..2u32 {
        for y in 0..2u32 {
            for x in 0..2u32 {
                let to = get_swizzled_offset(x, y, z, &mask);
                let from = ((y * 2 + x) * 4) as usize;
                assert_eq!(
                    &destination[to..to + 4],
                    &[source[from + 2], source[from + 1], source[from], source[from + 3]]
                );
            }
        }
    }
}

#[test]
fn row_pitch_skips_the_end_of_each_row() {
    // two rows of two texels, three texels from one row to the next
    let mut source = numbered_image(5);
    let mut destination = vec![0xEEu8; 20];
    swizzle_box(&mut source, 2, 2, 1, &mut destination, 3);
    for (to, from) in [0usize, 1, 3, 4].iter().enumerate() {
        assert_eq!(
            &destination[4 * to..4 * to + 4],
            &[source[4 * from + 2], source[4 * from + 1], source[4 * from], source[4 * from + 3]]
        );
    }
    assert_eq!(&destination[16..20], &[0xEE; 4]);
}

#[test]
fn bytes_of_no_texel_are_left_alone() {
    // a width of 3 takes the address bits of a width of 4
    let mut source = numbered_image(6);
    let mut destination = vec![0xEEu8; 8 * 4];
    swizzle_box(&mut source, 3, 2, 1, &mut destination, 3);
    let mask = generate_swizzle_masks(3, 2, 1);
    let mut written = [false; 8];
    for y in 0..2u32 {
        for x in 0..3u32 {
            let to = get_swizzled_offset(x, y, 0, &mask);
            let from = ((y * 3 + x) * 4) as usize;
            written[to / 4] = true;
            assert_eq!(
                &destination[to..to + 4],
                &[source[from + 2], source[from + 1], source[from], source[from + 3]]
            );
        }
    }
    assert_eq!(written, [true, true, true, true, true, false, true, false]);
    assert_eq!(&destination[20..24], &[0xEE; 4]);
    assert_eq!(&destination[28..32], &[0xEE; 4]);
}

#[test]
fn a_destination_that_ends_with_the_last_texel_is_long_enough() {
    // the last texel of 3 by 2 lies at texel 6 of 8
    let mut source = numbered_image(6);
    let mut destination = vec![0u8; 7 * 4];
    swizzle_box(&mut source, 3, 2, 1, &mut destination, 3);
    assert_eq!(
        &destination[24..28],
        &[source[22], source[21], source[20], source[23]]
    );
}

#[test]
fn swizzling_and_unswizzling_restores_the_image() {
    for (width, height, depth) in
        [(1u32, 1u32, 1u32), (2, 2, 1), (64, 64, 1), (16, 4, 1), (4, 32, 1), (8, 2, 4), (1, 8, 2)]
    {
        let texels = (width * height) as usize;
        let mut image = numbered_image(texels);
        let mut texture = vec![0u8; texels * depth as usize * 4];
        swizzle_box(&mut image, width, height, depth, &mut texture, width);
        let mut restored = vec![0xEEu8; texels * 4];
        unswizzle_box(&texture, width, height, depth, &mut restored, width);
        assert_eq!(restored, image);
        assert_eq!(image, numbered_image(texels));
    }
}

#[test]
fn round_trip_with_other_extents_and_a_row_pitch() {
    let (width, height, row_pitch) = (3u32, 5u32, 4u32);
    let mut image = numbered_image((row_pitch * height) as usize);
    let mut texture = vec![0u8; 4 * 8 * 4];
    swizzle_box(&mut image, width, height, 1, &mut texture, row_pitch);
    let mut restored = vec![0xEEu8; image.len()];
    unswizzle_box(&texture, width, height, 1, &mut restored, row_pitch);
    for y in 0..height {
        for x in 0..row_pitch {
            let at = ((y * row_pitch + x) * 4) as usize;
            if x < width {
                assert_eq!(&restored[at..at + 4], &image[at..at + 4]);
            } else {
                assert_eq!(&restored[at..at + 4], &[0xEE; 4]);
            }
        }
    }
}

#[test]
fn unswizzle_reads_the_first_slice() {
    let mask = generate_swizzle_masks(2, 1, 2);
    let mut texture = vec![0u8; 16];
    for z in 0..2u32 {
        for x in 0..2u32 {
            let at = get_swizzled_offset(x, 0, z, &mask);
            texture[at] = 10 * z as u8 + x as u8;
            texture[at + 1] = 0x20;
            texture[at + 2] = 0x30;
            texture[at + 3] = 0x40;
        }
    }
    let mut image = vec![0u8; 8];
    unswizzle_box(&texture, 2, 1, 2, &mut image, 2);
    assert_eq!(image, vec![0x30, 0x20, 0, 0x40, 0x30, 0x20, 1, 0x40]);
}

#[test]
fn swizzle_returns_what_swizzle_box_writes() {
    for (width, height) in [(1u32, 1u32), (2, 2), (64, 64), (16, 4), (4, 32)] {
        let texels = (width * height) as usize;
        let mut source = numbered_image(texels);
        let mut expected = vec![0u8; texels * 4];
        swizzle_box(&mut source, width, height, 1, &mut expected, width);
        assert_eq!(swizzle(&mut source, width, height, 1, width), Ok(expected));
        assert_eq!(source, numbered_image(texels));
    }
}

#[test]
fn swizzle_of_a_single_texel() {
    let mut source = vec![0x11, 0x22, 0x33, 0x44];
    assert_eq!(swizzle(&mut source, 1, 1, 1, 1), Ok(vec![0x33, 0x22, 0x11, 0x44]));
}

#[test]
fn swizzle_with_a_row_pitch_leaves_zeros_behind_the_texels() {
    let mut source = numbered_image(6);
    let texture = swizzle(&mut source, 2, 2, 1, 3).unwrap();
    assert_eq!(texture.len(), 24);
    for (to, from) in [0usize, 1, 3, 4].iter().enumerate() {
        assert_eq!(
            &texture[4 * to..4 * to + 4],
            &[source[4 * from + 2], source[4 * from + 1], source[4 * from], source[4 * from + 3]]
        );
    }
    assert_eq!(&texture[16..24], &[0; 8]);
}

#[test]
fn swizzle_refuses_extents_that_are_no_powers_of_two() {
    let mut source = numbered_image(12);
    assert_eq!(
        swizzle(&mut source, 3, 4, 1, 3),
        Err(SwizzleError::NotPowerOfTwo { width: 3, height: 4, depth: 1 })
    );
    assert_eq!(
        swizzle(&mut source, 4, 3, 1, 4),
        Err(SwizzleError::NotPowerOfTwo { width: 4, height: 3, depth: 1 })
    );
    assert_eq!(
        swizzle(&mut source, 4, 1, 3, 4),
        Err(SwizzleError::NotPowerOfTwo { width: 4, height: 1, depth: 3 })
    );
    assert_eq!(
        swizzle(&mut source, 0, 4, 1, 4),
        Err(SwizzleError::NotPowerOfTwo { width: 0, height: 4, depth: 1 })
    );
    assert_eq!(
        swizzle(&mut source, 4, 4, 0, 4),
        Err(SwizzleError::NotPowerOfTwo { width: 4, height: 4, depth: 0 })
    );
    assert_eq!(source, numbered_image(12));
}

#[test]
fn swizzle_refuses_more_than_one_slice() {
    let mut source = numbered_image(16);
    assert_eq!(
        swizzle(&mut source, 2, 2, 4, 2),
        Err(SwizzleError::UnsupportedDepth { depth: 4 })
    );
}

#[test]
fn swizzle_refuses_textures_beyond_the_address_bits() {
    let mut source = numbered_image(1);
    assert_eq!(
        swizzle(&mut source, 1 << 16, 1 << 16, 1, 1 << 16),
        Err(SwizzleError::TooLarge { width: 1 << 16, height: 1 << 16 })
    );
    assert_eq!(
        swizzle(&mut source, 1 << 31, 2, 1, 1 << 31),
        Err(SwizzleError::TooLarge { width: 1 << 31, height: 2 })
    );
    // 31 address bits fit, so the next condition fails
    assert_eq!(
        swizzle(&mut source, 1 << 16, 1 << 15, 1, 1 << 16),
        Err(SwizzleError::LengthMismatch { row_pitch: 1 << 16, height: 1 << 15, length: 4 })
    );
}

#[test]
fn swizzle_refuses_rows_shorter_than_the_width() {
    let mut source = numbered_image(16);
    assert_eq!(
        swizzle(&mut source, 4, 4, 1, 2),
        Err(SwizzleError::RowPitchTooSmall { row_pitch: 2, width: 4 })
    );
}

#[test]
fn swizzle_refuses_a_buffer_of_another_length() {
    let mut short = numbered_image(15);
    assert_eq!(
        swizzle(&mut short, 4, 4, 1, 4),
        Err(SwizzleError::LengthMismatch { row_pitch: 4, height: 4, length: 60 })
    );
    let mut long = numbered_image(17);
    assert_eq!(
        swizzle(&mut long, 4, 4, 1, 4),
        Err(SwizzleError::LengthMismatch { row_pitch: 4, height: 4, length: 68 })
    );
    let mut odd = vec![0u8; 63];
    assert_eq!(
        swizzle(&mut odd, 4, 4, 1, 4),
        Err(SwizzleError::LengthMismatch { row_pitch: 4, height: 4, length: 63 })
    );
    let mut empty = Vec::new();
    assert_eq!(
        swizzle(&mut empty, 1, 1, 1, 1),
        Err(SwizzleError::LengthMismatch { row_pitch: 1, height: 1, length: 0 })
    );
}

#[test]
fn the_first_failing_condition_is_reported() {
    let mut source = numbered_image(1);
    // no powers of two, more than one slice, rows too short, wrong length
    assert_eq!(
        swizzle(&mut source, 3, 4, 2, 1),
        Err(SwizzleError::NotPowerOfTwo { width: 3, height: 4, depth: 2 })
    );
    // more than one slice, rows too short, wrong length
    assert_eq!(
        swizzle(&mut source, 4, 4, 2, 1),
        Err(SwizzleError::UnsupportedDepth { depth: 2 })
    );
    // rows too short, wrong length
    assert_eq!(
        swizzle(&mut source, 4, 4, 1, 1),
        Err(SwizzleError::RowPitchTooSmall { row_pitch: 1, width: 4 })
    );
}
