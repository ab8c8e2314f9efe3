use xpr_swizzle::{address_bits, generate_swizzle_masks, is_power_of_two, SwizzleMask};

#[test]
fn unit_texture_has_empty_masks() {
    let mask = generate_swizzle_masks(1, 1, 1);
    assert_eq!(mask, SwizzleMask { x: 0, y: 0, z: 0 });
}

#[test]
fn masks_of_4_by_4_interleave_x_and_y() {
    let mask = generate_swizzle_masks(4, 4, 1);
    assert_eq!(mask.x, 0b0101);
    assert_eq!(mask.y, 0b1010);
    assert_eq!(mask.z, 0b0000);
}

#[test]
fn masks_of_64_by_64_interleave_x_and_y() {
    let mask = generate_swizzle_masks(64, 64, 1);
    assert_eq!(mask.x, 0x555);
    assert_eq!(mask.y, 0xAAA);
    assert_eq!(mask.z, 0);
}

#[test]
fn masks_of_a_cube_take_every_third_bit() {
    let mask = generate_swizzle_masks(4, 4, 4);
    assert_eq!(mask.x, 0b001001);
    assert_eq!(mask.y, 0b010010);
    assert_eq!(mask.z, 0b100100);
}

#[test]
fn an_exhausted_axis_is_skipped() {
    // x takes bits in three rounds, y in one, z in two:
    // round 0 gives bit 0 to x, bit 1 to y, bit 2 to z,
    // round 1 gives bit 3 to x, bit 4 to z, round 2 gives bit 5 to x
    let mask = generate_swizzle_masks(8, 2, 4);
    assert_eq!(mask.x, 0b101001);
    assert_eq!(mask.y, 0b000010);
    assert_eq!(mask.z, 0b010100);

    let wide = generate_swizzle_masks(16, 1, 1);
    assert_eq!(wide, SwizzleMask { x: 0b1111, y: 0, z: 0 });

    let tall = generate_swizzle_masks(1, 16, 1);
    assert_eq!(tall, SwizzleMask { x: 0, y: 0b1111, z: 0 });

    let deep = generate_swizzle_masks(2, 1, 8);
    assert_eq!(deep, SwizzleMask { x: 0b0001, y: 0, z: 0b1110 });
}

#[test]
fn other_extents_take_the_bits_of_the_next_power_of_two() {
    let mask = generate_swizzle_masks(3, 5, 1);
    assert_eq!(mask, generate_swizzle_masks(4, 8, 1));
    assert_eq!(mask.x, 0b00101);
    assert_eq!(mask.y, 0b11010);
    assert_eq!(mask.z, 0);
}

#[test]
fn zero_extents_take_no_bits() {
    assert_eq!(generate_swizzle_masks(0, 0, 0), SwizzleMask { x: 0, y: 0, z: 0 });
    assert_eq!(generate_swizzle_masks(0, 4, 1), SwizzleMask { x: 0, y: 0b11, z: 0 });
}

#[test]
fn masks_partition_the_address_bits() {
    for bx in 0..12u32 {
        for by in 0..12u32 {
            for bz in 0..8u32 {
                let mask = generate_swizzle_masks(1 << bx, 1 << by, 1 << bz);
                let total_bits_mask = ((1u64 << (bx + by + bz)) - 1) as u32;
                assert_eq!(mask.x ^ mask.y ^ mask.z, total_bits_mask);
                assert_eq!(mask.x | mask.y | mask.z, total_bits_mask);
                assert_eq!(mask.x & mask.y, 0);
                assert_eq!(mask.x & mask.z, 0);
                assert_eq!(mask.y & mask.z, 0);
                assert_eq!(mask.x.count_ones(), bx);
                assert_eq!(mask.y.count_ones(), by);
                assert_eq!(mask.z.count_ones(), bz);
            }
        }
    }
}

#[test]
fn masks_may_fill_31_bits() {
    let mask = generate_swizzle_masks(1 << 31, 1, 1);
    assert_eq!(mask, SwizzleMask { x: 0x7FFF_FFFF, y: 0, z: 0 });

    let mask = generate_swizzle_masks(1 << 16, 1 << 15, 1);
    assert_eq!(mask.x ^ mask.y ^ mask.z, 0x7FFF_FFFF);
    assert_eq!(mask.x, 0x5555_5555);
    assert_eq!(mask.y, 0x2AAA_AAAA);

    let mask = generate_swizzle_masks(1 << 11, 1 << 10, 1 << 10);
    assert_eq!(mask.x ^ mask.y ^ mask.z, 0x7FFF_FFFF);
    assert_eq!(mask.x & mask.y, 0);
    assert_eq!(mask.x & mask.z, 0);
    assert_eq!(mask.y & mask.z, 0);
}

#[test]
fn generating_masks_twice_gives_the_same_masks() {
    for (width, height, depth) in [(1, 1, 1), (64, 64, 1), (8, 2, 4), (3, 5, 7), (1024, 512, 2)] {
        let first = generate_swizzle_masks(width, height, depth);
        let second = generate_swizzle_masks(width, height, depth);
        assert_eq!(first, second);
    }
}

#[test]
fn address_bits_is_the_rounded_up_logarithm() {
    assert_eq!(address_bits(0), 0);
    assert_eq!(address_bits(1), 0);
    assert_eq!(address_bits(2), 1);
    assert_eq!(address_bits(3), 2);
    assert_eq!(address_bits(4), 2);
    assert_eq!(address_bits(5), 3);
    assert_eq!(address_bits(64), 6);
    assert_eq!(address_bits(65), 7);
    assert_eq!(address_bits(1 << 31), 31);
    assert_eq!(address_bits((1 << 31) + 1), 32);
    assert_eq!(address_bits(u32::MAX), 32);
}

#[test]
fn powers_of_two_are_told_from_other_extents() {
    assert!(!is_power_of_two(0));
    assert!(is_power_of_two(1));
    assert!(is_power_of_two(2));
    assert!(!is_power_of_two(3));
    assert!(is_power_of_two(64));
    assert!(!is_power_of_two(96));
    assert!(is_power_of_two(1 << 31));
    assert!(!is_power_of_two(u32::MAX));
    for e in 0..32u32 {
        assert!(is_power_of_two(1 << e));
        if e >= 2 {
            assert!(!is_power_of_two((1 << e) - 1));
            assert!(!is_power_of_two((1 << e) + 1));
        }
    }
}
