use packed_struct::types::bits::Bits;
use packed_struct::types::Integer;
use packed_struct::PackedStruct;
use xpr_swizzle::{build_header, create_header, PackingError, XPRHeader};

#[test]
fn header_of_a_payload_of_100_bytes() {
    let expected: [u8; 36] = [
        0x58, 0x50, 0x52, 0x30, 0x88, 0x00, 0x00, 0x00, 0x24, 0x00, 0x00, 0x00, 0x01, 0x00, 0x04,
        0x00, 0x00, 0x00, 0x00, 0x00, 0x00, 0x00, 0x00, 0x00, 0x29, 0x06, 0x61, 0x06, 0x00, 0x00,
        0x00, 0x00, 0xFF, 0xFF, 0xFF, 0xFF,
    ];
    assert_eq!(build_header(100), Ok(expected));
    assert_eq!(create_header(&vec![0u8; 100]), Ok(expected));
}

#[test]
fn fields_of_the_header_of_a_payload_of_100_bytes() {
    let header = XPRHeader::for_payload(100).unwrap();
    assert_eq!(
        header,
        XPRHeader {
            magic: 0x30525058,
            total_size: 136,
            header_size: 36,
            common: 0x00040001,
            data: 0,
            lock: 0,
            format: 0x06610629,
            size: 0,
            end_of_header: 0xFFFFFFFF,
        }
    );
    assert_eq!(Ok(header.pack()), build_header(100));
    assert_eq!(
        XPRHeader::for_payload(u32::MAX as usize),
        Err(PackingError::TotalSizeOverflow { payload_length: u32::MAX as usize })
    );
}

#[test]
fn header_of_a_64_by_64_texture() {
    let image = vec![0xABu8; 64 * 64 * 4];
    let header = create_header(&image).unwrap();
    assert_eq!(&header[0..4], b"XPR0");
    // 36 + 16384 = 16420 = 0x4024
    assert_eq!(&header[4..8], &[0x24, 0x40, 0x00, 0x00]);
    assert_eq!(&header[8..12], &[36, 0, 0, 0]);
    assert_eq!(&header[12..16], &[0x01, 0x00, 0x04, 0x00]);
    assert_eq!(&header[16..24], &[0; 8]);
    assert_eq!(&header[24..28], &[0x29, 0x06, 0x61, 0x06]);
    assert_eq!(&header[28..32], &[0; 4]);
    assert_eq!(&header[32..36], &[0xFF; 4]);
}

#[test]
fn header_of_an_empty_payload() {
    let header = create_header(&Vec::new()).unwrap();
    assert_eq!(&header[4..8], &[36, 0, 0, 0]);
    assert_eq!(build_header(0), Ok(header));
}

#[test]
fn only_the_total_size_depends_on_the_payload() {
    let small = build_header(1).unwrap();
    let large = build_header(0x0102_0304).unwrap();
    assert_eq!(&small[0..4], &large[0..4]);
    assert_eq!(&small[8..36], &large[8..36]);
    assert_eq!(&small[4..8], &[37, 0, 0, 0]);
    // 0x01020304 + 0x24 = 0x01020328
    assert_eq!(&large[4..8], &[0x28, 0x03, 0x02, 0x01]);
}

#[test]
fn largest_payload_that_fits() {
    let payload_length = (u32::MAX - 36) as usize;
    let header = build_header(payload_length).unwrap();
    assert_eq!(&header[4..8], &[0xFF, 0xFF, 0xFF, 0xFF]);
}

#[test]
fn total_size_overflow_is_an_error() {
    let payload_length = (u32::MAX - 35) as usize;
    assert_eq!(
        build_header(payload_length),
        Err(PackingError::TotalSizeOverflow { payload_length })
    );
    assert_eq!(
        build_header(usize::MAX),
        Err(PackingError::TotalSizeOverflow { payload_length: usize::MAX })
    );
}

#[test]
fn pack_writes_the_fields_in_order_least_significant_byte_first() {
    let header = XPRHeader {
        magic: 0x0403_0201,
        total_size: 0x0807_0605,
        header_size: 0x0C0B_0A09,
        common: 0x100F_0E0D,
        data: 0x1413_1211,
        lock: 0x1817_1615,
        format: 0x1C1B_1A19,
        size: 0x201F_1E1D,
        end_of_header: 0x2423_2221,
    };
    let bytes = header.pack();
    for (index, byte) in bytes.iter().enumerate() {
        assert_eq!(*byte as usize, index + 1);
    }
}

#[test]
fn each_field_is_packed_as_a_32_bit_lsb_integer() {
    let header = XPRHeader {
        magic: 0x30525058,
        total_size: 136,
        header_size: 36,
        common: 0x00040001,
        data: 0,
        lock: 0,
        format: 0x06610629,
        size: 0,
        end_of_header: 0xFFFFFFFF,
    };
    let fields = [
        header.magic,
        header.total_size,
        header.header_size,
        header.common,
        header.data,
        header.lock,
        header.format,
        header.size,
        header.end_of_header,
    ];
    let bytes = header.pack();
    assert_eq!(Ok(bytes), build_header(100));
    for (index, field) in fields.iter().enumerate() {
        let packed = Integer::<u32, Bits<32>>::from(*field).as_packed_lsb().pack().unwrap();
        assert_eq!(&bytes[4 * index..4 * index + 4], &packed);
        assert_eq!(&bytes[4 * index..4 * index + 4], &field.to_le_bytes());
    }
}
