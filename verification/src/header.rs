//! The container header: nine 32-bit fields, each written with its least
//! significant byte first, 36 bytes in all.

use vstd::prelude::*;

verus! {

/// Magic number of the container: the bytes `XPR0`.
pub const XPR_MAGIC: u32 = 0x30525058;

/// Number of bytes of the packed header.
pub const HEADER_SIZE: u32 = 36;

/// Common flags of the texture resource.
pub const TEXTURE_COMMON: u32 = 0x00040001;

/// Format code of a swizzled texture with 32-bit blue, green, red, alpha
/// texels.
pub const TEXTURE_FORMAT: u32 = 0x06610629;

/// Marks the end of the header.
pub const END_OF_HEADER: u32 = 0xFFFFFFFF;

/// The header of a packed resource that holds one texture.
#[derive(Clone, Copy, Debug, PartialEq, Eq, Structural)]
pub struct XPRHeader {
    // container
    pub magic: u32,
    pub total_size: u32,
    pub header_size: u32,
    // texture resource
    pub common: u32,
    pub data: u32,
    pub lock: u32,
    pub format: u32,
    pub size: u32,
    pub end_of_header: u32,
}

/// Why a header could not be packed.
#[derive(Clone, Copy, Debug, PartialEq, Eq, Structural)]
pub enum PackingError {
    /// Header and payload together are longer than a 32-bit size can say.
    TotalSizeOverflow { payload_length: usize },
}

/// The four bytes of `value`, least significant byte first.
pub open spec fn le_bytes(value: u32) -> Seq<u8> {
    seq![
        (value % 256) as u8,
        (value / 256 % 256) as u8,
        (value / 65536 % 256) as u8,
        (value / 16777216) as u8,
    ]
}

/// The header that precedes a payload of the given length, where header and
/// payload together fit a 32-bit size.
pub open spec fn header_for(payload_length: nat) -> XPRHeader {
    XPRHeader {
        magic: XPR_MAGIC,
        total_size: (HEADER_SIZE + payload_length) as u32,
        header_size: HEADER_SIZE,
        common: TEXTURE_COMMON,
        data: 0,
        lock: 0,
        format: TEXTURE_FORMAT,
        size: 0,
        end_of_header: END_OF_HEADER,
    }
}

impl XPRHeader {
    /// The header that precedes a payload of `payload_length` bytes.
    ///
    /// Fails exactly when header and payload together are longer than a
    /// 32-bit size can say.
    pub fn for_payload(payload_length: usize) -> (result: Result<XPRHeader, PackingError>)
        ensures
            match result {
                Ok(header) => {
                    &&& HEADER_SIZE + payload_length <= u32::MAX
                    &&& header == header_for(payload_length as nat)
                },
                Err(error) => {
                    &&& HEADER_SIZE + payload_length > u32::MAX
                    &&& error == (PackingError::TotalSizeOverflow { payload_length })
                },
            },
    {
        if payload_length > (u32::MAX - HEADER_SIZE) as usize {
            return Err(PackingError::TotalSizeOverflow { payload_length });
        }
        Ok(
            XPRHeader {
                magic: XPR_MAGIC,
                total_size: HEADER_SIZE + payload_length as u32,
                header_size: HEADER_SIZE,
                common: TEXTURE_COMMON,
                data: 0,
                lock: 0,
                format: TEXTURE_FORMAT,
                size: 0,
                end_of_header: END_OF_HEADER,
            },
        )
    }

    /// The packed header: the fields in their order, four bytes each.
    pub open spec fn packed(self) -> Seq<u8> {
        le_bytes(self.magic) + le_bytes(self.total_size) + le_bytes(self.header_size) + le_bytes(
            self.common,
        ) + le_bytes(self.data) + le_bytes(self.lock) + le_bytes(self.format) + le_bytes(self.size)
            + le_bytes(self.end_of_header)
    }

    /// Packs the header into its 36 bytes.
    pub fn pack(&self) -> (bytes: [u8; 36])
        ensures
            bytes@ == self.packed(),
    {
        let mut bytes = [0u8; 36];
        put_le(&mut bytes, 0, self.magic);
        put_le(&mut bytes, 4, self.total_size);
        put_le(&mut bytes, 8, self.header_size);
        put_le(&mut bytes, 12, self.common);
        put_le(&mut bytes, 16, self.data);
        put_le(&mut bytes, 20, self.lock);
        put_le(&mut bytes, 24, self.format);
        put_le(&mut bytes, 28, self.size);
        put_le(&mut bytes, 32, self.end_of_header);
        assert(bytes@ =~= self.packed());
        bytes
    }
}

/// Writes `value` at `at`, least significant byte first.
fn put_le(bytes: &mut [u8; 36], at: usize, value: u32)
    requires
        at + 4 <= 36,
    ensures
        final(bytes)@ == old(bytes)@.update(at as int, le_bytes(value)[0]).update(
            at + 1,
            le_bytes(value)[1],
        ).update(at + 2, le_bytes(value)[2]).update(at + 3, le_bytes(value)[3]),
{
    bytes[at] = (value % 256) as u8;
    bytes[at + 1] = (value / 256 % 256) as u8;
    bytes[at + 2] = (value / 65536 % 256) as u8;
    bytes[at + 3] = (value / 16777216) as u8;
}

/// Builds the packed header for a payload of `payload_length` bytes.
///
/// Fails exactly when header and payload together are longer than a 32-bit
/// size can say.
pub fn build_header(payload_length: usize) -> (result: Result<[u8; 36], PackingError>)
    ensures
        match result {
            Ok(bytes) => {
                &&& HEADER_SIZE + payload_length <= u32::MAX
                &&& bytes@ == header_for(payload_length as nat).packed()
            },
            Err(error) => {
                &&& HEADER_SIZE + payload_length > u32::MAX
                &&& error == (PackingError::TotalSizeOverflow { payload_length })
            },
        },
{
    match XPRHeader::for_payload(payload_length) {
        Ok(header) => Ok(header.pack()),
        Err(error) => Err(error),
    }
}

/// Builds the packed header that precedes the swizzled image `img_buf`.
///
/// Fails exactly when header and image together are longer than a 32-bit size
/// can say.
pub fn create_header(img_buf: &Vec<u8>) -> (result: Result<[u8; 36], PackingError>)
    ensures
        match result {
            Ok(bytes) => {
                &&& HEADER_SIZE + img_buf@.len() <= u32::MAX
                &&& bytes@ == header_for(img_buf@.len()).packed()
            },
            Err(error) => {
                &&& HEADER_SIZE + img_buf@.len() > u32::MAX
                &&& error == (PackingError::TotalSizeOverflow { payload_length: img_buf@.len() as usize })
            },
        },
{
    build_header(img_buf.len())
}

} // verus!
