//! Conversion of a linear RGBA image into the bit-interleaved ("swizzled")
//! texture layout of a tiled memory controller, and the fixed 36-byte
//! container header that precedes the swizzled pixels.
//!
//! Every function is verified against a contract stated over the spec
//! functions of its module.

mod bits;
pub mod header;
pub mod mask;
pub mod offset;
pub mod pattern;
pub mod swizzle;
pub mod unswizzle;

pub use header::{build_header, create_header, PackingError, XPRHeader};
pub use mask::{address_bits, generate_swizzle_masks, is_power_of_two, SwizzleMask};
pub use offset::get_swizzled_offset;
pub use pattern::fill_pattern;
pub use swizzle::{swizzle, swizzle_box, SwizzleError};
pub use unswizzle::unswizzle_box;
