//! Constants of the wire protocol.

use vstd::prelude::*;

verus! {

/// Size of an HWORD in bytes.
pub const HWORD_SIZE_BYTES: usize = 12;

/// Size of an HWORD in bits.
pub const HWORD_SIZE_BITS: usize = 96;

/// Size of the data (payload) field in bits.
pub const DATA_FIELD_BITS: usize = 92;

/// Expected number of header HWORDs per frame.
pub const HEADER_HWORDS_PER_FRAME: usize = 110;

/// Fixed-point scaling divisor for coordinates (2^10): a raw coordinate
/// divided by this value gives metres.
pub const COORDINATE_SCALE_DIVISOR: u32 = 1024;

} // verus!
