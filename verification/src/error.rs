//! Error type for structural decode failures.
//!
//! Absence of optional data (an unallocated slot, a missing named tag, a
//! wrong-length biome array) is never an error: it is reported as `None` or
//! as a default value by the functions concerned. `DecodeError` is reserved
//! for malformed input: truncated streams, unknown type codes, length fields
//! that exceed the remaining stream, values whose shape contradicts the
//! format, and failed decompression.

use vstd::prelude::*;

verus! {

#[derive(Clone, Copy, Debug, PartialEq, Eq, Structural)]
pub enum DecodeError {
    /// A length field or a fixed-size read runs past the end of the stream.
    Truncated,
    /// A type code outside the known range, or a list/array header that
    /// cannot be read.
    BadTypeCode,
    /// A tag was materialized with a shape other than the one the caller
    /// expected (for example a palette entry that is not a compound).
    WrongTagType,
    /// A compression scheme byte other than the standard scheme.
    BadScheme,
    /// The compressed payload of a slot could not be decompressed.
    Inflate,
    /// A palette entry names a block type that the supplied name table does
    /// not contain, or a packed index points past the end of the palette.
    BadPalette,
    /// A packed-index bit width larger than the widest supported read.
    BadBitWidth,
    /// A light array whose length is not one nibble per voxel of a section.
    BadLightArray,
    /// A long array too short for the fixed-size height map.
    BadHeightArray,
}

impl DecodeError {
    /// A short description, for callers that report errors as text.
    pub fn describe(&self) -> &'static str {
        match self {
            DecodeError::Truncated => "stream ended before the value it declares",
            DecodeError::BadTypeCode => "unknown tag type code",
            DecodeError::WrongTagType => "tag does not have the expected shape",
            DecodeError::BadScheme => "unsupported compression scheme",
            DecodeError::Inflate => "decompression failed",
            DecodeError::BadPalette => "palette entry cannot be resolved",
            DecodeError::BadBitWidth => "packed bit width too large",
            DecodeError::BadLightArray => "light array has the wrong length",
            DecodeError::BadHeightArray => "height map array too short",
        }
    }
}

} // verus!
