//! The failures a decode can report.

use vstd::prelude::*;

verus! {

/// Why a decode of a byte buffer was aborted.
#[derive(Debug, Clone, Copy, PartialEq, Eq, Structural)]
pub enum DecodeError {
    /// A varint, length-delimited or fixed-size read would run past the end
    /// of the buffer.
    BufferUnderrun,
    /// A legacy group wire type (3 or 4) was encountered; no decoding is
    /// defined for it.
    UnsupportedWireType,
    /// A wire type outside the known range 0 to 5 was encountered.
    InvalidWireType,
    /// Nested submessages went deeper than the decode was allowed to follow.
    DepthLimitExceeded,
}

impl DecodeError {
    /// A short description of the failure.
    pub fn message(&self) -> (r: String)
        ensures
            *self == DecodeError::BufferUnderrun ==> r@ == "Index out of bounds"@,
            *self == DecodeError::UnsupportedWireType ==> r@ == "Not supported type"@,
            *self == DecodeError::InvalidWireType ==> r@ == "Invalid type"@,
            *self == DecodeError::DepthLimitExceeded ==> r@ == "Nesting too deep"@,
    {
        match self {
            DecodeError::BufferUnderrun => "Index out of bounds".to_owned(),
            DecodeError::UnsupportedWireType => "Not supported type".to_owned(),
            DecodeError::InvalidWireType => "Invalid type".to_owned(),
            DecodeError::DepthLimitExceeded => "Nesting too deep".to_owned(),
        }
    }
}

} // verus!
