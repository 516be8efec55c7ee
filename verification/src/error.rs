//! Failures of decoding and encoding.

use vstd::prelude::*;

verus! {

/// Why a byte sequence is not the encoding of a structure.
#[derive(Debug, Clone, Copy, PartialEq, Eq, Structural)]
pub enum DecodeError {
    /// Fewer bytes are left than the fixed-width field being read needs.
    Truncated,
    /// The tag byte of a control PDU names no display-update type.
    InvalidDiscriminant,
    /// The encryption-method field has a bit set that names no method.
    InvalidEncryptionMethod,
    /// The encryption-level field names no level.
    InvalidEncryptionLevel,
    /// A declared length disagrees with the field's size or exceeds the bytes that are left.
    LengthMismatch,
    /// The structure nested in a control PDU could not be decoded.
    InvalidTrailer,
}

/// Why a value has no encoding.
#[derive(Debug, Clone, Copy, PartialEq, Eq, Structural)]
pub enum EncodeError {
    /// A variable-length field is longer than its 32-bit length prefix can say.
    FieldTooLong,
}

} // verus!
