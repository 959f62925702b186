use vstd::prelude::*;

verus! {

/// Why a buffer could not be decoded.
#[derive(Debug, Clone, Copy, PartialEq, Eq, Structural)]
pub enum DecodeError {
    /// A varint ran past the end of the buffer or past ten bytes.
    InvalidVarint,
    /// Fewer bytes remain than a fixed-width value needs.
    UnexpectedEof,
    /// A length prefix claims more bytes than remain.
    LengthMismatch,
    /// A text payload is not UTF-8.
    InvalidUtf8,
    /// A field key carries a wire type that cannot be skipped.
    UnknownWireType,
    /// A required field did not appear.
    MissingTag,
    /// A field key whose field number does not fit 32 bits.
    InvalidTag,
    /// A known field arrives under a wire type that its kind does not use.
    WireTypeMismatch,
    /// A field key other than the one the format expects at that place.
    UnexpectedField,
}

/// Why a value could not be encoded: the buffer has room for fewer bytes
/// than the value needs.
#[derive(Debug, Clone, Copy, PartialEq, Eq, Structural)]
pub struct EncodeError {
    /// The number of bytes the value needs.
    pub required: usize,
    /// The number of bytes the buffer can still take.
    pub remaining: usize,
}

} // verus!
