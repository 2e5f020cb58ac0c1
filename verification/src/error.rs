use vstd::prelude::*;

verus! {

/// Why a packet could not be decoded or encoded.
#[derive(Debug, Clone, Copy, PartialEq, Eq, Structural)]
pub enum CodecError {
    /// The remaining-length field needs a fifth byte, ends before its last
    /// byte, or the value to encode is above 268,435,455.
    MalformedLength,
    /// A length-prefixed field declares more bytes than the buffer holds, has
    /// no complete length prefix, or holds text that is not UTF-8.
    MalformedField,
    /// A byte lies outside the domain of the enumeration that it encodes.
    InvalidEnumValue,
    /// A packet identifier is zero.
    ZeroIdentifier,
    /// The protocol name and level are not a recognised pair.
    InvalidProtocol,
    /// A packet's body is longer than what its decoder consumed.
    TrailingData,
    /// The buffer ends before a fixed-size field or before the end of the
    /// declared remaining length.
    Truncated,
    /// A string or binary field is longer than 65,535 bytes.
    FieldTooLong,
    /// The output buffer cannot grow by the encoded size.
    BufferFull,
}

} // verus!
