use vstd::prelude::*;

verus! {

/// The error kinds that the RTCP codecs report.
///
/// Decode-side kinds describe why a byte buffer was rejected; encode-side
/// kinds describe why an in-memory packet cannot be represented on the wire.
#[derive(Clone, Copy, Debug, PartialEq, Eq, Structural)]
pub enum Error {
    /// The header's discriminant does not match the decoder that was invoked.
    WrongPacketType,
    /// A bounds check against the remaining buffer failed.
    PacketTooShort,
    /// The number of sub-records that could be parsed does not match the
    /// count the header declared.
    InvalidHeader,
    /// The reason bytes of a Goodbye packet are not valid UTF-8.
    InvalidText,
    /// Encode-time: more sources than the 5-bit count field can represent.
    TooManySources,
    /// Encode-time: more report blocks than the 5-bit count field can represent.
    TooManyReports,
    /// Encode-time: the reason's byte length exceeds the one-byte length prefix.
    ReasonTooLong,
    /// Encode-time: a reception report's cumulative loss exceeds 24 bits.
    InvalidTotalLost,
}

} // verus!
