//! The 4-byte common prefix shared by every RTCP packet: version, padding
//! flag, a 5-bit multiplicity count, the packet-type discriminant, and the
//! length of the packet in 32-bit words minus one.

use vstd::prelude::*;

use crate::errors::Error;
use crate::wire::{be16, be16_at, lemma_be16_roundtrip};

verus! {

/// Byte width of the common packet header.
pub const HEADER_LENGTH: usize = 4;

/// Byte width of an SSRC/CSRC identifier.
pub const SSRC_LENGTH: usize = 4;

/// Largest value the header's 5-bit count field can hold.
pub const COUNT_MAX: usize = 31;

/// Largest byte length a single length-prefixed text field can hold.
pub const SDES_MAX_OCTET_COUNT: usize = 255;

/// The RTCP packet-type discriminant carried in the header's second byte.
#[derive(Clone, Copy, Debug, PartialEq, Eq, Structural)]
pub enum PacketType {
    Unsupported,
    SenderReport,
    ReceiverReport,
    SourceDescription,
    Goodbye,
    ApplicationDefined,
}

/// The discriminant byte written on the wire for each packet type.
pub open spec fn spec_packet_type_to_u8(t: PacketType) -> u8 {
    match t {
        PacketType::Unsupported => 0,
        PacketType::SenderReport => 200,
        PacketType::ReceiverReport => 201,
        PacketType::SourceDescription => 202,
        PacketType::Goodbye => 203,
        PacketType::ApplicationDefined => 204,
    }
}

/// The packet type a discriminant byte denotes; bytes outside the standard
/// range map to `Unsupported`.
pub open spec fn spec_packet_type_from_u8(b: u8) -> PacketType {
    if b == 200 {
        PacketType::SenderReport
    } else if b == 201 {
        PacketType::ReceiverReport
    } else if b == 202 {
        PacketType::SourceDescription
    } else if b == 203 {
        PacketType::Goodbye
    } else if b == 204 {
        PacketType::ApplicationDefined
    } else {
        PacketType::Unsupported
    }
}

impl PacketType {
    /// The discriminant byte written on the wire for this packet type.
    pub fn to_u8(&self) -> (r: u8)
        ensures
            r == spec_packet_type_to_u8(*self),
    {
        match *self {
            PacketType::Unsupported => 0,
            PacketType::SenderReport => 200,
            PacketType::ReceiverReport => 201,
            PacketType::SourceDescription => 202,
            PacketType::Goodbye => 203,
            PacketType::ApplicationDefined => 204,
        }
    }

    /// The packet type a discriminant byte denotes.
    pub fn from_u8(b: u8) -> (r: PacketType)
        ensures
            r == spec_packet_type_from_u8(b),
    {
        if b == 200 {
            PacketType::SenderReport
        } else if b == 201 {
            PacketType::ReceiverReport
        } else if b == 202 {
            PacketType::SourceDescription
        } else if b == 203 {
            PacketType::Goodbye
        } else if b == 204 {
            PacketType::ApplicationDefined
        } else {
            PacketType::Unsupported
        }
    }
}

/// The decoded form of the common packet header.
#[derive(Clone, Copy, Debug, PartialEq, Eq, Structural)]
pub struct Header {
    /// Protocol version carried in the top two bits; always 2 on encode.
    pub version: u8,
    /// Whether the padding bit is set.
    pub padding: bool,
    /// The 5-bit multiplicity field: source count or report count.
    pub count: u8,
    /// The packet-type discriminant.
    pub packet_type: PacketType,
    /// Total packet length in 32-bit words, minus one.
    pub length: u16,
}

/// The four header bytes a header writes on the wire.
pub open spec fn header_wire(h: Header) -> Seq<u8> {
    seq![
        (h.version * 64 + (if h.padding {
            32int
        } else {
            0int
        }) + h.count) as u8,
        spec_packet_type_to_u8(h.packet_type),
    ] + be16(h.length)
}

/// The header denoted by the first four bytes of `raw`.
pub open spec fn parse_header(raw: Seq<u8>) -> Header
    recommends
        raw.len() >= 4,
{
    Header {
        version: (raw[0] / 64) as u8,
        padding: (raw[0] / 32) % 2 == 1,
        count: (raw[0] % 32) as u8,
        packet_type: spec_packet_type_from_u8(raw[1]),
        length: be16_at(raw, 2),
    }
}

impl Header {
    /// A header is well formed when its fields fit the wire layout's bit
    /// widths.
    pub open spec fn wf(self) -> bool {
        self.version < 4 && self.count < 32
    }

    /// Encode the header as its four wire bytes.
    pub fn marshal(&self) -> (r: Result<Vec<u8>, Error>)
        ensures
            match r {
                Ok(buf) => self.wf() && buf@ == header_wire(*self),
                Err(e) => !self.wf() && e == Error::InvalidHeader,
            },
    {
        if self.version >= 4 || self.count >= 32 {
            return Err(Error::InvalidHeader);
        }
        let b0: u8 = self.version * 64 + (if self.padding {
            32u8
        } else {
            0u8
        }) + self.count;
        let mut buf: Vec<u8> = Vec::new();
        buf.push(b0);
        buf.push(self.packet_type.to_u8());
        buf.push((self.length / 0x100) as u8);
        buf.push((self.length % 0x100) as u8);
        proof {
            assert(buf@ =~= header_wire(*self));
        }
        Ok(buf)
    }

    /// Decode the four leading header bytes of `raw`.
    pub fn unmarshal(raw: &Vec<u8>) -> (r: Result<Header, Error>)
        ensures
            match r {
                Ok(h) => raw@.len() >= 4 && h == parse_header(raw@),
                Err(e) => raw@.len() < 4 && e == Error::PacketTooShort,
            },
    {
        if raw.len() < 4 {
            return Err(Error::PacketTooShort);
        }
        Ok(
            Header {
                version: raw[0] / 64,
                padding: (raw[0] / 32) % 2 == 1,
                count: raw[0] % 32,
                packet_type: PacketType::from_u8(raw[1]),
                length: crate::wire::read_u16_be(raw, 2),
            },
        )
    }
}

/// Parsing a buffer that starts with the wire bytes of a well-formed header
/// yields that header back.
pub proof fn lemma_header_wire_parse(h: Header, raw: Seq<u8>)
    requires
        h.wf(),
        raw.len() >= 4,
        raw.subrange(0, 4) == header_wire(h),
    ensures
        parse_header(raw) == h,
{
    assert(raw[0] == header_wire(h)[0] && raw[1] == header_wire(h)[1]) by {
        assert(raw.subrange(0, 4)[0] == raw[0]);
        assert(raw.subrange(0, 4)[1] == raw[1]);
    }
    let ver = h.version;
    let cnt = h.count;
    let pad: u8 = if h.padding {
        1
    } else {
        0
    };
    let b0: u8 = (ver * 64 + pad * 32 + cnt) as u8;
    assert(raw[0] == b0);
    assert(ver < 4 && cnt < 32 && pad <= 1 ==> ((ver * 64 + pad * 32 + cnt) as u8) / 64 == ver && (((
    ver * 64 + pad * 32 + cnt) as u8) / 32) % 2 == pad && ((ver * 64 + pad * 32 + cnt) as u8) % 32
        == cnt) by (bit_vector);
    match h.packet_type {
        PacketType::Unsupported => {},
        PacketType::SenderReport => {},
        PacketType::ReceiverReport => {},
        PacketType::SourceDescription => {},
        PacketType::Goodbye => {},
        PacketType::ApplicationDefined => {},
    }
    assert(raw.subrange(2, 4) =~= header_wire(h).subrange(2, 4));
    assert(header_wire(h).subrange(2, 4) =~= be16(h.length));
    lemma_be16_roundtrip(h.length, raw, 2);
}

} // verus!
