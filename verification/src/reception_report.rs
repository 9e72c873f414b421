//! The fixed-size reception report block: one reporter-to-source statistics
//! record, 24 bytes on the wire.

use vstd::prelude::*;

use crate::errors::Error;
use crate::wire::{
    be24, be24_at, be32, be32_at, lemma_be24_roundtrip, lemma_be32_roundtrip, push_u24_be,
    push_u32_be, read_u24_be, read_u32_be,
};

verus! {

/// Byte width of one reception report block on the wire.
pub const RECEPTION_REPORT_LENGTH: usize = 24;

/// A reception report block conveys statistics on the reception of RTP
/// packets from a single synchronization source.
#[derive(Clone, Copy, Debug, PartialEq, Eq, Structural)]
pub struct ReceptionReport {
    /// The SSRC identifier of the source to which this report pertains.
    pub ssrc: u32,
    /// The fraction of RTP packets lost since the previous report.
    pub fraction_lost: u8,
    /// The cumulative number of packets lost; a 24-bit field on the wire.
    pub total_lost: u32,
    /// The extended highest sequence number received.
    pub last_sequence_number: u32,
    /// An estimate of the statistical variance of interarrival time.
    pub jitter: u32,
    /// The middle 32 bits of the NTP timestamp of the last sender report.
    pub last_sr: u32,
    /// The delay since the last sender report, in units of 1/65536 seconds.
    pub delay_since_last_sr: u32,
}

/// The 24 wire bytes of one reception report block.
pub open spec fn reception_report_wire(rp: ReceptionReport) -> Seq<u8> {
    be32(rp.ssrc) + seq![rp.fraction_lost] + be24(rp.total_lost) + be32(rp.last_sequence_number)
        + be32(rp.jitter) + be32(rp.last_sr) + be32(rp.delay_since_last_sr)
}

/// The block denoted by the first 24 bytes of `raw`.
pub open spec fn parse_reception_report(raw: Seq<u8>) -> ReceptionReport
    recommends
        raw.len() >= 24,
{
    ReceptionReport {
        ssrc: be32_at(raw, 0),
        fraction_lost: raw[4],
        total_lost: be24_at(raw, 5),
        last_sequence_number: be32_at(raw, 8),
        jitter: be32_at(raw, 12),
        last_sr: be32_at(raw, 16),
        delay_since_last_sr: be32_at(raw, 20),
    }
}

impl ReceptionReport {
    /// A block is well formed when its cumulative loss fits the 24-bit wire
    /// field.
    pub open spec fn wf(self) -> bool {
        self.total_lost < 0x1000000
    }

    /// Byte width of this block on the wire.
    pub fn size(&self) -> (r: usize)
        ensures
            r == RECEPTION_REPORT_LENGTH,
    {
        RECEPTION_REPORT_LENGTH
    }

    /// Encode the block as its 24 wire bytes.
    pub fn marshal(&self) -> (r: Result<Vec<u8>, Error>)
        ensures
            match r {
                Ok(buf) => self.wf() && buf@ == reception_report_wire(*self),
                Err(e) => !self.wf() && e == Error::InvalidTotalLost,
            },
    {
        if self.total_lost >= 0x1000000 {
            return Err(Error::InvalidTotalLost);
        }
        let mut buf: Vec<u8> = Vec::new();
        push_u32_be(&mut buf, self.ssrc);
        buf.push(self.fraction_lost);
        push_u24_be(&mut buf, self.total_lost);
        push_u32_be(&mut buf, self.last_sequence_number);
        push_u32_be(&mut buf, self.jitter);
        push_u32_be(&mut buf, self.last_sr);
        push_u32_be(&mut buf, self.delay_since_last_sr);
        proof {
            assert(buf@ =~= reception_report_wire(*self));
        }
        Ok(buf)
    }

    /// Decode one block from the first 24 bytes of `raw`.
    pub fn unmarshal(raw: &Vec<u8>) -> (r: Result<ReceptionReport, Error>)
        ensures
            match r {
                Ok(rp) => raw@.len() >= 24 && rp == parse_reception_report(raw@) && rp.wf(),
                Err(e) => raw@.len() < 24 && e == Error::PacketTooShort,
            },
    {
        if raw.len() < RECEPTION_REPORT_LENGTH {
            return Err(Error::PacketTooShort);
        }
        Ok(
            ReceptionReport {
                ssrc: read_u32_be(raw, 0),
                fraction_lost: raw[4],
                total_lost: read_u24_be(raw, 5),
                last_sequence_number: read_u32_be(raw, 8),
                jitter: read_u32_be(raw, 12),
                last_sr: read_u32_be(raw, 16),
                delay_since_last_sr: read_u32_be(raw, 20),
            },
        )
    }
}

/// Parsing the wire bytes of a well-formed block yields the block back.
pub proof fn lemma_reception_report_round_trip(rp: ReceptionReport, raw: Seq<u8>)
    requires
        rp.wf(),
        raw == reception_report_wire(rp),
    ensures
        raw.len() == 24,
        parse_reception_report(raw) == rp,
{
    assert(raw.subrange(0, 4) =~= be32(rp.ssrc));
    lemma_be32_roundtrip(rp.ssrc, raw, 0);
    assert(raw[4] == rp.fraction_lost);
    assert(raw.subrange(5, 8) =~= be24(rp.total_lost));
    lemma_be24_roundtrip(rp.total_lost, raw, 5);
    assert(raw.subrange(8, 12) =~= be32(rp.last_sequence_number));
    lemma_be32_roundtrip(rp.last_sequence_number, raw, 8);
    assert(raw.subrange(12, 16) =~= be32(rp.jitter));
    lemma_be32_roundtrip(rp.jitter, raw, 12);
    assert(raw.subrange(16, 20) =~= be32(rp.last_sr));
    lemma_be32_roundtrip(rp.last_sr, raw, 16);
    assert(raw.subrange(20, 24) =~= be32(rp.delay_since_last_sr));
    lemma_be32_roundtrip(rp.delay_since_last_sr, raw, 20);
}

} // verus!
