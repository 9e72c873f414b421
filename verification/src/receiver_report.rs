//! The ReceiverReport (RR) packet: reception quality feedback for an RTP
//! stream — a reporter SSRC, a list of reception report blocks, and an
//! opaque profile-specific extension tail.

use vstd::prelude::*;

use crate::errors::Error;
use crate::header::{header_wire, lemma_header_wire_parse, parse_header, Header, PacketType,
    COUNT_MAX, HEADER_LENGTH, SSRC_LENGTH};
use crate::reception_report::{parse_reception_report, reception_report_wire, ReceptionReport,
    RECEPTION_REPORT_LENGTH};
use crate::wire::{be32, be32_at, copy_range, get_padding, lemma_be32_roundtrip, push_u32_be,
    read_u32_be, spec_padding, zero_bytes};

verus! {

/// Byte offset of the reporter SSRC, right after the header.
pub const RR_SSRC_OFFSET: usize = 4;

/// Byte offset of the first reception report block.
pub const RR_REPORT_OFFSET: usize = 8;

/// The mathematical content of a ReceiverReport packet.
#[verifier::ext_equal]
pub ghost struct ReceiverReportModel {
    pub ssrc: u32,
    pub reports: Seq<ReceptionReport>,
    pub profile_extensions: Seq<u8>,
}

/// The wire bytes of a report list: each block's 24 bytes, in order.
pub open spec fn reports_wire(reports: Seq<ReceptionReport>) -> Seq<u8>
    decreases reports.len(),
{
    if reports.len() == 0 {
        Seq::empty()
    } else {
        reception_report_wire(reports[0]) + reports_wire(reports.drop_first())
    }
}

/// A report list occupies 24 bytes per block.
pub proof fn lemma_reports_wire_len(reports: Seq<ReceptionReport>)
    ensures
        reports_wire(reports).len() == 24 * reports.len(),
    decreases reports.len(),
{
    if reports.len() > 0 {
        lemma_reports_wire_len(reports.drop_first());
    }
}

/// The 24 bytes at slot `k` of a report list are block `k`.
pub proof fn lemma_reports_wire_index(reports: Seq<ReceptionReport>, k: int)
    requires
        0 <= k < reports.len(),
    ensures
        reports_wire(reports).subrange(24 * k, 24 * k + 24) == reception_report_wire(reports[k]),
    decreases k,
{
    lemma_reports_wire_len(reports);
    lemma_reports_wire_len(reports.drop_first());
    if k == 0 {
        assert(reports_wire(reports).subrange(0, 24) =~= reception_report_wire(reports[0]));
    } else {
        lemma_reports_wire_index(reports.drop_first(), k - 1);
        assert(reports_wire(reports).subrange(24 * k, 24 * k + 24) =~= reports_wire(
            reports.drop_first(),
        ).subrange(24 * (k - 1), 24 * (k - 1) + 24));
    }
}

/// Extending the encoded prefix of a report list by one block appends its 24
/// bytes.
pub proof fn lemma_reports_wire_snoc(reports: Seq<ReceptionReport>, i: int)
    requires
        0 <= i < reports.len(),
    ensures
        reports_wire(reports.take(i + 1)) == reports_wire(reports.take(i))
            + reception_report_wire(reports[i]),
    decreases i,
{
    if i == 0 {
        assert(reports.take(1).drop_first() =~= Seq::<ReceptionReport>::empty());
        assert(reports.take(0) =~= Seq::<ReceptionReport>::empty());
        assert(reports_wire(reports.take(1)) =~= reports_wire(reports.take(0))
            + reception_report_wire(reports[0]));
    } else {
        lemma_reports_wire_snoc(reports.drop_first(), i - 1);
        assert(reports.take(i + 1).drop_first() =~= reports.drop_first().take(i));
        assert(reports.take(i).drop_first() =~= reports.drop_first().take(i - 1));
        assert(reports_wire(reports.take(i + 1)) =~= reports_wire(reports.take(i))
            + reception_report_wire(reports[i]));
    }
}

/// The report count fits the header's 5-bit count field.
pub open spec fn rr_counts_ok(m: ReceiverReportModel) -> bool {
    m.reports.len() <= 31
}

/// Every report block fits its wire fields.
pub open spec fn rr_reports_ok(m: ReceiverReportModel) -> bool {
    forall|i: int| 0 <= i < m.reports.len() ==> (#[trigger] m.reports[i]).wf()
}

/// Byte length of the packet before the extension tail is padded: header,
/// reporter SSRC, report blocks, and the extension bytes.
pub open spec fn rr_unpadded_len(m: ReceiverReportModel) -> int {
    8 + 24 * m.reports.len() + m.profile_extensions.len() as int
}

/// Total byte length of the packet on the wire, extension tail padded.
pub open spec fn rr_wire_len(m: ReceiverReportModel) -> int {
    rr_unpadded_len(m) + spec_padding(m.profile_extensions.len() as int)
}

/// The padded total fits the header's 16-bit length-in-words field.
pub open spec fn rr_size_ok(m: ReceiverReportModel) -> bool {
    rr_wire_len(m) <= 0x40000
}

/// The header a ReceiverReport writes: count is the report count and length
/// is the padded total in 32-bit words minus one.
pub open spec fn rr_header(m: ReceiverReportModel) -> Header {
    Header {
        version: 2,
        padding: false,
        count: m.reports.len() as u8,
        packet_type: PacketType::ReceiverReport,
        length: (rr_wire_len(m) / 4 - 1) as u16,
    }
}

/// The full wire bytes of a ReceiverReport packet.
pub open spec fn rr_wire(m: ReceiverReportModel) -> Seq<u8> {
    header_wire(rr_header(m)) + be32(m.ssrc) + reports_wire(m.reports) + m.profile_extensions
        + zero_bytes(spec_padding(m.profile_extensions.len() as int) as nat)
}

/// The decode of a byte buffer as a ReceiverReport packet, with the error
/// kind on every rejected input.
pub open spec fn parse_receiver_report(raw: Seq<u8>) -> Result<ReceiverReportModel, Error> {
    if raw.len() < 8 {
        Err(Error::PacketTooShort)
    } else {
        let h = parse_header(raw);
        if h.packet_type != PacketType::ReceiverReport {
            Err(Error::WrongPacketType)
        } else {
            let count = h.count as int;
            let avail = raw.len() - 8;
            if 24 * count <= avail {
                Ok(
                    ReceiverReportModel {
                        ssrc: be32_at(raw, 4),
                        reports: Seq::new(
                            count as nat,
                            |j: int| parse_reception_report(
                                raw.subrange(8 + 24 * j, 8 + 24 * j + 24),
                            ),
                        ),
                        profile_extensions: raw.subrange(8 + 24 * count, raw.len() as int),
                    },
                )
            } else if avail % 24 == 0 {
                Err(Error::InvalidHeader)
            } else {
                Err(Error::PacketTooShort)
            }
        }
    }
}

/// A ReceiverReport (RR) packet provides reception quality feedback for an
/// RTP stream.
#[derive(Debug, PartialEq, Default, Clone)]
pub struct ReceiverReport {
    /// The synchronization source identifier for the originator of this
    /// packet.
    pub ssrc: u32,
    /// Zero or more reception report blocks, one per source heard by this
    /// receiver since the last report.
    pub reports: Vec<ReceptionReport>,
    /// Additional payload-specific information, reported regularly about the
    /// receiver; zero-padded to a 4-byte multiple on encode.
    pub profile_extensions: Vec<u8>,
}

impl View for ReceiverReport {
    type V = ReceiverReportModel;

    open spec fn view(&self) -> ReceiverReportModel {
        ReceiverReportModel {
            ssrc: self.ssrc,
            reports: self.reports@,
            profile_extensions: self.profile_extensions@,
        }
    }
}

impl ReceiverReport {
    /// Byte length of this packet before the extension tail is padded.
    fn len(&self) -> (r: usize)
        requires
            rr_counts_ok(self@),
            rr_size_ok(self@),
        ensures
            r == rr_unpadded_len(self@),
    {
        let mut reps_length: usize = 0;
        let mut i: usize = 0;
        while i < self.reports.len()
            invariant
                i <= self.reports@.len(),
                self.reports@.len() <= 31,
                reps_length == 24 * i,
            decreases self.reports.len() - i,
        {
            reps_length = reps_length + self.reports[i].size();
            i = i + 1;
        }
        HEADER_LENGTH + SSRC_LENGTH + reps_length + self.profile_extensions.len()
    }

    /// The header associated with this packet.
    pub fn header(&self) -> (h: Header)
        requires
            rr_counts_ok(self@),
            rr_size_ok(self@),
        ensures
            h == rr_header(self@),
            h.wf(),
    {
        let l_unpadded = self.len();
        let l = l_unpadded + get_padding(l_unpadded);
        proof {
            assert(spec_padding(rr_unpadded_len(self@)) == spec_padding(
                self@.profile_extensions.len() as int,
            ));
        }
        Header {
            version: 2,
            padding: false,
            count: self.reports.len() as u8,
            packet_type: PacketType::ReceiverReport,
            length: (l / 4 - 1) as u16,
        }
    }

    /// The SSRC values this packet refers to: the source of each reception
    /// report, in order (not the reporter's own SSRC).
    pub fn destination_ssrc(&self) -> (r: Vec<u32>)
        ensures
            r@.len() == self.reports@.len(),
            forall|i: int| 0 <= i < r@.len() ==> r@[i] == self.reports@[i].ssrc,
    {
        let mut r: Vec<u32> = Vec::new();
        let mut i: usize = 0;
        while i < self.reports.len()
            invariant
                i <= self.reports@.len(),
                r@.len() == i,
                forall|q: int| 0 <= q < i ==> r@[q] == self.reports@[q].ssrc,
            decreases self.reports.len() - i,
        {
            r.push(self.reports[i].ssrc);
            i = i + 1;
        }
        r
    }

    /// Encode the packet in binary; the extension tail is zero-padded to a
    /// 4-byte multiple.
    #[verifier::loop_isolation(false)]
    pub fn marshal(&self) -> (r: Result<Vec<u8>, Error>)
        requires
            rr_size_ok(self@),
        ensures
            match r {
                Ok(buf) => rr_counts_ok(self@) && rr_reports_ok(self@) && buf@ == rr_wire(self@),
                Err(e) => if !rr_counts_ok(self@) {
                    e == Error::TooManyReports
                } else {
                    !rr_reports_ok(self@) && e == Error::InvalidTotalLost
                },
            },
    {
        if self.reports.len() > COUNT_MAX {
            return Err(Error::TooManyReports);
        }
        let h = self.header();
        let mut buf: Vec<u8> = match h.marshal() {
            Ok(b) => b,
            Err(_) => {
                return Err(Error::TooManyReports);
            },
        };
        push_u32_be(&mut buf, self.ssrc);
        let n = self.reports.len();
        let mut i: usize = 0;
        while i < n
            invariant
                i <= n,
                forall|q: int| 0 <= q < i ==> (#[trigger] self.reports@[q]).wf(),
                buf@ =~= header_wire(rr_header(self@)) + be32(self.ssrc) + reports_wire(
                    self.reports@.take(i as int),
                ),
            decreases n - i,
        {
            let mut block: Vec<u8> = match self.reports[i].marshal() {
                Ok(b) => b,
                Err(e) => {
                    return Err(e);
                },
            };
            buf.append(&mut block);
            proof {
                lemma_reports_wire_snoc(self.reports@, i as int);
                assert(buf@ =~= header_wire(rr_header(self@)) + be32(self.ssrc) + reports_wire(
                    self.reports@.take(i as int + 1),
                ));
            }
            i = i + 1;
        }
        proof {
            assert(self.reports@.take(n as int) =~= self.reports@);
        }
        let mut j: usize = 0;
        while j < self.profile_extensions.len()
            invariant
                j <= self.profile_extensions@.len(),
                buf@ =~= header_wire(rr_header(self@)) + be32(self.ssrc) + reports_wire(
                    self.reports@,
                ) + self.profile_extensions@.take(j as int),
            decreases self.profile_extensions.len() - j,
        {
            buf.push(self.profile_extensions[j]);
            proof {
                assert(buf@ =~= header_wire(rr_header(self@)) + be32(self.ssrc) + reports_wire(
                    self.reports@,
                ) + self.profile_extensions@.take(j as int + 1));
            }
            j = j + 1;
        }
        proof {
            assert(self.profile_extensions@.take(self.profile_extensions@.len() as int)
                =~= self.profile_extensions@);
        }
        let pad = get_padding(self.profile_extensions.len());
        let mut k: usize = 0;
        while k < pad
            invariant
                k <= pad,
                buf@ =~= header_wire(rr_header(self@)) + be32(self.ssrc) + reports_wire(
                    self.reports@,
                ) + self.profile_extensions@ + zero_bytes(k as nat),
            decreases pad - k,
        {
            buf.push(0u8);
            proof {
                assert(buf@ =~= header_wire(rr_header(self@)) + be32(self.ssrc) + reports_wire(
                    self.reports@,
                ) + self.profile_extensions@ + zero_bytes(k as nat + 1));
            }
            k = k + 1;
        }
        proof {
            assert(buf@ =~= rr_wire(self@));
        }
        Ok(buf)
    }

    /// Decode a ReceiverReport packet from binary. Every malformed input is
    /// rejected with the error kind `parse_receiver_report` gives it; no
    /// input panics.
    #[verifier::loop_isolation(false)]
    pub fn unmarshal(raw: &Vec<u8>) -> (r: Result<ReceiverReport, Error>)
        ensures
            match r {
                Ok(rr) => parse_receiver_report(raw@) == Ok::<ReceiverReportModel, Error>(rr@),
                Err(e) => parse_receiver_report(raw@) == Err::<ReceiverReportModel, Error>(e),
            },
    {
        if raw.len() < HEADER_LENGTH + SSRC_LENGTH {
            return Err(Error::PacketTooShort);
        }
        let h = match Header::unmarshal(raw) {
            Ok(h) => h,
            Err(e) => {
                return Err(e);
            },
        };
        if h.packet_type != PacketType::ReceiverReport {
            return Err(Error::WrongPacketType);
        }
        let ssrc = read_u32_be(raw, RR_SSRC_OFFSET);
        let count = h.count as usize;
        let mut reports: Vec<ReceptionReport> = Vec::new();
        let mut i: usize = RR_REPORT_OFFSET;
        while i < raw.len() && reports.len() < count
            invariant
                reports@.len() <= count,
                i == 8 + 24 * reports@.len(),
                i <= raw.len(),
                forall|q: int| 0 <= q < reports@.len() ==> reports@[q]
                    == parse_reception_report(#[trigger] raw@.subrange(8 + 24 * q, 8 + 24 * q + 24)),
            decreases raw.len() - i,
        {
            if raw.len() - i < RECEPTION_REPORT_LENGTH {
                return Err(Error::PacketTooShort);
            }
            let block = copy_range(raw, i, i + RECEPTION_REPORT_LENGTH);
            match ReceptionReport::unmarshal(&block) {
                Ok(rp) => {
                    reports.push(rp);
                },
                Err(_) => {
                    return Err(Error::PacketTooShort);
                },
            }
            i = i + RECEPTION_REPORT_LENGTH;
        }
        let pe_start = RR_REPORT_OFFSET + reports.len() * RECEPTION_REPORT_LENGTH;
        let profile_extensions = copy_range(raw, pe_start, raw.len());
        if reports.len() != count {
            return Err(Error::InvalidHeader);
        }
        proof {
            assert(reports@ =~= Seq::new(
                h.count as nat,
                |j: int| parse_reception_report(raw@.subrange(8 + 24 * j, 8 + 24 * j + 24)),
            ));
        }
        Ok(ReceiverReport { ssrc, reports, profile_extensions })
    }
}

/// Where each region of a ReceiverReport's wire bytes lies.
proof fn lemma_rr_wire_parts(m: ReceiverReportModel)
    ensures
        rr_wire(m).len() == rr_wire_len(m),
        rr_wire(m).subrange(0, 4) == header_wire(rr_header(m)),
        rr_wire(m).subrange(4, 8) == be32(m.ssrc),
        rr_wire(m).subrange(8, 8 + 24 * m.reports.len() as int) == reports_wire(m.reports),
        rr_wire(m).subrange(8 + 24 * m.reports.len() as int, rr_unpadded_len(m))
            == m.profile_extensions,
{
    let w = rr_wire(m);
    let n = m.reports.len() as int;
    lemma_reports_wire_len(m.reports);
    assert(w.subrange(0, 4) =~= header_wire(rr_header(m)));
    assert(w.subrange(4, 8) =~= be32(m.ssrc));
    assert(w.subrange(8, 8 + 24 * n) =~= reports_wire(m.reports));
    assert(w.subrange(8 + 24 * n, rr_unpadded_len(m)) =~= m.profile_extensions);
}

/// Round trip: parsing the wire bytes of any ReceiverReport whose report
/// count fits the count field, whose blocks fit their wire fields, and whose
/// extension tail is already a 4-byte multiple yields exactly that packet
/// back.
pub proof fn lemma_receiver_report_round_trip(m: ReceiverReportModel)
    requires
        rr_counts_ok(m),
        rr_reports_ok(m),
        m.profile_extensions.len() % 4 == 0,
    ensures
        parse_receiver_report(rr_wire(m)) == Ok::<ReceiverReportModel, Error>(m),
{
    let w = rr_wire(m);
    let n = m.reports.len() as int;
    lemma_rr_wire_parts(m);
    assert(spec_padding(m.profile_extensions.len() as int) == 0);
    assert(w.len() == 8 + 24 * n + m.profile_extensions.len());
    lemma_header_wire_parse(rr_header(m), w);
    assert(rr_header(m).count as int == n);
    lemma_be32_roundtrip(m.ssrc, w, 4);
    let reports = Seq::new(
        n as nat,
        |j: int| parse_reception_report(w.subrange(8 + 24 * j, 8 + 24 * j + 24)),
    );
    assert forall|j: int| 0 <= j < n implies reports[j] == m.reports[j] by {
        lemma_reports_wire_index(m.reports, j);
        assert(w.subrange(8 + 24 * j, 8 + 24 * j + 24) =~= w.subrange(8, 8 + 24 * n).subrange(
            24 * j,
            24 * j + 24,
        ));
        crate::reception_report::lemma_reception_report_round_trip(
            m.reports[j],
            reception_report_wire(m.reports[j]),
        );
    }
    assert(reports =~= m.reports);
    assert(w.subrange(8 + 24 * n, w.len() as int) == m.profile_extensions);
    assert(ReceiverReportModel {
        ssrc: be32_at(w, 4),
        reports,
        profile_extensions: w.subrange(8 + 24 * n, w.len() as int),
    } =~= m);
}

/// Type mismatch: any buffer long enough to carry a header whose
/// discriminant byte is not the ReceiverReport discriminant is rejected by
/// the ReceiverReport decoder as the wrong packet type.
pub proof fn lemma_receiver_report_wrong_packet_type(raw: Seq<u8>)
    requires
        raw.len() >= 8,
        raw[1] != 201,
    ensures
        parse_receiver_report(raw) == Err::<ReceiverReportModel, Error>(Error::WrongPacketType),
{
}

/// Truncation safety: any prefix of a well-formed ReceiverReport's wire
/// bytes that cuts into the header, the reporter SSRC, or the report list is
/// rejected as too short or as contradicting the header's declared count;
/// it never decodes to a success.
pub proof fn lemma_receiver_report_truncation(m: ReceiverReportModel, k: int)
    requires
        rr_counts_ok(m),
        0 <= k < rr_wire_len(m),
        k < 8 + 24 * m.reports.len(),
    ensures
        parse_receiver_report(rr_wire(m).subrange(0, k)) == Err::<ReceiverReportModel, Error>(
            Error::PacketTooShort,
        ) || parse_receiver_report(rr_wire(m).subrange(0, k)) == Err::<
            ReceiverReportModel,
            Error,
        >(Error::InvalidHeader),
{
    let w = rr_wire(m);
    let t = w.subrange(0, k);
    let n = m.reports.len() as int;
    lemma_rr_wire_parts(m);
    if k >= 8 {
        assert(t.subrange(0, 4) =~= w.subrange(0, 4));
        lemma_header_wire_parse(rr_header(m), t);
        assert(parse_header(t).count as int == n);
        assert(24 * n > t.len() - 8);
    }
}

} // verus!
