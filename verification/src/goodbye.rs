//! The Goodbye (BYE) packet: one or more sources that are no longer active,
//! with an optional UTF-8 reason for leaving.

use vstd::prelude::*;
use vstd::string::StrSliceExecFns;
use vstd::utf8::{decode_utf8, encode_utf8, encode_utf8_decode_utf8, encode_utf8_valid_utf8,
    valid_utf8};

use crate::errors::Error;
use crate::header::{header_wire, lemma_header_wire_parse, parse_header, Header, PacketType,
    COUNT_MAX, HEADER_LENGTH, SDES_MAX_OCTET_COUNT, SSRC_LENGTH};
use crate::wire::{be32, be32_at, copy_range, get_padding, lemma_be32_roundtrip, push_u32_be,
    read_u32_be, spec_padding, zero_bytes};

verus! {

/// The mathematical content of a Goodbye packet: the source identifiers in
/// wire order and the reason text.
#[verifier::ext_equal]
pub ghost struct GoodbyeModel {
    pub sources: Seq<u32>,
    pub reason: Seq<char>,
}

/// The wire bytes of a source list: each identifier as four big-endian
/// bytes, in order.
pub open spec fn sources_wire(sources: Seq<u32>) -> Seq<u8>
    decreases sources.len(),
{
    if sources.len() == 0 {
        Seq::empty()
    } else {
        be32(sources[0]) + sources_wire(sources.drop_first())
    }
}

/// A source list occupies four bytes per identifier.
pub proof fn lemma_sources_wire_len(sources: Seq<u32>)
    ensures
        sources_wire(sources).len() == 4 * sources.len(),
    decreases sources.len(),
{
    if sources.len() > 0 {
        lemma_sources_wire_len(sources.drop_first());
    }
}

/// The four bytes at slot `k` of a source list are the identifier `k`.
pub proof fn lemma_sources_wire_index(sources: Seq<u32>, k: int)
    requires
        0 <= k < sources.len(),
    ensures
        sources_wire(sources).subrange(4 * k, 4 * k + 4) == be32(sources[k]),
    decreases k,
{
    lemma_sources_wire_len(sources);
    lemma_sources_wire_len(sources.drop_first());
    if k == 0 {
        assert(sources_wire(sources).subrange(0, 4) =~= be32(sources[0]));
    } else {
        lemma_sources_wire_index(sources.drop_first(), k - 1);
        assert(sources_wire(sources).subrange(4 * k, 4 * k + 4) =~= sources_wire(
            sources.drop_first(),
        ).subrange(4 * (k - 1), 4 * (k - 1) + 4));
    }
}

/// Extending the encoded prefix of a source list by one identifier appends
/// its four bytes.
pub proof fn lemma_sources_wire_snoc(sources: Seq<u32>, i: int)
    requires
        0 <= i < sources.len(),
    ensures
        sources_wire(sources.take(i + 1)) == sources_wire(sources.take(i)) + be32(sources[i]),
    decreases i,
{
    if i == 0 {
        assert(sources.take(1).drop_first() =~= Seq::<u32>::empty());
        assert(sources.take(0) =~= Seq::<u32>::empty());
        assert(sources_wire(sources.take(1)) =~= sources_wire(sources.take(0)) + be32(sources[0]));
    } else {
        lemma_sources_wire_snoc(sources.drop_first(), i - 1);
        assert(sources.take(i + 1).drop_first() =~= sources.drop_first().take(i));
        assert(sources.take(i).drop_first() =~= sources.drop_first().take(i - 1));
        assert(sources_wire(sources.take(i + 1)) =~= sources_wire(sources.take(i)) + be32(
            sources[i],
        ));
    }
}

/// A Goodbye is representable on the wire when its source count fits the
/// 5-bit count field and its reason fits the one-byte length prefix.
pub open spec fn goodbye_wf(m: GoodbyeModel) -> bool {
    m.sources.len() <= 31 && encode_utf8(m.reason).len() <= 255
}

/// Byte length of the packet before 32-bit alignment: header, sources, the
/// reason length byte, and the reason bytes.
pub open spec fn goodbye_unpadded_len(m: GoodbyeModel) -> int {
    4 + 4 * m.sources.len() + 1 + encode_utf8(m.reason).len() as int
}

/// Total byte length of the packet on the wire.
pub open spec fn goodbye_wire_len(m: GoodbyeModel) -> int {
    goodbye_unpadded_len(m) + spec_padding(goodbye_unpadded_len(m))
}

/// The header a Goodbye writes: count is the source count and length is the
/// padded total in 32-bit words minus one.
pub open spec fn goodbye_header(m: GoodbyeModel) -> Header {
    Header {
        version: 2,
        padding: false,
        count: m.sources.len() as u8,
        packet_type: PacketType::Goodbye,
        length: (goodbye_wire_len(m) / 4 - 1) as u16,
    }
}

/// The full wire bytes of a Goodbye packet.
pub open spec fn goodbye_wire(m: GoodbyeModel) -> Seq<u8> {
    let rb = encode_utf8(m.reason);
    header_wire(goodbye_header(m)) + sources_wire(m.sources) + seq![rb.len() as u8] + rb
        + zero_bytes(spec_padding(goodbye_unpadded_len(m)) as nat)
}

/// The decode of a byte buffer as a Goodbye packet, with the error kind on
/// every rejected input.
pub open spec fn parse_goodbye(raw: Seq<u8>) -> Result<GoodbyeModel, Error> {
    if raw.len() < 4 {
        Err(Error::PacketTooShort)
    } else {
        let h = parse_header(raw);
        if h.packet_type != PacketType::Goodbye {
            Err(Error::WrongPacketType)
        } else if raw.len() % 4 != 0 {
            Err(Error::PacketTooShort)
        } else if 4 + 4 * (h.count as int) > raw.len() {
            Err(Error::PacketTooShort)
        } else {
            let sources = Seq::new(h.count as nat, |i: int| be32_at(raw, 4 + 4 * i));
            let ro = 4 + 4 * (h.count as int);
            if ro < raw.len() {
                let rlen = raw[ro] as int;
                if ro + 1 + rlen > raw.len() {
                    Err(Error::PacketTooShort)
                } else {
                    let rb = raw.subrange(ro + 1, ro + 1 + rlen);
                    if valid_utf8(rb) {
                        Ok(GoodbyeModel { sources, reason: decode_utf8(rb) })
                    } else {
                        Err(Error::InvalidText)
                    }
                }
            } else {
                Ok(GoodbyeModel { sources, reason: Seq::empty() })
            }
        }
    }
}

/// The Goodbye packet indicates that one or more sources are no longer
/// active.
#[derive(Debug, PartialEq, Default, Clone)]
pub struct Goodbye {
    /// The SSRC/CSRC identifiers that are no longer active.
    pub sources: Vec<u32>,
    /// Optional text indicating the reason for leaving.
    pub reason: String,
}

impl View for Goodbye {
    type V = GoodbyeModel;

    open spec fn view(&self) -> GoodbyeModel {
        GoodbyeModel { sources: self.sources@, reason: self.reason@ }
    }
}

/// Relies on std's `String::from_utf8`: it succeeds exactly on input that is
/// valid UTF-8, and the returned string is the one those bytes encode.
#[verifier::external_body]
fn string_from_utf8(bytes: Vec<u8>) -> (r: Option<String>)
    ensures
        match r {
            Some(s) => encode_utf8(s@) == bytes@,
            None => !valid_utf8(bytes@),
        },
{
    String::from_utf8(bytes).ok()
}

impl Goodbye {
    /// Total byte length of this packet on the wire, 32-bit aligned.
    fn len(&self) -> (r: usize)
        requires
            goodbye_wf(self@),
        ensures
            r == goodbye_wire_len(self@),
    {
        let srcs_length = self.sources.len() * SSRC_LENGTH;
        let reason_length = self.reason.as_str().len() + 1;
        let l = HEADER_LENGTH + srcs_length + reason_length;
        l + get_padding(l)
    }

    /// The header associated with this packet.
    pub fn header(&self) -> (h: Header)
        requires
            goodbye_wf(self@),
        ensures
            h == goodbye_header(self@),
            h.wf(),
    {
        Header {
            version: 2,
            padding: false,
            count: self.sources.len() as u8,
            packet_type: PacketType::Goodbye,
            length: (self.len() / 4 - 1) as u16,
        }
    }

    /// The SSRC values this packet refers to: the source list, verbatim.
    pub fn destination_ssrc(&self) -> (r: Vec<u32>)
        ensures
            r@ == self.sources@,
    {
        let mut r: Vec<u32> = Vec::new();
        let mut i: usize = 0;
        while i < self.sources.len()
            invariant
                i <= self.sources.len(),
                r@ =~= self.sources@.take(i as int),
            decreases self.sources.len() - i,
        {
            r.push(self.sources[i]);
            i = i + 1;
            proof {
                assert(r@ =~= self.sources@.take(i as int));
            }
        }
        proof {
            assert(self.sources@.take(self.sources@.len() as int) =~= self.sources@);
        }
        r
    }

    /// Encode the packet in binary.
    #[verifier::loop_isolation(false)]
    pub fn marshal(&self) -> (r: Result<Vec<u8>, Error>)
        ensures
            match r {
                Ok(buf) => goodbye_wf(self@) && buf@ == goodbye_wire(self@),
                Err(e) => !goodbye_wf(self@) && e == (if self@.sources.len() > 31 {
                    Error::TooManySources
                } else {
                    Error::ReasonTooLong
                }),
            },
    {
        if self.sources.len() > COUNT_MAX {
            return Err(Error::TooManySources);
        }
        let rb: Vec<u8> = self.reason.as_str().as_bytes_vec();
        if rb.len() > SDES_MAX_OCTET_COUNT {
            return Err(Error::ReasonTooLong);
        }
        let h = self.header();
        let mut buf: Vec<u8> = match h.marshal() {
            Ok(b) => b,
            Err(_) => {
                return Err(Error::ReasonTooLong);
            },
        };
        let n = self.sources.len();
        let mut i: usize = 0;
        while i < n
            invariant
                i <= n,
                buf@ =~= header_wire(goodbye_header(self@)) + sources_wire(
                    self.sources@.take(i as int),
                ),
            decreases n - i,
        {
            push_u32_be(&mut buf, self.sources[i]);
            proof {
                lemma_sources_wire_snoc(self.sources@, i as int);
                assert(buf@ =~= header_wire(goodbye_header(self@)) + sources_wire(
                    self.sources@.take(i as int + 1),
                ));
            }
            i = i + 1;
        }
        proof {
            assert(self.sources@.take(n as int) =~= self.sources@);
        }
        buf.push(rb.len() as u8);
        let mut j: usize = 0;
        while j < rb.len()
            invariant
                j <= rb.len(),
                buf@ =~= header_wire(goodbye_header(self@)) + sources_wire(self.sources@) + seq![
                    rb@.len() as u8,
                ] + rb@.take(j as int),
            decreases rb.len() - j,
        {
            buf.push(rb[j]);
            proof {
                assert(buf@ =~= header_wire(goodbye_header(self@)) + sources_wire(self.sources@)
                    + seq![rb@.len() as u8] + rb@.take(j as int + 1));
            }
            j = j + 1;
        }
        proof {
            assert(rb@.take(rb@.len() as int) =~= rb@);
        }
        let l = HEADER_LENGTH + n * SSRC_LENGTH + 1 + rb.len();
        let pad = get_padding(l);
        let mut k: usize = 0;
        while k < pad
            invariant
                k <= pad,
                buf@ =~= header_wire(goodbye_header(self@)) + sources_wire(self.sources@) + seq![
                    rb@.len() as u8,
                ] + rb@ + zero_bytes(k as nat),
            decreases pad - k,
        {
            buf.push(0u8);
            proof {
                assert(buf@ =~= header_wire(goodbye_header(self@)) + sources_wire(self.sources@)
                    + seq![rb@.len() as u8] + rb@ + zero_bytes(k as nat + 1));
            }
            k = k + 1;
        }
        proof {
            assert(buf@ =~= goodbye_wire(self@));
        }
        Ok(buf)
    }

    /// Decode a Goodbye packet from binary. Every malformed input is
    /// rejected with the error kind `parse_goodbye` gives it; no input
    /// panics.
    #[verifier::loop_isolation(false)]
    pub fn unmarshal(raw: &Vec<u8>) -> (r: Result<Goodbye, Error>)
        ensures
            match r {
                Ok(g) => parse_goodbye(raw@) == Ok::<GoodbyeModel, Error>(g@),
                Err(e) => parse_goodbye(raw@) == Err::<GoodbyeModel, Error>(e),
            },
    {
        let h = match Header::unmarshal(raw) {
            Ok(h) => h,
            Err(e) => {
                return Err(e);
            },
        };
        if h.packet_type != PacketType::Goodbye {
            return Err(Error::WrongPacketType);
        }
        if get_padding(raw.len()) != 0 {
            return Err(Error::PacketTooShort);
        }
        let count = h.count as usize;
        let reason_offset = HEADER_LENGTH + count * SSRC_LENGTH;
        if reason_offset > raw.len() {
            return Err(Error::PacketTooShort);
        }
        let mut sources: Vec<u32> = Vec::new();
        let mut i: usize = 0;
        while i < count
            invariant
                i <= count,
                sources@ =~= Seq::new(i as nat, |k: int| be32_at(raw@, 4 + 4 * k)),
            decreases count - i,
        {
            sources.push(read_u32_be(raw, HEADER_LENGTH + i * SSRC_LENGTH));
            i = i + 1;
            proof {
                assert(sources@ =~= Seq::new(i as nat, |k: int| be32_at(raw@, 4 + 4 * k)));
            }
        }
        if reason_offset < raw.len() {
            let reason_len = raw[reason_offset] as usize;
            if reason_len > raw.len() - (reason_offset + 1) {
                return Err(Error::PacketTooShort);
            }
            let rbytes = copy_range(raw, reason_offset + 1, reason_offset + 1 + reason_len);
            match string_from_utf8(rbytes) {
                Some(reason) => {
                    proof {
                        encode_utf8_decode_utf8(reason@);
                        encode_utf8_valid_utf8(reason@);
                        assert(sources@ == Seq::new(
                            h.count as nat,
                            |k: int| be32_at(raw@, 4 + 4 * k),
                        ));
                    }
                    Ok(Goodbye { sources, reason })
                },
                None => Err(Error::InvalidText),
            }
        } else {
            proof {
                assert(sources@ == Seq::new(h.count as nat, |k: int| be32_at(raw@, 4 + 4 * k)));
            }
            Ok(Goodbye { sources, reason: String::new() })
        }
    }
}

/// Where each region of a well-formed Goodbye's wire bytes lies.
proof fn lemma_goodbye_wire_parts(m: GoodbyeModel)
    requires
        goodbye_wf(m),
    ensures
        goodbye_wire(m).len() == goodbye_wire_len(m),
        goodbye_wire(m).len() % 4 == 0,
        goodbye_unpadded_len(m) <= goodbye_wire_len(m) < goodbye_unpadded_len(m) + 4,
        goodbye_wire(m).subrange(0, 4) == header_wire(goodbye_header(m)),
        goodbye_wire(m).subrange(4, 4 + 4 * m.sources.len() as int) == sources_wire(m.sources),
        goodbye_wire(m)[4 + 4 * m.sources.len() as int] == encode_utf8(m.reason).len() as u8,
        goodbye_wire(m).subrange(
            4 + 4 * m.sources.len() as int + 1,
            goodbye_unpadded_len(m),
        ) == encode_utf8(m.reason),
{
    let w = goodbye_wire(m);
    let rb = encode_utf8(m.reason);
    let n = m.sources.len() as int;
    let l = goodbye_unpadded_len(m);
    lemma_sources_wire_len(m.sources);
    assert(w.len() == l + spec_padding(l));
    assert(w.subrange(0, 4) =~= header_wire(goodbye_header(m)));
    assert(w.subrange(4, 4 + 4 * n) =~= sources_wire(m.sources));
    assert(w[4 + 4 * n] == rb.len() as u8);
    assert(w.subrange(4 + 4 * n + 1, l) =~= rb);
}

/// Round trip: parsing the wire bytes of any well-formed Goodbye yields
/// exactly that Goodbye back, its sources in order and its reason intact.
pub proof fn lemma_goodbye_round_trip(m: GoodbyeModel)
    requires
        goodbye_wf(m),
    ensures
        parse_goodbye(goodbye_wire(m)) == Ok::<GoodbyeModel, Error>(m),
{
    let w = goodbye_wire(m);
    let rb = encode_utf8(m.reason);
    let n = m.sources.len() as int;
    let l = goodbye_unpadded_len(m);
    let h = goodbye_header(m);
    lemma_goodbye_wire_parts(m);
    lemma_header_wire_parse(h, w);
    assert(h.count as int == n);
    assert(4 + 4 * n <= w.len());
    let sources = Seq::new(h.count as nat, |i: int| be32_at(w, 4 + 4 * i));
    assert forall|i: int| 0 <= i < n implies sources[i] == m.sources[i] by {
        lemma_sources_wire_index(m.sources, i);
        assert(w.subrange(4 + 4 * i, 4 + 4 * i + 4) =~= w.subrange(4, 4 + 4 * n).subrange(
            4 * i,
            4 * i + 4,
        ));
        lemma_be32_roundtrip(m.sources[i], w, 4 + 4 * i);
    }
    assert(sources =~= m.sources);
    let ro = 4 + 4 * n;
    assert(ro < w.len());
    let rlen = w[ro] as int;
    assert(rlen == rb.len());
    assert(ro + 1 + rlen == l <= w.len());
    assert(w.subrange(ro + 1, ro + 1 + rlen) == rb);
    encode_utf8_valid_utf8(m.reason);
    encode_utf8_decode_utf8(m.reason);
    assert(GoodbyeModel { sources, reason: decode_utf8(rb) } =~= m);
}

/// Type mismatch: any buffer whose discriminant byte is not the Goodbye
/// discriminant is rejected by the Goodbye decoder as the wrong packet type.
pub proof fn lemma_goodbye_wrong_packet_type(raw: Seq<u8>)
    requires
        raw.len() >= 4,
        raw[1] != 203,
    ensures
        parse_goodbye(raw) == Err::<GoodbyeModel, Error>(Error::WrongPacketType),
{
}

/// Truncation safety: any strict prefix of a well-formed Goodbye's wire
/// bytes is rejected as too short, except the one prefix that ends exactly
/// where the reason section begins (that prefix is itself a complete packet
/// with an empty reason).
pub proof fn lemma_goodbye_truncation(m: GoodbyeModel, k: int)
    requires
        goodbye_wf(m),
        0 <= k < goodbye_wire_len(m),
        k != 4 + 4 * m.sources.len(),
    ensures
        parse_goodbye(goodbye_wire(m).subrange(0, k)) == Err::<GoodbyeModel, Error>(
            Error::PacketTooShort,
        ),
{
    let w = goodbye_wire(m);
    let t = w.subrange(0, k);
    let n = m.sources.len() as int;
    let l = goodbye_unpadded_len(m);
    let h = goodbye_header(m);
    lemma_goodbye_wire_parts(m);
    if k >= 4 {
        assert(t.subrange(0, 4) =~= w.subrange(0, 4));
        lemma_header_wire_parse(h, t);
        assert(parse_header(t).count as int == n);
        if k % 4 == 0 && 4 + 4 * n <= k {
            let ro = 4 + 4 * n;
            assert(ro < k);
            assert(t[ro] == w[ro]);
            let rlen = t[ro] as int;
            assert(rlen == encode_utf8(m.reason).len());
            assert(ro + 1 + rlen == l);
            assert(k < l) by {
                assert(w.len() % 4 == 0);
                assert(k <= w.len() - 4);
                assert(w.len() < l + 4);
            }
        }
    }
}

} // verus!
