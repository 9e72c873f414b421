use rtcp::errors::Error;
use rtcp::goodbye::Goodbye;
use rtcp::header::PacketType;

fn goodbye(sources: Vec<u32>, reason: &str) -> Goodbye {
    Goodbye {
        sources,
        reason: reason.to_string(),
    }
}

#[test]
fn test_goodbye_round_trip_with_reason() {
    let g = goodbye(vec![0x01020304, 0x05060708], "camera malfunction");
    let raw = g.marshal().unwrap();
    let decoded = Goodbye::unmarshal(&raw).unwrap();
    assert_eq!(decoded, g);
}

#[test]
fn test_goodbye_round_trip_multibyte_reason() {
    let g = goodbye(vec![0xDEADBEEF], "au revoir \u{00e9}\u{4e16}\u{1F44B}");
    let raw = g.marshal().unwrap();
    let decoded = Goodbye::unmarshal(&raw).unwrap();
    assert_eq!(decoded, g);
}

#[test]
fn test_goodbye_round_trip_no_sources() {
    let g = goodbye(vec![], "gone");
    let raw = g.marshal().unwrap();
    let decoded = Goodbye::unmarshal(&raw).unwrap();
    assert_eq!(decoded, g);
}

#[test]
fn test_goodbye_marshal_empty_reason_layout() {
    // Per the encode algorithm the total always includes the reason length
    // byte, so two sources and an empty reason pad out to 16 bytes with a
    // length field of 3.
    let g = goodbye(vec![0x11111111, 0x22222222], "");
    let raw = g.marshal().unwrap();
    assert_eq!(
        raw,
        vec![
            0x82, 203, 0x00, 0x03, 0x11, 0x11, 0x11, 0x11, 0x22, 0x22, 0x22, 0x22, 0x00, 0x00,
            0x00, 0x00,
        ]
    );
    let decoded = Goodbye::unmarshal(&raw).unwrap();
    assert_eq!(decoded.sources, vec![0x11111111, 0x22222222]);
    assert_eq!(decoded.reason, "");
}

#[test]
fn test_goodbye_unmarshal_minimal_buffer() {
    // A 12-byte buffer holding only the header and two sources decodes to
    // the packet with an empty reason.
    let raw = vec![
        0x82, 203, 0x00, 0x02, 0x11, 0x11, 0x11, 0x11, 0x22, 0x22, 0x22, 0x22,
    ];
    let decoded = Goodbye::unmarshal(&raw).unwrap();
    assert_eq!(decoded.sources, vec![0x11111111, 0x22222222]);
    assert_eq!(decoded.reason, "");
}

#[test]
fn test_goodbye_capacity_boundary() {
    let ok = goodbye((0..31).collect(), "");
    assert!(ok.marshal().is_ok());
    let too_many = goodbye((0..32).collect(), "");
    assert_eq!(too_many.marshal(), Err(Error::TooManySources));
}

#[test]
fn test_goodbye_reason_boundary() {
    let ok = goodbye(vec![1], &"a".repeat(255));
    let raw = ok.marshal().unwrap();
    let decoded = Goodbye::unmarshal(&raw).unwrap();
    assert_eq!(decoded, ok);
    let too_long = goodbye(vec![1], &"a".repeat(256));
    assert_eq!(too_long.marshal(), Err(Error::ReasonTooLong));
}

#[test]
fn test_goodbye_count_error_wins_over_reason_error() {
    let g = goodbye((0..32).collect(), &"a".repeat(256));
    assert_eq!(g.marshal(), Err(Error::TooManySources));
}

#[test]
fn test_goodbye_truncation_safety() {
    let g = goodbye(vec![0x11111111, 0x22222222], "bye");
    let raw = g.marshal().unwrap();
    let sources_end = 4 + 4 * g.sources.len();
    for k in 0..raw.len() {
        let prefix = raw[..k].to_vec();
        let r = Goodbye::unmarshal(&prefix);
        if k == sources_end {
            // This prefix is itself a complete packet with an empty reason.
            let decoded = r.unwrap();
            assert_eq!(decoded.sources, g.sources);
            assert_eq!(decoded.reason, "");
        } else {
            assert_eq!(r, Err(Error::PacketTooShort));
        }
    }
}

#[test]
fn test_goodbye_wrong_packet_type() {
    let rr = rtcp::receiver_report::ReceiverReport {
        ssrc: 1,
        reports: vec![],
        profile_extensions: vec![],
    };
    let raw = rr.marshal().unwrap();
    assert_eq!(Goodbye::unmarshal(&raw), Err(Error::WrongPacketType));
}

#[test]
fn test_goodbye_invalid_utf8_reason() {
    // header(count=0, type=203, length=1), reason length 2, bytes 0xFF 0xFE.
    let raw = vec![0x80, 203, 0x00, 0x01, 0x02, 0xFF, 0xFE, 0x00];
    assert_eq!(Goodbye::unmarshal(&raw), Err(Error::InvalidText));
}

#[test]
fn test_goodbye_reason_length_past_end() {
    // reason length byte claims 200 bytes but only 2 follow.
    let raw = vec![0x80, 203, 0x00, 0x01, 0xC8, 0x61, 0x62, 0x00];
    assert_eq!(Goodbye::unmarshal(&raw), Err(Error::PacketTooShort));
}

#[test]
fn test_goodbye_unaligned_buffer() {
    let raw = vec![0x80, 203, 0x00, 0x01, 0x00, 0x00];
    assert_eq!(Goodbye::unmarshal(&raw), Err(Error::PacketTooShort));
}

#[test]
fn test_goodbye_empty_buffer() {
    assert_eq!(Goodbye::unmarshal(&vec![]), Err(Error::PacketTooShort));
}

#[test]
fn test_goodbye_header() {
    let g = goodbye(vec![1, 2, 3], "ok");
    let h = g.header();
    assert_eq!(h.version, 2);
    assert!(!h.padding);
    assert_eq!(h.count, 3);
    assert_eq!(h.packet_type, PacketType::Goodbye);
    // 4 header + 12 sources + 1 length byte + 2 reason, padded to 20.
    assert_eq!(h.length, 20 / 4 - 1);
}

#[test]
fn test_goodbye_destination_ssrc() {
    let g = goodbye(vec![9, 8, 7], "");
    assert_eq!(g.destination_ssrc(), vec![9, 8, 7]);
}

#[test]
fn test_goodbye_reason_bytes_reach_the_wire() {
    let g = goodbye(vec![], "hi");
    let raw = g.marshal().unwrap();
    // 4 header + 0 sources, then the length byte and the reason text.
    assert_eq!(raw[4], 2);
    assert_eq!(&raw[5..7], b"hi");
}
