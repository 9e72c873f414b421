use rtcp::errors::Error;
use rtcp::header::PacketType;
use rtcp::receiver_report::ReceiverReport;
use rtcp::reception_report::ReceptionReport;

fn block(ssrc: u32) -> ReceptionReport {
    ReceptionReport {
        ssrc,
        fraction_lost: 3,
        total_lost: 5,
        last_sequence_number: 0x00010203,
        jitter: 7,
        last_sr: 0x11223344,
        delay_since_last_sr: 9,
    }
}

#[test]
fn test_receiver_report_round_trip() {
    let rr = ReceiverReport {
        ssrc: 0x902F9E2E,
        reports: vec![block(0xAAAAAAAA), block(0xBBBBBBBB)],
        profile_extensions: vec![1, 2, 3, 4],
    };
    let raw = rr.marshal().unwrap();
    assert_eq!(raw.len(), 8 + 2 * 24 + 4);
    let decoded = ReceiverReport::unmarshal(&raw).unwrap();
    assert_eq!(decoded, rr);
}

#[test]
fn test_receiver_report_round_trip_empty() {
    let rr = ReceiverReport {
        ssrc: 1,
        reports: vec![],
        profile_extensions: vec![],
    };
    let raw = rr.marshal().unwrap();
    assert_eq!(raw.len(), 8);
    let decoded = ReceiverReport::unmarshal(&raw).unwrap();
    assert_eq!(decoded, rr);
}

#[test]
fn test_receiver_report_extension_padding_layout() {
    let rr = ReceiverReport {
        ssrc: 0x01020304,
        reports: vec![],
        profile_extensions: vec![0xAA, 0xBB],
    };
    let raw = rr.marshal().unwrap();
    assert_eq!(
        raw,
        vec![0x80, 201, 0x00, 0x02, 0x01, 0x02, 0x03, 0x04, 0xAA, 0xBB, 0x00, 0x00]
    );
    // Decoding reads the padding back as literal extension content: the
    // padded bytes are indistinguishable from real extension data.
    let decoded = ReceiverReport::unmarshal(&raw).unwrap();
    assert_eq!(decoded.profile_extensions, vec![0xAA, 0xBB, 0x00, 0x00]);
}

#[test]
fn test_receiver_report_capacity_boundary() {
    let ok = ReceiverReport {
        ssrc: 1,
        reports: (0..31).map(block).collect(),
        profile_extensions: vec![],
    };
    assert!(ok.marshal().is_ok());
    let too_many = ReceiverReport {
        ssrc: 1,
        reports: (0..32).map(block).collect(),
        profile_extensions: vec![],
    };
    assert_eq!(too_many.marshal(), Err(Error::TooManyReports));
}

#[test]
fn test_receiver_report_total_lost_overflow() {
    let mut bad = block(1);
    bad.total_lost = 1 << 24;
    let rr = ReceiverReport {
        ssrc: 1,
        reports: vec![bad],
        profile_extensions: vec![],
    };
    assert_eq!(rr.marshal(), Err(Error::InvalidTotalLost));
}

#[test]
fn test_receiver_report_truncation_safety() {
    let rr = ReceiverReport {
        ssrc: 5,
        reports: vec![block(0xCCCCCCCC)],
        profile_extensions: vec![9, 9, 9, 9],
    };
    let raw = rr.marshal().unwrap();
    let reports_end = 8 + 24 * rr.reports.len();
    for k in 0..raw.len() {
        let prefix = raw[..k].to_vec();
        let r = ReceiverReport::unmarshal(&prefix);
        if k < reports_end {
            assert!(
                r == Err(Error::PacketTooShort) || r == Err(Error::InvalidHeader),
                "prefix of {} bytes gave {:?}",
                k,
                r
            );
        } else {
            // A cut inside the extension tail still decodes; only the tail
            // is shorter.
            let decoded = r.unwrap();
            assert_eq!(decoded.ssrc, rr.ssrc);
            assert_eq!(decoded.reports, rr.reports);
            assert_eq!(decoded.profile_extensions.len(), k - reports_end);
        }
    }
}

#[test]
fn test_receiver_report_count_mismatch() {
    // A header that declares one report over a body with none: count 1,
    // type 201, length 1, then only the reporter SSRC.
    let raw = vec![0x81, 201, 0x00, 0x01, 0x00, 0x00, 0x00, 0x05];
    assert_eq!(ReceiverReport::unmarshal(&raw), Err(Error::InvalidHeader));
}

#[test]
fn test_receiver_report_wrong_packet_type() {
    let g = rtcp::goodbye::Goodbye {
        sources: vec![1],
        reason: String::new(),
    };
    let raw = g.marshal().unwrap();
    assert_eq!(ReceiverReport::unmarshal(&raw), Err(Error::WrongPacketType));
}

#[test]
fn test_receiver_report_too_short() {
    assert_eq!(
        ReceiverReport::unmarshal(&vec![0x80, 201, 0x00, 0x01]),
        Err(Error::PacketTooShort)
    );
    assert_eq!(ReceiverReport::unmarshal(&vec![]), Err(Error::PacketTooShort));
}

#[test]
fn test_receiver_report_header() {
    let rr = ReceiverReport {
        ssrc: 1,
        reports: vec![block(2)],
        profile_extensions: vec![0xAB],
    };
    let h = rr.header();
    assert_eq!(h.version, 2);
    assert!(!h.padding);
    assert_eq!(h.count, 1);
    assert_eq!(h.packet_type, PacketType::ReceiverReport);
    // 8 + 24 + 1 extension byte, padded to 36.
    assert_eq!(h.length, 36 / 4 - 1);
}

#[test]
fn test_receiver_report_destination_ssrc() {
    let rr = ReceiverReport {
        ssrc: 1,
        reports: vec![block(0x10), block(0x20)],
        profile_extensions: vec![],
    };
    assert_eq!(rr.destination_ssrc(), vec![0x10, 0x20]);
}
