use rtcp::errors::Error;
use rtcp::reception_report::{ReceptionReport, RECEPTION_REPORT_LENGTH};

#[test]
fn test_reception_report_round_trip() {
    let rp = ReceptionReport {
        ssrc: 0x01020304,
        fraction_lost: 0x7F,
        total_lost: 0x00ABCDEF,
        last_sequence_number: 0x11223344,
        jitter: 0x55667788,
        last_sr: 0x99AABBCC,
        delay_since_last_sr: 0xDDEEFF00,
    };
    let raw = rp.marshal().unwrap();
    assert_eq!(raw.len(), RECEPTION_REPORT_LENGTH);
    assert_eq!(
        raw,
        vec![
            0x01, 0x02, 0x03, 0x04, 0x7F, 0xAB, 0xCD, 0xEF, 0x11, 0x22, 0x33, 0x44, 0x55, 0x66,
            0x77, 0x88, 0x99, 0xAA, 0xBB, 0xCC, 0xDD, 0xEE, 0xFF, 0x00,
        ]
    );
    let decoded = ReceptionReport::unmarshal(&raw).unwrap();
    assert_eq!(decoded, rp);
}

#[test]
fn test_reception_report_total_lost_boundary() {
    let mut rp = ReceptionReport {
        ssrc: 1,
        fraction_lost: 0,
        total_lost: 0x00FFFFFF,
        last_sequence_number: 0,
        jitter: 0,
        last_sr: 0,
        delay_since_last_sr: 0,
    };
    assert!(rp.marshal().is_ok());
    rp.total_lost = 0x01000000;
    assert_eq!(rp.marshal(), Err(Error::InvalidTotalLost));
}

#[test]
fn test_reception_report_too_short() {
    let raw = vec![0u8; RECEPTION_REPORT_LENGTH - 1];
    assert_eq!(ReceptionReport::unmarshal(&raw), Err(Error::PacketTooShort));
}
