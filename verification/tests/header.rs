use rtcp::errors::Error;
use rtcp::header::{Header, PacketType};

#[test]
fn test_header_round_trip() {
    let h = Header {
        version: 2,
        padding: true,
        count: 17,
        packet_type: PacketType::SenderReport,
        length: 0x1234,
    };
    let raw = h.marshal().unwrap();
    assert_eq!(raw, vec![0x80 | 0x20 | 17, 200, 0x12, 0x34]);
    let decoded = Header::unmarshal(&raw).unwrap();
    assert_eq!(decoded, h);
}

#[test]
fn test_header_count_too_large() {
    let h = Header {
        version: 2,
        padding: false,
        count: 32,
        packet_type: PacketType::Goodbye,
        length: 1,
    };
    assert_eq!(h.marshal(), Err(Error::InvalidHeader));
}

#[test]
fn test_header_too_short() {
    assert_eq!(Header::unmarshal(&vec![0x80, 203, 0x00]), Err(Error::PacketTooShort));
}

#[test]
fn test_header_unknown_discriminant() {
    let decoded = Header::unmarshal(&vec![0x80, 7, 0x00, 0x01]).unwrap();
    assert_eq!(decoded.packet_type, PacketType::Unsupported);
}

#[test]
fn test_packet_type_bytes() {
    assert_eq!(PacketType::from_u8(200), PacketType::SenderReport);
    assert_eq!(PacketType::from_u8(201), PacketType::ReceiverReport);
    assert_eq!(PacketType::from_u8(202), PacketType::SourceDescription);
    assert_eq!(PacketType::from_u8(203), PacketType::Goodbye);
    assert_eq!(PacketType::from_u8(204), PacketType::ApplicationDefined);
    assert_eq!(PacketType::from_u8(42), PacketType::Unsupported);
    assert_eq!(PacketType::Goodbye.to_u8(), 203);
    assert_eq!(PacketType::ReceiverReport.to_u8(), 201);
}
