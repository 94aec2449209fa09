use jamjam::packet::{Packet, PacketFlags, PacketType, HEADER_SIZE, PROTOCOL_VERSION};

#[test]
fn test_packet_roundtrip() {
    let original = Packet::audio(42, 12345, vec![1, 2, 3, 4, 5]);
    let bytes = original.to_bytes();
    let decoded = Packet::from_bytes(&bytes).expect("Failed to decode packet");

    assert_eq!(decoded.version, original.version);
    assert_eq!(decoded.packet_type, original.packet_type);
    assert_eq!(decoded.sequence, original.sequence);
    assert_eq!(decoded.timestamp, original.timestamp);
    assert_eq!(decoded.payload, original.payload);
}

#[test]
fn test_packet_type_conversion() {
    assert_eq!(PacketType::try_from(0x01), Ok(PacketType::Audio));
    assert_eq!(PacketType::try_from(0x02), Ok(PacketType::Fec));
    assert_eq!(PacketType::try_from(0x03), Ok(PacketType::Control));
    assert_eq!(PacketType::try_from(0x04), Ok(PacketType::KeepAlive));
    assert_eq!(PacketType::try_from(0xFF), Err(()));
}

#[test]
fn test_flags_roundtrip() {
    let flags = PacketFlags { encrypted: true, has_fec: true };
    let encoded = flags.to_u16();
    let decoded = PacketFlags::from_u16(encoded);

    assert_eq!(decoded.encrypted, flags.encrypted);
    assert_eq!(decoded.has_fec, flags.has_fec);
}

#[test]
fn test_header_size() {
    let packet = Packet::audio(0, 0, vec![]);
    let bytes = packet.to_bytes();
    assert_eq!(bytes.len(), HEADER_SIZE);
}

#[test]
fn test_invalid_packet_too_short() {
    let data = vec![0u8; HEADER_SIZE - 1];
    assert!(Packet::from_bytes(&data).is_none());
}

#[test]
fn test_invalid_protocol_version() {
    let mut data = vec![0u8; HEADER_SIZE];
    data[0] = 99; // Invalid version
    assert!(Packet::from_bytes(&data).is_none());
}

#[test]
fn packet_header_layout_is_big_endian() {
    let packet = Packet::audio(0x0102_0304, 0x0A0B_0C0D, vec![0xEE]);
    let bytes = packet.to_bytes();
    assert_eq!(
        bytes,
        vec![PROTOCOL_VERSION, 0x01, 1, 2, 3, 4, 0x0A, 0x0B, 0x0C, 0x0D, 0x00, 0x00, 0xEE]
    );
}

#[test]
fn flags_encode_bits_and_ignore_others() {
    assert_eq!(PacketFlags { encrypted: true, has_fec: false }.to_u16(), 1);
    assert_eq!(PacketFlags { encrypted: false, has_fec: true }.to_u16(), 2);
    let f = PacketFlags::from_u16(0xFFFC);
    assert!(!f.encrypted && !f.has_fec);
}

#[test]
fn keep_alive_packet_has_no_payload() {
    let p = Packet::keep_alive(7);
    assert_eq!(p.packet_type, PacketType::KeepAlive);
    assert_eq!(p.sequence, 7);
    assert!(p.payload.is_empty());
}

#[test]
fn unknown_packet_type_is_refused() {
    let mut bytes = Packet::audio(1, 2, vec![3]).to_bytes();
    bytes[1] = 0x09;
    assert!(Packet::from_bytes(&bytes).is_none());
}
