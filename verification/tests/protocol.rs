use accelerator::protocol::{GameTunnelHeader, ProtocolError, HEADER_LEN};

#[test]
fn test_encode_decode_roundtrip() {
    let header = GameTunnelHeader::new(133742, 987654, true, false);
    let mut buf = [0u8; HEADER_LEN + 10];
    header.encode(&mut buf).unwrap();

    let decoded = GameTunnelHeader::decode(&buf).unwrap();
    assert_eq!(decoded.sequence, 133742);
    assert_eq!(decoded.timestamp, 987654);
    assert!(decoded.is_dup());
    assert!(!decoded.is_probe());
    assert!(!decoded.is_ack());
}

#[test]
fn test_invalid_magic() {
    let mut buf = [0u8; HEADER_LEN];
    buf[0] = 0x12;
    buf[1] = 0x34;
    assert!(matches!(
        GameTunnelHeader::decode(&buf),
        Err(ProtocolError::InvalidMagic(0x1234))
    ));
}

#[test]
fn encode_writes_exact_wire_bytes() {
    let header = GameTunnelHeader::new(0x01020304, 0xA0B0C0D0, false, true);
    let mut buf = [0xEEu8; 14];
    header.encode(&mut buf).unwrap();
    assert_eq!(
        buf,
        [0x47, 0x54, 0x02, 0x00, 0x01, 0x02, 0x03, 0x04, 0xA0, 0xB0, 0xC0, 0xD0, 0xEE, 0xEE]
    );
}

#[test]
fn encode_rejects_short_buffer_and_leaves_it() {
    let header = GameTunnelHeader::new(1, 2, true, true);
    let mut buf = [7u8; 11];
    assert_eq!(header.encode(&mut buf), Err(ProtocolError::BufferTooShort));
    assert_eq!(buf, [7u8; 11]);
}

#[test]
fn decode_rejects_short_buffer() {
    let buf = [0x47u8, 0x54, 0, 0, 0, 0, 0, 0, 0, 0, 0];
    assert_eq!(GameTunnelHeader::decode(&buf), Err(ProtocolError::BufferTooShort));
}

#[test]
fn new_sets_flags() {
    assert_eq!(GameTunnelHeader::new(0, 0, false, false).flags, 0);
    assert_eq!(GameTunnelHeader::new(0, 0, true, false).flags, 1);
    assert_eq!(GameTunnelHeader::new(0, 0, false, true).flags, 2);
    assert_eq!(GameTunnelHeader::new(0, 0, true, true).flags, 3);
    assert_eq!(GameTunnelHeader::new(5, 6, true, true).reserved, 0);
}

#[test]
fn set_ack_keeps_other_flags() {
    let mut h = GameTunnelHeader::new(9, 10, true, true);
    assert!(!h.is_ack());
    h.set_ack();
    assert!(h.is_ack());
    assert!(h.is_dup());
    assert!(h.is_probe());
    assert_eq!(h.flags, 7);
    assert_eq!(h.sequence, 9);
    assert_eq!(h.timestamp, 10);
}

#[test]
fn decode_reads_reserved_and_flags_verbatim() {
    let buf = [0x47u8, 0x54, 0xFF, 0x5A, 0, 0, 0, 1, 0, 0, 1, 0];
    let h = GameTunnelHeader::decode(&buf).unwrap();
    assert_eq!(h.flags, 0xFF);
    assert_eq!(h.reserved, 0x5A);
    assert_eq!(h.sequence, 1);
    assert_eq!(h.timestamp, 256);
    assert!(h.is_ack() && h.is_dup() && h.is_probe());
}

#[test]
fn error_messages() {
    assert_eq!(
        ProtocolError::BufferTooShort.message(),
        "buffer is shorter than GameTunnel header (12 bytes)"
    );
    assert_eq!(ProtocolError::InvalidMagic(0x1234).message(), "invalid GameTunnel magic number: 0x1234");
    assert_eq!(ProtocolError::InvalidMagic(0xABCD).message(), "invalid GameTunnel magic number: 0xABCD");
    assert_eq!(ProtocolError::InvalidMagic(0x00F).message(), "invalid GameTunnel magic number: 0x000F");
    let e = GameTunnelHeader::decode(&[0u8; 4]).unwrap_err();
    assert_eq!(e.message(), "buffer is shorter than GameTunnel header (12 bytes)");
}
