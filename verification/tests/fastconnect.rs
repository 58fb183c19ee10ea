use accelerator::checksum::{compute_ip_checksum, compute_tcp_checksum};
use accelerator::fastconnect::FastConnectEngine;

fn data_packet(payload: usize) -> Vec<u8> {
    let mut pkt = vec![0u8; 40 + payload];
    pkt[0] = 0x45;
    pkt[9] = 6;
    pkt[12..16].copy_from_slice(&[192, 168, 1, 100]);
    pkt[16..20].copy_from_slice(&[51, 89, 44, 12]);
    pkt[20..22].copy_from_slice(&45000u16.to_be_bytes());
    pkt[22..24].copy_from_slice(&7777u16.to_be_bytes());
    pkt[24..28].copy_from_slice(&1000u32.to_be_bytes());
    pkt[28..32].copy_from_slice(&0xDEADBEEFu32.to_be_bytes());
    pkt[32] = 0x50;
    pkt
}

#[test]
fn test_fastconnect_ack_synthesis() {
    let engine = FastConnectEngine::new(true);

    let mut pkt = vec![0u8; 50];
    pkt[0] = 0x45;
    pkt[9] = 6;
    pkt[12..16].copy_from_slice(&[192, 168, 1, 100]);
    pkt[16..20].copy_from_slice(&[51, 89, 44, 12]);
    pkt[20..22].copy_from_slice(&45000u16.to_be_bytes());
    pkt[22..24].copy_from_slice(&7777u16.to_be_bytes());
    pkt[24..28].copy_from_slice(&1000u32.to_be_bytes());
    pkt[32] = 0x50;

    let ack = engine.synthesize_local_ack(&pkt).expect("Should synthesize ACK");
    assert_eq!(ack.len(), 40);
    let ack_dst_port = u16::from_be_bytes([ack[22], ack[23]]);
    assert_eq!(ack_dst_port, 45000);
    let ack_num = u32::from_be_bytes([ack[28], ack[29], ack[30], ack[31]]);
    assert_eq!(ack_num, 1010);
}

#[test]
fn disabled_engine_synthesizes_nothing() {
    let engine = FastConnectEngine::new(false);
    assert!(!engine.is_enabled());
    assert!(engine.synthesize_local_ack(&data_packet(10)).is_none());
}

#[test]
fn no_ack_without_payload_or_for_udp() {
    let engine = FastConnectEngine::new(true);
    assert!(engine.is_enabled());
    assert!(engine.synthesize_local_ack(&data_packet(0)).is_none());
    let mut udp = data_packet(10);
    udp[9] = 17;
    assert!(engine.synthesize_local_ack(&udp).is_none());
    assert!(engine.synthesize_local_ack(&data_packet(10)[..39]).is_none());
}

#[test]
fn ack_fields_and_checksums() {
    let engine = FastConnectEngine::new(true);
    let ack = engine.synthesize_local_ack(&data_packet(7)).unwrap();
    assert_eq!(&ack[0..10], &[0x45, 0, 0, 40, 0, 0, 0x40, 0, 64, 6]);
    assert_eq!(&ack[12..16], &[51, 89, 44, 12]);
    assert_eq!(&ack[16..20], &[192, 168, 1, 100]);
    assert_eq!(u16::from_be_bytes([ack[20], ack[21]]), 7777);
    assert_eq!(&ack[24..28], &0xDEADBEEFu32.to_be_bytes());
    assert_eq!(u32::from_be_bytes([ack[28], ack[29], ack[30], ack[31]]), 1007);
    assert_eq!(&ack[32..36], &[0x50, 0x10, 0xFF, 0xFF]);
    assert_eq!(&ack[38..40], &[0, 0]);
    assert_eq!(compute_ip_checksum(&ack[0..20]), 0);
    let src = [ack[12], ack[13], ack[14], ack[15]];
    let dst = [ack[16], ack[17], ack[18], ack[19]];
    assert_eq!(compute_tcp_checksum(&src, &dst, &ack[20..40]), 0);
}

#[test]
fn ack_number_wraps() {
    let engine = FastConnectEngine::new(true);
    let mut pkt = data_packet(20);
    pkt[24..28].copy_from_slice(&(u32::MAX - 4).to_be_bytes());
    let ack = engine.synthesize_local_ack(&pkt).unwrap();
    assert_eq!(u32::from_be_bytes([ack[28], ack[29], ack[30], ack[31]]), 15);
}
