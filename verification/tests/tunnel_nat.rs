use accelerator::checksum::compute_ip_checksum;
use accelerator::tunnel_nat::TunnelNat;

#[test]
fn test_tunnel_nat_roundtrip() {
    let mut nat = TunnelNat::new([10, 8, 0, 2]);

    let mut pkt = vec![0u8; 40];
    pkt[0] = 0x45;
    pkt[9] = 6;
    pkt[12..16].copy_from_slice(&[192, 168, 1, 229]);
    pkt[16..20].copy_from_slice(&[188, 42, 43, 98]);
    pkt[20..22].copy_from_slice(&55000u16.to_be_bytes());
    pkt[22..24].copy_from_slice(&6112u16.to_be_bytes());
    pkt[32] = 0x50;

    assert!(nat.translate_outbound(&mut pkt));
    assert_eq!(&pkt[12..16], &[10, 8, 0, 2]);

    let mut reply = vec![0u8; 40];
    reply[0] = 0x45;
    reply[9] = 6;
    reply[12..16].copy_from_slice(&[188, 42, 43, 98]);
    reply[16..20].copy_from_slice(&[10, 8, 0, 2]);
    reply[20..22].copy_from_slice(&6112u16.to_be_bytes());
    reply[22..24].copy_from_slice(&55000u16.to_be_bytes());
    reply[32] = 0x50;

    assert!(nat.translate_inbound(&mut reply));
    assert_eq!(&reply[16..20], &[192, 168, 1, 229]);
}

#[test]
fn unknown_flow_goes_to_last_source() {
    let mut nat = TunnelNat::new([10, 8, 0, 2]);
    let mut reply = vec![0u8; 40];
    reply[0] = 0x45;
    reply[9] = 17;
    reply[12..16].copy_from_slice(&[1, 2, 3, 4]);
    assert!(nat.translate_inbound(&mut reply));
    assert_eq!(&reply[16..20], &[192, 168, 1, 1]);

    let mut icmp = vec![0u8; 28];
    icmp[0] = 0x45;
    icmp[9] = 1;
    icmp[12..16].copy_from_slice(&[192, 168, 7, 7]);
    assert!(!nat.translate_outbound(&mut icmp));
    assert_eq!(&icmp[12..16], &[10, 8, 0, 2]);
    assert_eq!(compute_ip_checksum(&icmp[..20]), 0);

    let mut reply2 = reply.clone();
    reply2[20..22].copy_from_slice(&9u16.to_be_bytes());
    assert!(nat.translate_inbound(&mut reply2));
    assert_eq!(&reply2[16..20], &[192, 168, 7, 7]);
}

#[test]
fn non_ipv4_is_untouched() {
    let mut nat = TunnelNat::new([10, 8, 0, 2]);
    let mut p = vec![0x60u8; 40];
    let before = p.clone();
    assert!(!nat.translate_outbound(&mut p));
    assert!(!nat.translate_inbound(&mut p));
    assert_eq!(p, before);
}

#[test]
fn outbound_keeps_destination_and_verifies() {
    let mut nat = TunnelNat::new([10, 8, 0, 2]);
    let mut pkt = vec![0u8; 48];
    pkt[0] = 0x45;
    pkt[9] = 17;
    pkt[12..16].copy_from_slice(&[192, 168, 3, 4]);
    pkt[16..20].copy_from_slice(&[9, 9, 9, 9]);
    pkt[20..22].copy_from_slice(&4000u16.to_be_bytes());
    pkt[22..24].copy_from_slice(&8000u16.to_be_bytes());
    pkt[24..26].copy_from_slice(&28u16.to_be_bytes());
    assert!(nat.translate_outbound(&mut pkt));
    assert_eq!(pkt.len(), 48);
    assert_eq!(&pkt[12..16], &[10, 8, 0, 2]);
    assert_eq!(&pkt[16..20], &[9, 9, 9, 9]);
    assert_eq!(compute_ip_checksum(&pkt[..20]), 0);
}

#[test]
fn other_flow_does_not_disturb_a_flow() {
    let mut nat = TunnelNat::new([10, 8, 0, 2]);
    let mut a = vec![0u8; 40];
    a[0] = 0x45;
    a[9] = 6;
    a[12..16].copy_from_slice(&[192, 168, 1, 10]);
    a[16..20].copy_from_slice(&[5, 5, 5, 5]);
    a[20..22].copy_from_slice(&1111u16.to_be_bytes());
    a[22..24].copy_from_slice(&80u16.to_be_bytes());
    let mut b = a.clone();
    b[12..16].copy_from_slice(&[192, 168, 1, 20]);
    b[20..22].copy_from_slice(&2222u16.to_be_bytes());
    assert!(nat.translate_outbound(&mut a));
    assert!(nat.translate_outbound(&mut b));
    let mut reply = vec![0u8; 40];
    reply[0] = 0x45;
    reply[9] = 6;
    reply[12..16].copy_from_slice(&[5, 5, 5, 5]);
    reply[16..20].copy_from_slice(&[10, 8, 0, 2]);
    reply[20..22].copy_from_slice(&80u16.to_be_bytes());
    reply[22..24].copy_from_slice(&1111u16.to_be_bytes());
    assert!(nat.translate_inbound(&mut reply));
    assert_eq!(&reply[16..20], &[192, 168, 1, 10]);
}
