use accelerator::checksum::{
    compute_checksum, compute_ip_checksum, compute_tcp_checksum, compute_udp_checksum,
    recalculate_checksums,
};

#[test]
fn test_ip_checksum() {
    let mut ip_hdr = [
        0x45, 0x00, 0x00, 0x3c,
        0x1c, 0x46, 0x40, 0x00,
        0x40, 0x06, 0x00, 0x00, // zero checksum
        0xc0, 0xa8, 0x01, 0x64, // 192.168.1.100
        0x33, 0x59, 0x2c, 0x0c, // 51.89.44.12
    ];
    let csum = compute_ip_checksum(&ip_hdr);
    assert_ne!(csum, 0);
    ip_hdr[10..12].copy_from_slice(&csum.to_be_bytes());
    assert_eq!(compute_ip_checksum(&ip_hdr), 0);
}

#[test]
fn test_recalculate_checksums() {
    let mut packet = vec![0u8; 40];
    packet[0] = 0x45;
    packet[9] = 6; // TCP
    packet[12..16].copy_from_slice(&[10, 8, 0, 2]);
    packet[16..20].copy_from_slice(&[188, 42, 43, 98]);
    packet[20..22].copy_from_slice(&50000u16.to_be_bytes());
    packet[22..24].copy_from_slice(&6112u16.to_be_bytes());
    packet[32] = 0x50; // 20 bytes TCP

    assert!(recalculate_checksums(&mut packet));
    let ip_csum = u16::from_be_bytes([packet[10], packet[11]]);
    let tcp_csum = u16::from_be_bytes([packet[36], packet[37]]);
    assert_ne!(ip_csum, 0);
    assert_ne!(tcp_csum, 0);
}

#[test]
fn checksum_of_rfc1071_example() {
    // RFC 1071 section 3 example words: 0001 f203 f4f5 f6f7 -> sum ddf2, checksum 220d
    let data = [0x00u8, 0x01, 0xf2, 0x03, 0xf4, 0xf5, 0xf6, 0xf7];
    assert_eq!(compute_checksum(&data), 0x220d);
}

#[test]
fn checksum_of_empty_and_odd_data() {
    assert_eq!(compute_checksum(&[]), 0xFFFF);
    // A trailing odd byte counts as the high byte of a word.
    assert_eq!(compute_checksum(&[0x12]), !0x1200u16);
    assert_eq!(compute_checksum(&[0xFF, 0xFF]), 0);
}

#[test]
fn tcp_checksum_exact_value() {
    let src = [10u8, 0, 0, 1];
    let dst = [10u8, 0, 0, 2];
    let seg = [0u8; 20];
    // pseudo sum: 0x0a00+0x0001+0x0a00+0x0002+6+20 = 0x141d -> !0x141d
    assert_eq!(compute_tcp_checksum(&src, &dst, &seg), !0x141du16);
}

#[test]
fn udp_checksum_zero_sent_as_all_ones() {
    // Choose a segment whose one's complement sum is 0xFFFF: the raw checksum is 0.
    let src = [0u8, 0, 0, 0];
    let dst = [0u8, 0, 0, 0];
    // pseudo: 17 + 2 = 19; segment word = 0xFFFF - 19 = 0xFFEC
    let seg = [0xFFu8, 0xEC];
    assert_eq!(compute_udp_checksum(&src, &dst, &seg), 0xFFFF);
}

#[test]
fn recalculate_rejects_non_ipv4_and_short() {
    let mut short = vec![0x45u8; 19];
    assert!(!recalculate_checksums(&mut short));
    assert_eq!(short, vec![0x45u8; 19]);
    let mut v6 = vec![0u8; 40];
    v6[0] = 0x60;
    let before = v6.clone();
    assert!(!recalculate_checksums(&mut v6));
    assert_eq!(v6, before);
}

#[test]
fn recalculate_other_protocol_rewrites_ip_checksum_only() {
    let mut pkt = vec![0u8; 28];
    pkt[0] = 0x45;
    pkt[9] = 1; // ICMP
    pkt[10] = 0xAB;
    pkt[11] = 0xCD;
    assert!(!recalculate_checksums(&mut pkt));
    assert_eq!(compute_ip_checksum(&pkt[..20]), 0);
    assert_ne!([pkt[10], pkt[11]], [0xAB, 0xCD]);
}

#[test]
fn recalculated_udp_packet_verifies() {
    let mut pkt = vec![0u8; 33];
    pkt[0] = 0x45;
    pkt[9] = 17;
    pkt[12..16].copy_from_slice(&[192, 168, 1, 5]);
    pkt[16..20].copy_from_slice(&[8, 8, 8, 8]);
    pkt[20..22].copy_from_slice(&5353u16.to_be_bytes());
    pkt[22..24].copy_from_slice(&53u16.to_be_bytes());
    pkt[24..26].copy_from_slice(&13u16.to_be_bytes());
    pkt[28..33].copy_from_slice(b"hello");
    assert!(recalculate_checksums(&mut pkt));
    assert_eq!(compute_ip_checksum(&pkt[..20]), 0);
    let src = [pkt[12], pkt[13], pkt[14], pkt[15]];
    let dst = [pkt[16], pkt[17], pkt[18], pkt[19]];
    // Recomputing over the segment with its checksum in place gives 0xFFFF
    // (the raw complement is zero and is encoded as all ones).
    assert_eq!(compute_udp_checksum(&src, &dst, &pkt[20..]), 0xFFFF);
}

#[test]
fn ip_checksum_covers_the_header_only() {
    let mut hdr = vec![0u8; 24];
    hdr[0] = 0x45;
    hdr[9] = 6;
    hdr[12..16].copy_from_slice(&[10, 0, 0, 1]);
    hdr[20] = 0xAB;
    hdr[23] = 0x01;
    assert_eq!(compute_ip_checksum(&hdr), compute_checksum(&hdr[..20]));
    assert_ne!(compute_ip_checksum(&hdr), compute_checksum(&hdr));
    // A slice shorter than its IHL says is checksummed whole.
    hdr[0] = 0x4F;
    assert_eq!(compute_ip_checksum(&hdr), compute_checksum(&hdr));
    assert_eq!(compute_ip_checksum(&[]), 0xFFFF);
}

#[test]
fn recalculating_twice_changes_nothing() {
    let mut pkt = vec![0u8; 44];
    pkt[0] = 0x45;
    pkt[9] = 17;
    pkt[12..16].copy_from_slice(&[192, 168, 0, 2]);
    pkt[16..20].copy_from_slice(&[8, 8, 8, 8]);
    pkt[24..26].copy_from_slice(&24u16.to_be_bytes());
    pkt[30] = 0x77;
    let first = recalculate_checksums(&mut pkt);
    let once = pkt.clone();
    let second = recalculate_checksums(&mut pkt);
    assert_eq!(first, second);
    assert_eq!(pkt, once);
}
