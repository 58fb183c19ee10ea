use accelerator::checksum::{compute_ip_checksum, compute_tcp_checksum, compute_udp_checksum};
use accelerator::diagnostics::{
    dns_query_packet, echo_reply, is_syn_ack, parse_tick_reply, skill_ack_reply, skill_cast_message, is_tcp_return, is_udp_return, probe_plan, syn_probe_packet, ProbePlan,
};

#[test]
fn plan_from_clock() {
    let p = probe_plan(0x4000_0000 + 123_456);
    assert_eq!(
        p,
        ProbePlan { seq_probe: 123_456, seq_syn: 123_457, seq_dns: 123_458, tcp_port: 43_456, dns_port: 56_456 }
    );
    let q = probe_plan(u64::MAX);
    assert_eq!(q.seq_probe, 0x3FFF_FFFF);
    assert_eq!(q.tcp_port, 40000 + (0x3FFF_FFFF % 20000) as u16);
    assert_eq!(q.dns_port, 53000 + (0x3FFF_FFFF % 10000) as u16);
}

#[test]
fn syn_probe_is_a_valid_syn() {
    let p = syn_probe_packet(45_000);
    assert_eq!(p.len(), 40);
    assert_eq!(&p[12..20], &[10, 8, 0, 2, 1, 1, 1, 1]);
    assert_eq!(u16::from_be_bytes([p[20], p[21]]), 45_000);
    assert_eq!(u16::from_be_bytes([p[22], p[23]]), 80);
    assert_eq!(u32::from_be_bytes([p[24], p[25], p[26], p[27]]), 100_000);
    assert_eq!(p[33], 0x02);
    assert_eq!(compute_ip_checksum(&p[..20]), 0);
    let src = [p[12], p[13], p[14], p[15]];
    let dst = [p[16], p[17], p[18], p[19]];
    assert_eq!(compute_tcp_checksum(&src, &dst, &p[20..]), 0);
    assert!(!is_syn_ack(&p));
}

#[test]
fn dns_query_is_a_valid_udp_packet() {
    let p = dns_query_packet(53_017);
    assert_eq!(p.len(), 56);
    assert_eq!(u16::from_be_bytes([p[2], p[3]]), 56);
    assert_eq!(p[9], 17);
    assert_eq!(u16::from_be_bytes([p[20], p[21]]), 53_017);
    assert_eq!(u16::from_be_bytes([p[22], p[23]]), 53);
    assert_eq!(u16::from_be_bytes([p[24], p[25]]), 36);
    assert_eq!(&p[40..52], &[6, b'g', b'o', b'o', b'g', b'l', b'e', 3, b'c', b'o', b'm', 0]);
    assert_eq!(compute_ip_checksum(&p[..20]), 0);
    let src = [p[12], p[13], p[14], p[15]];
    let dst = [p[16], p[17], p[18], p[19]];
    let c = compute_udp_checksum(&src, &dst, &p[20..]);
    assert!(c == 0 || c == 0xFFFF);
}

#[test]
fn classifies_returned_packets() {
    let mut synack = vec![0u8; 40];
    synack[9] = 6;
    synack[33] = 0x12;
    assert!(is_tcp_return(&synack));
    assert!(is_syn_ack(&synack));
    assert!(!is_udp_return(&synack));
    assert!(!is_tcp_return(&synack[..39]));
    let mut udp = vec![0u8; 28];
    udp[9] = 17;
    assert!(is_udp_return(&udp));
    assert!(!is_tcp_return(&udp));
    assert!(!is_udp_return(&udp[..27]));
}

#[test]
fn echo_appends_the_server_clock() {
    let r = echo_reply(&[1, 2, 3], 0x0102_0304_0506_0708);
    assert_eq!(r, vec![1, 2, 3, 1, 2, 3, 4, 5, 6, 7, 8]);
    assert_eq!(echo_reply(&[], u64::MAX), vec![0xFF; 8]);
    assert_eq!(echo_reply(&[9], 0), vec![9, 0, 0, 0, 0, 0, 0, 0, 0]);
}

#[test]
fn mock_game_messages() {
    assert_eq!(skill_ack_reply(1_700_000_000_123), "SERVER_ACK:SKILL_RESOLVED:1700000000123\n");
    assert_eq!(skill_ack_reply(0), "SERVER_ACK:SKILL_RESOLVED:0\n");
    assert_eq!(skill_cast_message(7, 42), "CAST_SKILL_ID:7:TS:42\n");
    assert_eq!(skill_cast_message(u32::MAX, u64::MAX), format!("CAST_SKILL_ID:{}:TS:{}\n", u32::MAX, u64::MAX));
    let mut pkt = vec![0u8; 32];
    pkt[0..4].copy_from_slice(&77u32.to_be_bytes());
    pkt[4..12].copy_from_slice(&0x0102_0304_0506_0708u64.to_be_bytes());
    assert_eq!(parse_tick_reply(&pkt), Some((77, 0x0102_0304_0506_0708)));
    assert_eq!(parse_tick_reply(&pkt[..11]), None);
}
