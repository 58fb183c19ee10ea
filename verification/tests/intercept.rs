use accelerator::config::{GameProfile, OptimizationsConfig, PortMatcher, RoutingConfig};
use accelerator::intercept::{parse_l4_ports, route_outbound, OutboundRoute};
use accelerator::watcher::ProcessState;
use std::collections::HashSet;

#[test]
fn test_parse_l4_ports() {
    let mut packet = vec![0u8; 28];
    packet[0] = 0x45;
    packet[9] = 17;
    packet[20..22].copy_from_slice(&50000u16.to_be_bytes());
    packet[22..24].copy_from_slice(&7777u16.to_be_bytes());

    let parsed = parse_l4_ports(&packet);
    assert_eq!(parsed, Some((false, 50000, 7777)));
}

#[test]
fn parse_l4_ports_rejects_other_traffic() {
    let mut packet = vec![0u8; 28];
    packet[0] = 0x45;
    packet[9] = 1;
    assert_eq!(parse_l4_ports(&packet), None);
    packet[0] = 0x65;
    packet[9] = 6;
    assert_eq!(parse_l4_ports(&packet), None);
    packet[0] = 0x4F; // IHL 60 bytes does not fit
    assert_eq!(parse_l4_ports(&packet), None);
    assert_eq!(parse_l4_ports(&packet[..19]), None);
}

fn profile() -> GameProfile {
    GameProfile {
        game_id: "g".to_string(),
        name: "Game".to_string(),
        executables: vec!["Game.exe".to_string()],
        routing: RoutingConfig {
            protocol: "BOTH".to_string(),
            ports: vec![PortMatcher::Single(7777)],
            target_subnets: vec![],
        },
        optimizations: OptimizationsConfig {
            enable_fastconnect: false,
            enable_multipath_dup: true,
            packet_duplication_rate: 2,
            dscp_tag: 46,
        },
    }
}

fn tcp_packet(src: u16, dst: u16) -> Vec<u8> {
    let mut p = vec![0u8; 40];
    p[0] = 0x45;
    p[9] = 6;
    p[20..22].copy_from_slice(&src.to_be_bytes());
    p[22..24].copy_from_slice(&dst.to_be_bytes());
    p
}

#[test]
fn game_traffic_is_tunnelled() {
    let mut ports = HashSet::new();
    ports.insert(50000u16);
    let state = ProcessState { is_running: true, pids: vec![1], tracked_ports: ports };
    let pkt = tcp_packet(50000, 443);
    match route_outbound(&profile(), &state, &pkt) {
        OutboundRoute::Tunnel(ip) => {
            assert_eq!(ip.raw, pkt);
            assert!(ip.is_tcp);
            assert_eq!(ip.src_port, 50000);
            assert_eq!(ip.dst_port, 443);
        }
        OutboundRoute::PassThrough => panic!("expected tunnel"),
    }
    assert!(matches!(
        route_outbound(&profile(), &state, &tcp_packet(40000, 7777)),
        OutboundRoute::Tunnel(_)
    ));
    assert!(matches!(
        route_outbound(&profile(), &state, &tcp_packet(40000, 443)),
        OutboundRoute::PassThrough
    ));
}

#[test]
fn profile_ports_need_running_game() {
    let state = ProcessState { is_running: false, pids: vec![], tracked_ports: HashSet::new() };
    assert!(matches!(
        route_outbound(&profile(), &state, &tcp_packet(40000, 7777)),
        OutboundRoute::PassThrough
    ));
}
