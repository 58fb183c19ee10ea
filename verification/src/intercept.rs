//! Outbound packet classification for split tunnelling.
//!
//! Outbound TCP and UDP packets of the game are diverted into the tunnel; all
//! other traffic goes back to the network stack untouched. A packet belongs to
//! the game when its source port is held by a game process, or when the game
//! runs and its destination port is one the profile routes.
use vstd::prelude::*;

use crate::bytes::be16_value;
use crate::checksum::spec_ihl;
use crate::config::{spec_ports_match, GameProfile};
use crate::watcher::ProcessState;

verus! {

broadcast use vstd::std_specs::hash::group_hash_axioms;

/// A game packet taken off the network stack.
pub struct InterceptedPacket {
    pub raw: Vec<u8>,
    pub is_tcp: bool,
    pub src_port: u16,
    pub dst_port: u16,
}

/// What happens to an outbound packet.
pub enum OutboundRoute {
    /// The packet belongs to the game and is sent through the tunnel.
    Tunnel(InterceptedPacket),
    /// The packet is handed back to the network stack.
    PassThrough,
}

/// The protocol (TCP or not) and the source and destination ports of an IPv4
/// TCP or UDP packet; nothing for anything else.
pub open spec fn spec_parse_l4_ports(p: Seq<u8>) -> Option<(bool, u16, u16)> {
    if p.len() < 20 || (p[0] / 16) % 16 != 4 {
        None
    } else if p.len() < spec_ihl(p) + 4 {
        None
    } else if p[9] != 6 && p[9] != 17 {
        None
    } else {
        let ihl = spec_ihl(p);
        Some(
            (
                p[9] == 6,
                be16_value(p[ihl], p[ihl + 1]) as u16,
                be16_value(p[ihl + 2], p[ihl + 3]) as u16,
            ),
        )
    }
}

/// Reads the protocol and ports of an IPv4 TCP or UDP packet.
pub fn parse_l4_ports(packet: &[u8]) -> (r: Option<(bool, u16, u16)>)
    ensures
        r == spec_parse_l4_ports(packet@),
{
    if packet.len() < 20 {
        return None;
    }
    let b0 = packet[0];
    proof {
        assert(((b0 >> 4) & 0x0F) == (b0 / 16) % 16 && (b0 & 0x0F) == b0 % 16) by (bit_vector);
    }
    let version = (b0 >> 4) & 0x0F;
    if version != 4 {
        return None;
    }
    let ihl = ((b0 & 0x0F) as usize) * 4;
    if packet.len() < ihl + 4 {
        return None;
    }
    let protocol = packet[9];
    let is_tcp = protocol == 6;
    let is_udp = protocol == 17;
    if !is_tcp && !is_udp {
        return None;
    }
    let src_port: u16 = (packet[ihl] as u16) * 256 + (packet[ihl + 1] as u16);
    let dst_port: u16 = (packet[ihl + 2] as u16) * 256 + (packet[ihl + 3] as u16);
    Some((is_tcp, src_port, dst_port))
}

/// Whether a packet with these ports belongs to the game in this process
/// state and profile.
pub open spec fn spec_is_game_traffic(
    ports: Seq<crate::config::PortMatcher>,
    is_running: bool,
    held_ports: Set<u16>,
    src_port: u16,
    dst_port: u16,
) -> bool {
    held_ports.contains(src_port) || (is_running && spec_ports_match(ports, dst_port))
}

/// Decides where an outbound packet goes: a TCP or UDP packet of the game
/// into the tunnel, anything else back to the network stack.
pub fn route_outbound(profile: &GameProfile, state: &ProcessState, packet: &[u8]) -> (r:
    OutboundRoute)
    ensures
        match spec_parse_l4_ports(packet@) {
            Some((is_tcp, src, dst)) => if spec_is_game_traffic(
                profile.routing.ports@,
                state.is_running,
                state.tracked_ports@,
                src,
                dst,
            ) {
                r matches OutboundRoute::Tunnel(ip) && ip.raw@ == packet@ && ip.is_tcp == is_tcp
                    && ip.src_port == src && ip.dst_port == dst
            } else {
                r is PassThrough
            },
            None => r is PassThrough,
        },
{
    match parse_l4_ports(packet) {
        Some((is_tcp, src_port, dst_port)) => {
            let matches_game = state.tracked_ports.contains(&src_port) || (state.is_running
                && profile.matches_port(dst_port));
            if matches_game {
                OutboundRoute::Tunnel(
                    InterceptedPacket {
                        raw: vstd::slice::slice_to_vec(packet),
                        is_tcp,
                        src_port,
                        dst_port,
                    },
                )
            } else {
                OutboundRoute::PassThrough
            }
        },
        None => OutboundRoute::PassThrough,
    }
}

/// The ports are found in every IPv4 TCP or UDP packet whose header fits
/// with four more bytes after it, and in nothing else: `Some` exactly when
/// the packet has at least 20 bytes, version 4, at least IHL * 4 + 4 bytes and
/// protocol 6 or 17, with the protocol told apart and the source and
/// destination ports read big-endian at IHL * 4.
pub proof fn lemma_l4_ports_of_tcp_and_udp(p: Seq<u8>)
    ensures
        spec_parse_l4_ports(p) is Some <==> (p.len() >= 20 && p[0] / 16 == 4 && p.len() >= (p[0] % 16)
            * 4 + 4 && (p[9] == 6 || p[9] == 17)),
        spec_parse_l4_ports(p) is Some ==> ({
            let off = (p[0] % 16) * 4;
            spec_parse_l4_ports(p) == Some::<(bool, u16, u16)>(
                (p[9] == 6, (p[off] * 256 + p[off + 1]) as u16, (p[off + 2] * 256 + p[off + 3]) as u16),
            )
        }),
{
}

/// Which ports a packet with a standard header (IHL of 5 or more) has does
/// not depend on its type of service, total length, identification, flags,
/// fragment offset or TTL (bytes 1 to 8): two packets that differ only there
/// parse alike.
pub proof fn lemma_l4_ports_ignore_header_fields(p: Seq<u8>, q: Seq<u8>)
    requires
        p.len() == q.len(),
        p.len() > 0 ==> p[0] % 16 >= 5,
        p.len() > 0 ==> p[0] == q[0],
        forall|i: int| 9 <= i < p.len() ==> p[i] == q[i],
    ensures
        spec_parse_l4_ports(p) == spec_parse_l4_ports(q),
{
}

} // verus!
