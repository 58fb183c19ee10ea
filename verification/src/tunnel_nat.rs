//! One-to-one address translation between the client's LAN address and the
//! tunnel's virtual address.
//!
//! Outbound packets get the virtual address as source, and the original source
//! is remembered per flow (source port, destination address, destination
//! port). Return packets get the remembered address back as destination. Both
//! directions recompute the IPv4 and TCP/UDP checksums.
use vstd::prelude::*;

use std::collections::HashMap;

use crate::bytes::{be16_value, be32_value};
use crate::checksum::{
    lemma_recalculate_keeps_addresses, lemma_recalculated_checksums_verify, recalculate_checksums,
    spec_checksum, spec_ihl, spec_l4_checksum, spec_recalculate, spec_tcp_checksum,
};

verus! {

broadcast use vstd::std_specs::hash::group_hash_axioms;

/// The translation state of the tunnel client.
pub struct TunnelNat {
    virtual_ip: [u8; 4],
    mappings: HashMap<u64, [u8; 4]>,
    last_src_ip: [u8; 4],
}

/// The abstract state of a `TunnelNat`: the virtual address, the remembered
/// source address of each flow, and the most recent outbound source address.
pub struct NatView {
    pub virtual_ip: Seq<u8>,
    pub mappings: Map<u64, [u8; 4]>,
    pub last_src_ip: [u8; 4],
}

impl View for TunnelNat {
    type V = NatView;

    closed spec fn view(&self) -> NatView {
        NatView { virtual_ip: self.virtual_ip@, mappings: self.mappings@, last_src_ip: self.last_src_ip }
    }
}

/// The key of a flow: local port, remote address, remote port.
pub open spec fn flow_key(local_port: int, remote_ip: Seq<u8>, remote_port: int) -> u64 {
    (local_port * 0x1_0000_0000_0000 + be32_value(remote_ip[0], remote_ip[1], remote_ip[2], remote_ip[3])
        * 0x1_0000 + remote_port) as u64
}

/// The four bytes at `off` of `p`, as an array.
pub open spec fn ip_at(p: Seq<u8>, off: int) -> [u8; 4] {
    [p[off], p[off + 1], p[off + 2], p[off + 3]]
}

/// Whether `p` is an IPv4 packet of at least 20 bytes.
pub open spec fn is_ipv4(p: Seq<u8>) -> bool {
    p.len() >= 20 && p[0] / 16 == 4
}

/// Whether the IPv4 packet `p` is TCP or UDP with its ports in the packet.
pub open spec fn has_ports(p: Seq<u8>) -> bool {
    (p[9] == 6 || p[9] == 17) && p.len() >= spec_ihl(p) + 4
}

/// The source port of a TCP or UDP packet.
pub open spec fn src_port_of(p: Seq<u8>) -> int {
    be16_value(p[spec_ihl(p)], p[spec_ihl(p) + 1])
}

/// The destination port of a TCP or UDP packet.
pub open spec fn dst_port_of(p: Seq<u8>) -> int {
    be16_value(p[spec_ihl(p) + 2], p[spec_ihl(p) + 3])
}

/// `p` with the four bytes at `off` replaced by `ip`.
pub open spec fn put_ip(p: Seq<u8>, off: int, ip: Seq<u8>) -> Seq<u8> {
    p.subrange(0, off) + ip + p.subrange(off + 4, p.len() as int)
}

/// The state, packet and result after translating the outbound packet `p`.
pub open spec fn spec_outbound(n: NatView, p: Seq<u8>) -> (NatView, Seq<u8>, bool) {
    if !is_ipv4(p) {
        (n, p, false)
    } else {
        let orig_src = ip_at(p, 12);
        let mappings = if has_ports(p) {
            n.mappings.insert(flow_key(src_port_of(p), p.subrange(16, 20), dst_port_of(p)), orig_src)
        } else {
            n.mappings
        };
        let rewritten = put_ip(p, 12, n.virtual_ip);
        (
            NatView { mappings, last_src_ip: orig_src, ..n },
            spec_recalculate(rewritten).0,
            spec_recalculate(rewritten).1,
        )
    }
}

/// The client address that a return packet `p` goes back to: the one
/// remembered for its flow, else the most recent outbound source address.
pub open spec fn inbound_target(n: NatView, p: Seq<u8>) -> [u8; 4] {
    let key = flow_key(dst_port_of(p), p.subrange(12, 16), src_port_of(p));
    if has_ports(p) && n.mappings.contains_key(key) {
        n.mappings[key]
    } else {
        n.last_src_ip
    }
}

/// The packet and result after translating the return packet `p`.
pub open spec fn spec_inbound(n: NatView, p: Seq<u8>) -> (Seq<u8>, bool) {
    if !is_ipv4(p) {
        (p, false)
    } else {
        let rewritten = put_ip(p, 16, inbound_target(n, p)@);
        spec_recalculate(rewritten)
    }
}

/// The flow key of local port, remote address and remote port.
fn make_key(local_port: u16, remote_ip: &[u8; 4], remote_port: u16) -> (k: u64)
    ensures
        k == flow_key(local_port as int, remote_ip@, remote_port as int),
{
    let ip: u64 = (remote_ip[0] as u64) * 16777216 + (remote_ip[1] as u64) * 65536 + (remote_ip[2] as u64)
        * 256 + (remote_ip[3] as u64);
    (local_port as u64) * 0x1_0000_0000_0000 + ip * 0x1_0000 + (remote_port as u64)
}

/// Overwrites the four bytes at `off` of `p` with `ip`.
fn write_ip(p: &mut [u8], off: usize, ip: &[u8; 4])
    requires
        off + 4 <= old(p)@.len(),
    ensures
        final(p)@ == put_ip(old(p)@, off as int, ip@),
{
    p[off] = ip[0];
    p[off + 1] = ip[1];
    p[off + 2] = ip[2];
    p[off + 3] = ip[3];
    assert(final(p)@ =~= put_ip(old(p)@, off as int, ip@));
}

/// Reads the IHL and the two ports of a TCP or UDP packet.
fn read_ports(p: &[u8]) -> (r: (usize, u16, u16))
    requires
        is_ipv4(p@),
        p@.len() >= spec_ihl(p@) + 4,
    ensures
        r.0 == spec_ihl(p@),
        r.1 == src_port_of(p@),
        r.2 == dst_port_of(p@),
{
    let b0 = p[0];
    proof {
        assert((b0 & 0x0F) == b0 % 16) by (bit_vector);
    }
    let ihl = ((b0 & 0x0F) as usize) * 4;
    let sp: u16 = (p[ihl] as u16) * 256 + (p[ihl + 1] as u16);
    let dp: u16 = (p[ihl + 2] as u16) * 256 + (p[ihl + 3] as u16);
    (ihl, sp, dp)
}

impl TunnelNat {
    /// A translator to `virtual_ip` that remembers no flow yet; until an
    /// outbound packet passes, return packets go to 192.168.1.1.
    pub fn new(virtual_ip: [u8; 4]) -> (t: Self)
        ensures
            t@.virtual_ip == virtual_ip@,
            t@.mappings == Map::<u64, [u8; 4]>::empty(),
            t@.last_src_ip == [192u8, 168u8, 1u8, 1u8],
    {
        TunnelNat { virtual_ip, mappings: HashMap::new(), last_src_ip: [192, 168, 1, 1] }
    }

    /// Rewrites the source address of an outbound IPv4 packet to the virtual
    /// address, remembering the original source for the packet's flow, and
    /// recomputes the checksums. Returns what `recalculate_checksums` returns;
    /// anything that is not IPv4 is left alone and `false` returned.
    pub fn translate_outbound(&mut self, packet: &mut [u8]) -> (ok: bool)
        ensures
            (final(self)@, final(packet)@, ok) == spec_outbound(old(self)@, old(packet)@),
    {
        if packet.len() < 20 || (packet[0] >> 4) != 4 {
            proof {
                let b = packet@[0];
                assert((b >> 4) == b / 16) by (bit_vector);
            }
            return false;
        }
        proof {
            let b = packet@[0];
            assert((b >> 4) == b / 16 && (b & 0x0F) == b % 16) by (bit_vector);
        }
        let ghost p = packet@;
        let ihl = ((packet[0] & 0x0F) as usize) * 4;
        let proto = packet[9];
        let orig_src_ip: [u8; 4] = [packet[12], packet[13], packet[14], packet[15]];
        let dst_ip: [u8; 4] = [packet[16], packet[17], packet[18], packet[19]];
        assert(orig_src_ip@ =~= p.subrange(12, 16));
        assert(dst_ip@ =~= p.subrange(16, 20));
        assert(ip_at(p, 12) =~= orig_src_ip);
        self.last_src_ip = orig_src_ip;
        if (proto == 6 || proto == 17) && packet.len() >= ihl + 4 {
            let (_, src_port, dst_port) = read_ports(packet);
            let key = make_key(src_port, &dst_ip, dst_port);
            self.mappings.insert(key, orig_src_ip);
        }
        let vip = self.virtual_ip;
        write_ip(packet, 12, &vip);
        recalculate_checksums(packet)
    }

    /// Rewrites the destination address of a return IPv4 packet to the client
    /// address remembered for its flow (the most recent outbound source
    /// address when none is), and recomputes the checksums. Anything that is
    /// not IPv4 is left alone and `false` returned.
    pub fn translate_inbound(&self, packet: &mut [u8]) -> (ok: bool)
        ensures
            (final(packet)@, ok) == spec_inbound(self@, old(packet)@),
    {
        if packet.len() < 20 || (packet[0] >> 4) != 4 {
            proof {
                let b = packet@[0];
                assert((b >> 4) == b / 16) by (bit_vector);
            }
            return false;
        }
        proof {
            let b = packet@[0];
            assert((b >> 4) == b / 16 && (b & 0x0F) == b % 16) by (bit_vector);
        }
        let ghost p = packet@;
        let ihl = ((packet[0] & 0x0F) as usize) * 4;
        let proto = packet[9];
        let src_ip: [u8; 4] = [packet[12], packet[13], packet[14], packet[15]];
        assert(src_ip@ =~= p.subrange(12, 16));
        let target_ip: Option<[u8; 4]> = if (proto == 6 || proto == 17) && packet.len() >= ihl + 4 {
            let (_, src_port, dst_port) = read_ports(packet);
            let key = make_key(dst_port, &src_ip, src_port);
            match self.mappings.get(&key) {
                Some(ip) => Some(*ip),
                None => None,
            }
        } else {
            None
        };
        let client_ip = match target_ip {
            Some(ip) => ip,
            None => self.last_src_ip,
        };
        assert(client_ip == inbound_target(self@, p));
        write_ip(packet, 16, &client_ip);
        recalculate_checksums(packet)
    }
}

/// Flow keys are equal only for equal local ports, remote addresses and
/// remote ports.
proof fn lemma_flow_key_injective(a1: int, ip1: Seq<u8>, b1: int, a2: int, ip2: Seq<u8>, b2: int)
    requires
        0 <= a1 < 65536,
        0 <= b1 < 65536,
        0 <= a2 < 65536,
        0 <= b2 < 65536,
        ip1.len() == 4,
        ip2.len() == 4,
        flow_key(a1, ip1, b1) == flow_key(a2, ip2, b2),
    ensures
        a1 == a2,
        ip1 == ip2,
        b1 == b2,
{
    let v1 = be32_value(ip1[0], ip1[1], ip1[2], ip1[3]);
    let v2 = be32_value(ip2[0], ip2[1], ip2[2], ip2[3]);
    let k1 = a1 * 0x1_0000_0000_0000 + v1 * 0x1_0000 + b1;
    let k2 = a2 * 0x1_0000_0000_0000 + v2 * 0x1_0000 + b2;
    assert(0 <= k1 < 0x1_0000_0000_0000_0000);
    assert(0 <= k2 < 0x1_0000_0000_0000_0000);
    assert(k1 == k2);
    let m1 = a1 * 0x1_0000_0000 + v1;
    let m2 = a2 * 0x1_0000_0000 + v2;
    assert(k1 == m1 * 0x1_0000 + b1);
    assert(k2 == m2 * 0x1_0000 + b2);
    vstd::arithmetic::div_mod::lemma_fundamental_div_mod_converse(k1, 0x1_0000, m1, b1);
    vstd::arithmetic::div_mod::lemma_fundamental_div_mod_converse(k2, 0x1_0000, m2, b2);
    vstd::arithmetic::div_mod::lemma_fundamental_div_mod_converse(m1, 0x1_0000_0000, a1, v1);
    vstd::arithmetic::div_mod::lemma_fundamental_div_mod_converse(m2, 0x1_0000_0000, a2, v2);
    vstd::arithmetic::div_mod::lemma_fundamental_div_mod_converse(v1, 256, ip1[0] * 0x1_0000 + ip1[1] * 0x100 + ip1[2], ip1[3] as int);
    vstd::arithmetic::div_mod::lemma_fundamental_div_mod_converse(v2, 256, ip2[0] * 0x1_0000 + ip2[1] * 0x100 + ip2[2], ip2[3] as int);
    let u1 = ip1[0] * 0x1_0000 + ip1[1] * 0x100 + ip1[2];
    let u2 = ip2[0] * 0x1_0000 + ip2[1] * 0x100 + ip2[2];
    vstd::arithmetic::div_mod::lemma_fundamental_div_mod_converse(u1, 256, ip1[0] * 0x100 + ip1[1], ip1[2] as int);
    vstd::arithmetic::div_mod::lemma_fundamental_div_mod_converse(u2, 256, ip2[0] * 0x100 + ip2[1], ip2[2] as int);
    vstd::arithmetic::div_mod::lemma_fundamental_div_mod_converse(ip1[0] * 0x100 + ip1[1], 256, ip1[0] as int, ip1[1] as int);
    vstd::arithmetic::div_mod::lemma_fundamental_div_mod_converse(ip2[0] * 0x100 + ip2[1], 256, ip2[0] as int, ip2[1] as int);
    assert(ip1 =~= ip2);
}

/// A return packet of a flow that went out through the translator is
/// delivered to the client address the outbound packet came from: after
/// `translate_outbound` on a TCP or UDP packet, `translate_inbound` on a reply
/// (from the packet's destination address and port, to its source port, with
/// a standard 20-byte or longer header) writes the original source address as
/// the reply's destination.
pub proof fn lemma_nat_roundtrip(n: NatView, out: Seq<u8>, reply: Seq<u8>)
    requires
        is_ipv4(out),
        has_ports(out),
        is_ipv4(reply),
        has_ports(reply),
        spec_ihl(reply) >= 20,
        reply.subrange(12, 16) == out.subrange(16, 20),
        src_port_of(reply) == dst_port_of(out),
        dst_port_of(reply) == src_port_of(out),
    ensures
        spec_inbound(spec_outbound(n, out).0, reply).0.subrange(16, 20) == out.subrange(12, 16),
{
    let n1 = spec_outbound(n, out).0;
    let key = flow_key(src_port_of(out), out.subrange(16, 20), dst_port_of(out));
    assert(flow_key(dst_port_of(reply), reply.subrange(12, 16), src_port_of(reply)) == key);
    assert(n1.mappings.contains_key(key));
    assert(inbound_target(n1, reply) == ip_at(out, 12));
    let rewritten = put_ip(reply, 16, ip_at(out, 12)@);
    assert(rewritten.subrange(16, 20) =~= out.subrange(12, 16));
    assert(spec_ihl(rewritten) == spec_ihl(reply));
    lemma_recalculate_keeps_addresses(rewritten);
    assert(spec_recalculate(rewritten).0.subrange(16, 20) =~= spec_recalculate(rewritten).0.subrange(
        12,
        20,
    ).subrange(4, 8));
    assert(rewritten.subrange(16, 20) =~= rewritten.subrange(12, 20).subrange(4, 8));
}

/// Translating packets of other flows in between does not disturb a flow:
/// after `translate_outbound` on a TCP or UDP packet and then on a packet of a
/// different flow (another source port, destination address or destination
/// port), a reply of the first flow still goes back to the first packet's
/// source address.
pub proof fn lemma_nat_other_flow_kept(n: NatView, out: Seq<u8>, other: Seq<u8>, reply: Seq<u8>)
    requires
        is_ipv4(out),
        has_ports(out),
        is_ipv4(reply),
        has_ports(reply),
        spec_ihl(reply) >= 20,
        reply.subrange(12, 16) == out.subrange(16, 20),
        src_port_of(reply) == dst_port_of(out),
        dst_port_of(reply) == src_port_of(out),
        is_ipv4(other) && has_ports(other) ==> (src_port_of(other) != src_port_of(out)
            || other.subrange(16, 20) != out.subrange(16, 20) || dst_port_of(other) != dst_port_of(
            out,
        )),
    ensures
        spec_inbound(spec_outbound(spec_outbound(n, out).0, other).0, reply).0.subrange(16, 20)
            == out.subrange(12, 16),
{
    let n1 = spec_outbound(n, out).0;
    let n2 = spec_outbound(n1, other).0;
    let key = flow_key(src_port_of(out), out.subrange(16, 20), dst_port_of(out));
    assert(flow_key(dst_port_of(reply), reply.subrange(12, 16), src_port_of(reply)) == key);
    if is_ipv4(other) && has_ports(other) {
        let k2 = flow_key(src_port_of(other), other.subrange(16, 20), dst_port_of(other));
        if k2 == key {
            lemma_flow_key_injective(
                src_port_of(other),
                other.subrange(16, 20),
                dst_port_of(other),
                src_port_of(out),
                out.subrange(16, 20),
                dst_port_of(out),
            );
        }
    }
    assert(n2.mappings.contains_key(key));
    assert(n2.mappings[key] == n1.mappings[key]);
    assert(inbound_target(n2, reply) == ip_at(out, 12));
    let rewritten = put_ip(reply, 16, ip_at(out, 12)@);
    assert(rewritten.subrange(16, 20) =~= out.subrange(12, 16));
    assert(spec_ihl(rewritten) == spec_ihl(reply));
    lemma_recalculate_keeps_addresses(rewritten);
    assert(spec_recalculate(rewritten).0.subrange(16, 20) =~= spec_recalculate(rewritten).0.subrange(
        12,
        20,
    ).subrange(4, 8));
    assert(rewritten.subrange(16, 20) =~= rewritten.subrange(12, 20).subrange(4, 8));
}

/// The virtual address of a translator has four bytes.
pub proof fn lemma_virtual_ip_len(t: &TunnelNat)
    ensures
        t@.virtual_ip.len() == 4,
{
}

/// An outbound IPv4 packet with a header of 20 bytes or more leaves the
/// translator from the virtual address, to its original destination, with its
/// length unchanged; when its transport checksum was recomputed, a receiver's
/// header check passes.
pub proof fn lemma_outbound_from_virtual_ip(n: NatView, p: Seq<u8>)
    requires
        n.virtual_ip.len() == 4,
        is_ipv4(p),
        spec_ihl(p) >= 20,
        p.len() <= 65535,
    ensures
        spec_outbound(n, p).1.len() == p.len(),
        spec_outbound(n, p).1.subrange(12, 16) == n.virtual_ip,
        spec_outbound(n, p).1.subrange(16, 20) == p.subrange(16, 20),
        spec_outbound(n, p).2 ==> spec_checksum(spec_outbound(n, p).1.subrange(0, spec_ihl(p))) == 0,
{
    let r = put_ip(p, 12, n.virtual_ip);
    assert(r.len() == p.len());
    assert(r[0] == p[0]);
    assert(spec_ihl(r) == spec_ihl(p));
    lemma_recalculate_keeps_addresses(r);
    let q = spec_recalculate(r).0;
    assert(r.subrange(12, 20) =~= n.virtual_ip + p.subrange(16, 20));
    assert(q.subrange(12, 16) =~= q.subrange(12, 20).subrange(0, 4));
    assert(q.subrange(16, 20) =~= q.subrange(12, 20).subrange(4, 8));
    assert((n.virtual_ip + p.subrange(16, 20)).subrange(0, 4) =~= n.virtual_ip);
    assert((n.virtual_ip + p.subrange(16, 20)).subrange(4, 8) =~= p.subrange(16, 20));
    if spec_recalculate(r).1 {
        lemma_recalculated_checksums_verify(r);
    }
}

/// A return packet leaves the translator with checksums that the local stack
/// accepts: for an IPv4 packet with a header of 20 bytes or more (up to 65535
/// bytes) on which `translate_inbound` returns true, the checksum over the
/// header of the output is zero, and so is the TCP or UDP checksum over the
/// output's own addresses and its segment; the output goes to the remembered
/// client address and keeps its length.
pub proof fn lemma_inbound_checksums_verify(n: NatView, p: Seq<u8>)
    requires
        is_ipv4(p),
        spec_ihl(p) >= 20,
        p.len() <= 65535,
        spec_inbound(n, p).1,
    ensures
        ({
            let q = spec_inbound(n, p).0;
            let ihl = spec_ihl(p);
            &&& q.len() == p.len()
            &&& q.subrange(16, 20) == inbound_target(n, p)@
            &&& spec_checksum(q.subrange(0, ihl)) == 0
            &&& p[9] == 6 ==> spec_tcp_checksum(q.subrange(12, 16), q.subrange(16, 20), q.subrange(ihl, q.len() as int))
                == 0
            &&& p[9] == 17 ==> spec_l4_checksum(
                17,
                q.subrange(12, 16),
                q.subrange(16, 20),
                q.subrange(ihl, q.len() as int),
            ) == 0
        }),
{
    let r = put_ip(p, 16, inbound_target(n, p)@);
    assert(r.len() == p.len());
    assert(r[0] == p[0] && r[9] == p[9]);
    assert(spec_ihl(r) == spec_ihl(p));
    lemma_recalculated_checksums_verify(r);
    lemma_recalculate_keeps_addresses(r);
    let q = spec_recalculate(r).0;
    assert(r.subrange(12, 20).subrange(4, 8) =~= inbound_target(n, p)@);
    assert(q.subrange(16, 20) =~= q.subrange(12, 20).subrange(4, 8));
}

/// An outbound packet leaves the translator with a transport checksum that
/// the receiver accepts too: for an IPv4 packet with a header of 20 bytes or
/// more (up to 65535 bytes) on which `translate_outbound` returns true, the
/// TCP or UDP checksum over the output's own addresses and its segment is zero.
pub proof fn lemma_outbound_transport_checksum_verifies(n: NatView, p: Seq<u8>)
    requires
        n.virtual_ip.len() == 4,
        is_ipv4(p),
        spec_ihl(p) >= 20,
        p.len() <= 65535,
        spec_outbound(n, p).2,
    ensures
        ({
            let q = spec_outbound(n, p).1;
            let ihl = spec_ihl(p);
            &&& p[9] == 6 ==> spec_tcp_checksum(q.subrange(12, 16), q.subrange(16, 20), q.subrange(ihl, q.len() as int))
                == 0
            &&& p[9] == 17 ==> spec_l4_checksum(
                17,
                q.subrange(12, 16),
                q.subrange(16, 20),
                q.subrange(ihl, q.len() as int),
            ) == 0
        }),
{
    let r = put_ip(p, 12, n.virtual_ip);
    assert(r.len() == p.len());
    assert(r[0] == p[0] && r[9] == p[9]);
    assert(spec_ihl(r) == spec_ihl(p));
    lemma_recalculated_checksums_verify(r);
}

} // verus!
