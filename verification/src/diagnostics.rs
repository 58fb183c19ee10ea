//! Test traffic for checking a gateway end to end.
//!
//! A probe checks that the gateway answers; a TCP SYN to 1.1.1.1:80 and, when
//! that gets no answer, a DNS query for google.com to 8.8.8.8:53, both from
//! the tunnel's virtual address 10.8.0.2, check that it forwards and returns
//! traffic. The sequence numbers and local ports derive from the clock, so that
//! runs close in time do not collide.
use vstd::prelude::*;

use crate::bytes::{be16_bytes, be32_value, u16_to_be};
use crate::text::{append_decimal, spec_decimal};
use vstd::string::StringExecFns;
use crate::checksum::{recalculate_checksums, spec_recalculate};

verus! {

/// The sequence numbers and local ports of one test run.
#[derive(Debug, Clone, Copy, PartialEq, Eq, Structural)]
pub struct ProbePlan {
    /// Sequence number of the probe.
    pub seq_probe: u32,
    /// Sequence number of the tunnelled SYN.
    pub seq_syn: u32,
    /// Sequence number of the tunnelled DNS query.
    pub seq_dns: u32,
    /// Local TCP port of the SYN, in 40000..60000.
    pub tcp_port: u16,
    /// Local UDP port of the DNS query, in 53000..63000.
    pub dns_port: u16,
}

/// The plan for a run started `now_ms` milliseconds after the Unix epoch: the
/// probe takes the low 30 bits of the time as its sequence number, the SYN
/// and the DNS query the next two.
pub open spec fn spec_probe_plan(now_ms: u64) -> ProbePlan {
    let base = now_ms % 0x4000_0000;
    ProbePlan {
        seq_probe: base as u32,
        seq_syn: (base + 1) as u32,
        seq_dns: (base + 2) as u32,
        tcp_port: (40000 + base % 20000) as u16,
        dns_port: (53000 + base % 10000) as u16,
    }
}

/// The plan for a run started `now_ms` milliseconds after the Unix epoch.
pub fn probe_plan(now_ms: u64) -> (p: ProbePlan)
    ensures
        p == spec_probe_plan(now_ms),
{
    let base: u32 = (now_ms % 0x4000_0000) as u32;
    ProbePlan {
        seq_probe: base,
        seq_syn: base + 1,
        seq_dns: base + 2,
        tcp_port: (40000 + base % 20000) as u16,
        dns_port: (53000 + base % 10000) as u16,
    }
}

/// The SYN before its checksums: IPv4 (IHL 5, TTL 64, TCP) from 10.8.0.2 to
/// 1.1.1.1, from `local_port` to port 80, sequence number 100000, a 20-byte
/// TCP header with only SYN set, window 65535.
pub open spec fn syn_probe_raw(local_port: u16) -> Seq<u8> {
    seq![0x45u8, 0, 0, 0, 0, 0, 0, 0, 64, 6, 0, 0, 10, 8, 0, 2, 1, 1, 1, 1] + be16_bytes(local_port)
        + seq![0u8, 80, 0, 1, 0x86, 0xA0, 0, 0, 0, 0, 0x50, 0x02, 0xFF, 0xFF, 0, 0, 0, 0]
}

/// The DNS message: id 0x1234, recursion desired, one question for the A
/// record of google.com in class IN.
pub open spec fn dns_query_payload() -> Seq<u8> {
    seq![
        0x12u8, 0x34, 0x01, 0x00, 0x00, 0x01, 0x00, 0x00, 0x00, 0x00, 0x00, 0x00,
        6, 0x67, 0x6F, 0x6F, 0x67, 0x6C, 0x65, 3, 0x63, 0x6F, 0x6D, 0,
        0x00, 0x01, 0x00, 0x01,
    ]
}

/// The DNS query packet before its checksums: IPv4 (IHL 5, total length 56,
/// TTL 64, UDP) from 10.8.0.2 to 8.8.8.8, from `src_port` to port 53, UDP
/// length 36.
pub open spec fn dns_query_raw(src_port: u16) -> Seq<u8> {
    seq![0x45u8, 0, 0, 56, 0, 0, 0, 0, 64, 17, 0, 0, 10, 8, 0, 2, 8, 8, 8, 8] + be16_bytes(src_port)
        + seq![0u8, 53, 0, 36, 0, 0] + dns_query_payload()
}

/// The test SYN from `local_port`, with its checksums.
pub fn syn_probe_packet(local_port: u16) -> (p: Vec<u8>)
    ensures
        p@ == spec_recalculate(syn_probe_raw(local_port)).0,
{
    let pb = u16_to_be(local_port);
    let mut p: Vec<u8> = vec![
        0x45, 0, 0, 0, 0, 0, 0, 0, 64, 6, 0, 0, 10, 8, 0, 2, 1, 1, 1, 1,
        pb[0], pb[1], 0, 80, 0, 1, 0x86, 0xA0, 0, 0, 0, 0, 0x50, 0x02, 0xFF, 0xFF, 0, 0, 0, 0,
    ];
    assert(p@ =~= syn_probe_raw(local_port));
    let _ = recalculate_checksums(p.as_mut_slice());
    p
}

/// The test DNS query from `src_port`, with its checksums.
pub fn dns_query_packet(src_port: u16) -> (p: Vec<u8>)
    ensures
        p@ == spec_recalculate(dns_query_raw(src_port)).0,
{
    let pb = u16_to_be(src_port);
    let mut p: Vec<u8> = vec![
        0x45, 0, 0, 56, 0, 0, 0, 0, 64, 17, 0, 0, 10, 8, 0, 2, 8, 8, 8, 8,
        pb[0], pb[1], 0, 53, 0, 36, 0, 0,
        0x12, 0x34, 0x01, 0x00, 0x00, 0x01, 0x00, 0x00, 0x00, 0x00, 0x00, 0x00,
        6, 0x67, 0x6F, 0x6F, 0x67, 0x6C, 0x65, 3, 0x63, 0x6F, 0x6D, 0,
        0x00, 0x01, 0x00, 0x01,
    ];
    assert(p@ =~= dns_query_raw(src_port));
    let _ = recalculate_checksums(p.as_mut_slice());
    p
}

/// Whether a returned IP packet answers the SYN: TCP, with both headers.
pub fn is_tcp_return(ip_packet: &[u8]) -> (r: bool)
    ensures
        r == (ip_packet@.len() >= 40 && ip_packet@[9] == 6),
{
    ip_packet.len() >= 40 && ip_packet[9] == 6
}

/// Whether a returned TCP packet has both SYN and ACK set.
pub fn is_syn_ack(ip_packet: &[u8]) -> (r: bool)
    requires
        ip_packet@.len() >= 40,
    ensures
        r == (ip_packet@[33] & 0x12 == 0x12),
{
    ip_packet[33] & 0x12 == 0x12
}

/// Whether a returned IP packet answers the DNS query: UDP, with both
/// headers.
pub fn is_udp_return(ip_packet: &[u8]) -> (r: bool)
    ensures
        r == (ip_packet@.len() >= 28 && ip_packet@[9] == 17),
{
    ip_packet.len() >= 28 && ip_packet[9] == 17
}

/// The eight big-endian bytes of `x`.
pub open spec fn be64_bytes(x: u64) -> Seq<u8> {
    Seq::new(8, |i: int| ((x as int / pow256(7 - i)) % 256) as u8)
}

/// 256 to the power `k`.
pub open spec fn pow256(k: int) -> int
    decreases k,
{
    if k <= 0 {
        1
    } else {
        256 * pow256(k - 1)
    }
}

/// The mock game server's answer to a movement datagram: the datagram echoed
/// back, followed by the server's clock in milliseconds as eight big-endian
/// bytes.
pub fn echo_reply(data: &[u8], server_ms: u64) -> (r: Vec<u8>)
    ensures
        r@ == data@ + be64_bytes(server_ms),
{
    let mut r = vstd::slice::slice_to_vec(data);
    let mut k: u64 = 8;
    let mut div: u64 = 72057594037927936;
    let ghost start = r@;
    proof {
        reveal_with_fuel(pow256, 9);
    }
    while k > 0
        invariant
            k <= 8,
            div as int == pow256(k - 1),
            r@ == start + be64_bytes(server_ms).subrange(0, 8 - k as int),
            start == data@,
        decreases k,
    {
        proof {
            reveal_with_fuel(pow256, 9);
        }
        let b = ((server_ms / div) % 256) as u8;
        assert(b == be64_bytes(server_ms)[8 - k as int]);
        r.push(b);
        assert(r@ =~= start + be64_bytes(server_ms).subrange(0, 8 - k + 1));
        k = k - 1;
        if k > 0 {
            div = div / 256;
        }
    }
    assert(be64_bytes(server_ms).subrange(0, 8) =~= be64_bytes(server_ms));
    r
}

/// The mock game server's answer to a skill cast: "SERVER_ACK:SKILL_RESOLVED:",
/// its clock in milliseconds in decimal, and a newline.
pub fn skill_ack_reply(now_ms: u64) -> (r: String)
    ensures
        r@ == "SERVER_ACK:SKILL_RESOLVED:"@ + spec_decimal(now_ms as nat) + "\n"@,
{
    let mut r = "SERVER_ACK:SKILL_RESOLVED:".to_owned();
    append_decimal(&mut r, now_ms);
    r.append("\n");
    r
}

/// The mock game client's skill cast: "CAST_SKILL_ID:", the skill counter,
/// ":TS:", its clock in milliseconds, both in decimal, and a newline.
pub fn skill_cast_message(skill: u32, now_ms: u64) -> (r: String)
    ensures
        r@ == "CAST_SKILL_ID:"@ + spec_decimal(skill as nat) + ":TS:"@ + spec_decimal(now_ms as nat)
            + "\n"@,
{
    let mut r = "CAST_SKILL_ID:".to_owned();
    append_decimal(&mut r, skill as u64);
    r.append(":TS:");
    append_decimal(&mut r, now_ms);
    r.append("\n");
    r
}

/// The sequence number and the send time that a movement datagram echoed by
/// the mock server starts with: a big-endian 32-bit number and a big-endian
/// 64-bit time; nothing for a datagram shorter than 12 bytes.
pub open spec fn spec_tick_reply(b: Seq<u8>) -> Option<(u32, u64)> {
    if b.len() < 12 {
        None
    } else {
        Some(
            (
                be32_value(b[0], b[1], b[2], b[3]) as u32,
                (be32_value(b[4], b[5], b[6], b[7]) * 0x1_0000_0000 + be32_value(b[8], b[9], b[10], b[11]))
                    as u64,
            ),
        )
    }
}

/// Reads the sequence number and send time of an echoed movement datagram.
pub fn parse_tick_reply(buf: &[u8]) -> (r: Option<(u32, u64)>)
    ensures
        r == spec_tick_reply(buf@),
{
    if buf.len() < 12 {
        return None;
    }
    let seq: u32 = (buf[0] as u32) * 16777216 + (buf[1] as u32) * 65536 + (buf[2] as u32) * 256
        + (buf[3] as u32);
    let hi: u64 = (buf[4] as u64) * 16777216 + (buf[5] as u64) * 65536 + (buf[6] as u64) * 256
        + (buf[7] as u64);
    let lo: u64 = (buf[8] as u64) * 16777216 + (buf[9] as u64) * 65536 + (buf[10] as u64) * 256
        + (buf[11] as u64);
    Some((seq, hi * 0x1_0000_0000 + lo))
}

} // verus!
