//! FastConnect: immediate local TCP acknowledgements.
//!
//! Game engines that tie client animations to server-side TCP ACKs stall for a
//! round trip on every action. When FastConnect is enabled, an outbound TCP
//! data segment is answered at once with a synthesized ACK addressed back to
//! the game, while the segment itself travels over the tunnel.
use vstd::prelude::*;

use crate::bytes::{be32_bytes, be32_value, lemma_be32_roundtrip, u16_to_be, u32_to_be};
use crate::checksum::{
    lemma_recalculated_checksums_verify, spec_checksum, spec_ihl, spec_recalculate,
    spec_tcp_checksum, with_ip_checksum, with_l4_checksum,
};

verus! {

/// Answers outbound TCP data segments with local ACKs when enabled.
pub struct FastConnectEngine {
    enabled: bool,
}

/// The length of the TCP header whose data-offset byte is `b`.
pub open spec fn spec_tcp_header_len(b: u8) -> int {
    (b / 16) * 4
}

/// The 20-byte IPv4 header of a synthesized ACK for the packet `p`, before
/// its checksum: version 4, IHL 5, total length 40, DF, TTL 64, protocol TCP,
/// from the packet's destination to its source.
pub open spec fn ack_ip_header(p: Seq<u8>) -> Seq<u8> {
    seq![0x45u8, 0u8, 0u8, 40u8, 0u8, 0u8, 0x40u8, 0u8, 64u8, 6u8, 0u8, 0u8] + p.subrange(16, 20)
        + p.subrange(12, 16)
}

/// The 20-byte TCP header of a synthesized ACK, before its checksum: ports
/// swapped, the sequence number taken from the segment's acknowledgement
/// field, acknowledging `ack_num`, flags ACK, window 65535.
pub open spec fn ack_tcp_header(p: Seq<u8>, off: int, ack_num: u32) -> Seq<u8> {
    p.subrange(off + 2, off + 4) + p.subrange(off, off + 2) + p.subrange(off + 8, off + 12)
        + be32_bytes(ack_num) + seq![0x50u8, 0x10u8, 0xFFu8, 0xFFu8, 0u8, 0u8, 0u8, 0u8]
}

/// The synthesized ACK packet with both checksums filled in.
#[verifier::opaque]
pub open spec fn spec_ack_packet(p: Seq<u8>, off: int, ack_num: u32) -> Seq<u8> {
    let raw = ack_ip_header(p) + ack_tcp_header(p, off, ack_num);
    with_l4_checksum(with_ip_checksum(raw, 20), 20, 16, true, p.subrange(16, 20), p.subrange(12, 16))
}

/// What `synthesize_local_ack` returns for the packet `p`: nothing when the
/// engine is off, the packet is shorter than 40 bytes, is not TCP, its TCP
/// header does not fit, or it carries no payload; otherwise the ACK for the
/// payload.
pub open spec fn spec_synthesize_ack(enabled: bool, p: Seq<u8>) -> Option<Seq<u8>> {
    if !enabled || p.len() < 40 {
        None
    } else {
        let ihl = spec_ihl(p);
        if p[9] != 6 || p.len() < ihl + 20 {
            None
        } else {
            let total = ihl + spec_tcp_header_len(p[ihl + 12]);
            if p.len() <= total {
                None
            } else {
                let payload_len = (p.len() - total) % 0x1_0000_0000;
                let seq_num = be32_value(p[ihl + 4], p[ihl + 5], p[ihl + 6], p[ihl + 7]);
                let ack_num = ((seq_num + payload_len) % 0x1_0000_0000) as u32;
                Some(spec_ack_packet(p, ihl, ack_num))
            }
        }
    }
}

/// The IPv4 header checksum of an even-length header.
fn compute_ip_checksum(header: &[u8]) -> (r: u16)
    requires
        header@.len() % 2 == 0,
    ensures
        r == spec_checksum(header@),
{
    crate::checksum::compute_checksum(header)
}

/// The TCP checksum of a segment between the four-byte addresses `src_ip` and
/// `dst_ip`.
fn compute_tcp_checksum(src_ip: &[u8], dst_ip: &[u8], tcp_segment: &[u8]) -> (r: u16)
    requires
        src_ip@.len() == 4,
        dst_ip@.len() == 4,
    ensures
        r == spec_tcp_checksum(src_ip@, dst_ip@, tcp_segment@),
{
    let src: [u8; 4] = [src_ip[0], src_ip[1], src_ip[2], src_ip[3]];
    let dst: [u8; 4] = [dst_ip[0], dst_ip[1], dst_ip[2], dst_ip[3]];
    assert(src@ =~= src_ip@);
    assert(dst@ =~= dst_ip@);
    crate::checksum::compute_tcp_checksum(&src, &dst, tcp_segment)
}

/// The ACK packet for `ip_packet` with its TCP header at `off`, both checksum
/// fields still zero.
fn ack_template(ip_packet: &[u8], off: usize, ack_num: u32) -> (v: Vec<u8>)
    requires
        20 <= ip_packet@.len(),
        off + 12 <= ip_packet@.len(),
    ensures
        v@ == ack_ip_header(ip_packet@) + ack_tcp_header(ip_packet@, off as int, ack_num),
{
    let ack_bytes = u32_to_be(ack_num);
    let v: Vec<u8> = vec![
        0x45, 0x00, 0x00, 40, 0x00, 0x00, 0x40, 0x00, 64, 6, 0, 0,
        ip_packet[16], ip_packet[17], ip_packet[18], ip_packet[19],
        ip_packet[12], ip_packet[13], ip_packet[14], ip_packet[15],
        ip_packet[off + 2], ip_packet[off + 3],
        ip_packet[off], ip_packet[off + 1],
        ip_packet[off + 8], ip_packet[off + 9],
        ip_packet[off + 10], ip_packet[off + 11],
        ack_bytes[0], ack_bytes[1], ack_bytes[2], ack_bytes[3],
        0x50, 0x10, 0xFF, 0xFF, 0, 0, 0, 0,
    ];
    assert(v@ =~= ack_ip_header(ip_packet@) + ack_tcp_header(ip_packet@, off as int, ack_num));
    v
}

/// Fills in the IPv4 header checksum and then the TCP checksum of a 40-byte
/// IPv4 + TCP packet whose checksum fields are zero.
fn fill_checksums(pkt: &mut Vec<u8>)
    requires
        old(pkt)@.len() == 40,
        old(pkt)@[10] == 0,
        old(pkt)@[11] == 0,
        old(pkt)@[36] == 0,
        old(pkt)@[37] == 0,
    ensures
        final(pkt)@ == with_l4_checksum(
            with_ip_checksum(old(pkt)@, 20),
            20,
            16,
            true,
            old(pkt)@.subrange(12, 16),
            old(pkt)@.subrange(16, 20),
        ),
{
    let ghost raw = pkt@;
    assert(raw =~= raw.update(10, 0u8).update(11, 0u8));
    let ip_csum = compute_ip_checksum(&pkt.as_slice()[0..20]);
    let ipb = u16_to_be(ip_csum);
    pkt[10] = ipb[0];
    pkt[11] = ipb[1];
    let ghost q = pkt@;
    assert(q =~= with_ip_checksum(raw, 20));
    assert(q =~= q.update(36, 0u8).update(37, 0u8));
    assert(q.subrange(12, 16) =~= raw.subrange(12, 16));
    assert(q.subrange(16, 20) =~= raw.subrange(16, 20));
    let tcp_csum = compute_tcp_checksum(
        &pkt.as_slice()[12..16],
        &pkt.as_slice()[16..20],
        &pkt.as_slice()[20..40],
    );
    let tb = u16_to_be(tcp_csum);
    pkt[36] = tb[0];
    pkt[37] = tb[1];
    assert(pkt@ =~= with_l4_checksum(q, 20, 16, true, raw.subrange(12, 16), raw.subrange(16, 20)));
}

impl FastConnectEngine {
    /// An engine that synthesizes ACKs exactly when `enabled` is set.
    pub fn new(enabled: bool) -> (e: Self)
        ensures
            e.is_enabled_spec() == enabled,
    {
        FastConnectEngine { enabled }
    }

    /// Whether the engine synthesizes ACKs.
    pub closed spec fn is_enabled_spec(&self) -> bool {
        self.enabled
    }

    /// Whether the engine synthesizes ACKs.
    pub fn is_enabled(&self) -> (r: bool)
        ensures
            r == self.is_enabled_spec(),
    {
        self.enabled
    }

    /// The 40-byte IPv4 + TCP ACK that acknowledges the payload of the
    /// outbound TCP segment `ip_packet`, if one is due.
    pub fn synthesize_local_ack(&self, ip_packet: &[u8]) -> (r: Option<Vec<u8>>)
        ensures
            match r {
                Some(v) => spec_synthesize_ack(self.is_enabled_spec(), ip_packet@) == Some(v@),
                None => spec_synthesize_ack(self.is_enabled_spec(), ip_packet@) is None,
            },
    {
        let ghost p = ip_packet@;
        if !self.enabled || ip_packet.len() < 40 {
            return None;
        }
        proof {
            let b = p[0];
            assert((b & 0x0F) == b % 16) by (bit_vector);
        }
        let ihl = ((ip_packet[0] & 0x0F) as usize) * 4;
        if ip_packet[9] != 6 || ip_packet.len() < ihl + 20 {
            return None;
        }
        let tcp_offset = ihl;
        let off_byte = ip_packet[tcp_offset + 12];
        proof {
            assert(((off_byte >> 4) & 0x0F) == off_byte / 16) by (bit_vector);
        }
        let tcp_header_len = (((off_byte >> 4) & 0x0F) as usize) * 4;
        let total_headers_len = tcp_offset + tcp_header_len;
        if ip_packet.len() <= total_headers_len {
            return None;
        }
        let payload_len: u32 = (((ip_packet.len() - total_headers_len) as u64) % 0x1_0000_0000u64) as u32;
        let seq_num: u32 = (ip_packet[tcp_offset + 4] as u32) * 16777216 + (ip_packet[tcp_offset + 5] as u32)
            * 65536 + (ip_packet[tcp_offset + 6] as u32) * 256 + (ip_packet[tcp_offset + 7] as u32);
        let ack_num = seq_num.wrapping_add(payload_len);
        let mut ack_packet = ack_template(ip_packet, tcp_offset, ack_num);
        let ghost raw = ack_packet@;
        fill_checksums(&mut ack_packet);
        proof {
            assert(raw.subrange(12, 16) =~= p.subrange(16, 20));
            assert(raw.subrange(16, 20) =~= p.subrange(12, 16));
            assert(ack_packet@ == spec_ack_packet(p, ihl as int, ack_num)) by {
                reveal(spec_ack_packet);
            }
        }
        Some(ack_packet)
    }
}

/// A synthesized ACK passes a receiver's checks: the IPv4 header checksum and
/// the TCP checksum both verify.
pub proof fn lemma_ack_checksums_verify(enabled: bool, p: Seq<u8>)
    requires
        spec_synthesize_ack(enabled, p) is Some,
    ensures
        ({
            let a = spec_synthesize_ack(enabled, p)->0;
            &&& a.len() == 40
            &&& spec_checksum(a.subrange(0, 20)) == 0
            &&& spec_tcp_checksum(a.subrange(12, 16), a.subrange(16, 20), a.subrange(20, 40)) == 0
        }),
{
    let ihl = spec_ihl(p);
    let total = ihl + spec_tcp_header_len(p[ihl + 12]);
    let payload_len = (p.len() - total) % 0x1_0000_0000;
    let seq_num = be32_value(p[ihl + 4], p[ihl + 5], p[ihl + 6], p[ihl + 7]);
    let ack_num = ((seq_num + payload_len) % 0x1_0000_0000) as u32;
    let raw = ack_ip_header(p) + ack_tcp_header(p, ihl, ack_num);
    assert(raw.len() == 40);
    assert(raw[0] == 0x45u8 && raw[9] == 6u8);
    assert(spec_ihl(raw) == 20);
    assert(raw.subrange(12, 16) =~= p.subrange(16, 20));
    assert(raw.subrange(16, 20) =~= p.subrange(12, 16));
    assert(spec_recalculate(raw).0 == spec_ack_packet(p, ihl, ack_num)) by {
        reveal(spec_ack_packet);
    }
    lemma_recalculated_checksums_verify(raw);
}

/// A synthesized ACK answers the segment it was made for: it goes from the
/// segment's destination address and port back to its source address and
/// port, carries the segment's acknowledgement number as its sequence number,
/// acknowledges the segment's sequence number plus its payload length (modulo
/// 2^32), and has only the ACK flag set.
pub proof fn lemma_ack_answers_segment(enabled: bool, p: Seq<u8>)
    requires
        spec_synthesize_ack(enabled, p) is Some,
    ensures
        ({
            let a = spec_synthesize_ack(enabled, p)->0;
            let ihl = spec_ihl(p);
            let payload_len = p.len() - ihl - spec_tcp_header_len(p[ihl + 12]);
            let seq_num = be32_value(p[ihl + 4], p[ihl + 5], p[ihl + 6], p[ihl + 7]);
            &&& payload_len > 0
            &&& a.subrange(12, 16) == p.subrange(16, 20)
            &&& a.subrange(16, 20) == p.subrange(12, 16)
            &&& a.subrange(20, 22) == p.subrange(ihl + 2, ihl + 4)
            &&& a.subrange(22, 24) == p.subrange(ihl, ihl + 2)
            &&& a.subrange(24, 28) == p.subrange(ihl + 8, ihl + 12)
            &&& be32_value(a[28], a[29], a[30], a[31]) == (seq_num + payload_len) % 0x1_0000_0000
            &&& a[33] == 0x10
        }),
{
    let ihl = spec_ihl(p);
    let total = ihl + spec_tcp_header_len(p[ihl + 12]);
    let payload_len = (p.len() - total) % 0x1_0000_0000;
    let seq_num = be32_value(p[ihl + 4], p[ihl + 5], p[ihl + 6], p[ihl + 7]);
    let ack_num = ((seq_num + payload_len) % 0x1_0000_0000) as u32;
    let raw = ack_ip_header(p) + ack_tcp_header(p, ihl, ack_num);
    let a = spec_synthesize_ack(enabled, p)->0;
    assert(a == spec_ack_packet(p, ihl, ack_num));
    reveal(spec_ack_packet);
    assert(raw.len() == 40);
    assert(a.len() == 40);
    assert forall|i: int| 0 <= i < 40 && i != 10 && i != 11 && i != 36 && i != 37 implies a[i] == raw[i] by {}
    assert(a.subrange(12, 16) =~= p.subrange(16, 20));
    assert(a.subrange(16, 20) =~= p.subrange(12, 16));
    assert(a.subrange(20, 22) =~= p.subrange(ihl + 2, ihl + 4));
    assert(a.subrange(22, 24) =~= p.subrange(ihl, ihl + 2));
    assert(a.subrange(24, 28) =~= p.subrange(ihl + 8, ihl + 12));
    assert(a[28] == be32_bytes(ack_num)[0] && a[29] == be32_bytes(ack_num)[1] && a[30] == be32_bytes(
        ack_num,
    )[2] && a[31] == be32_bytes(ack_num)[3]);
    lemma_be32_roundtrip(ack_num);
    vstd::arithmetic::div_mod::lemma_add_mod_noop_right(seq_num, p.len() - total, 0x1_0000_0000);
}

/// When the engine is enabled, every IPv4 TCP packet of at least 40 bytes
/// whose IP and TCP headers fit and that carries payload gets an ACK, whatever
/// its TCP flags; nothing else does.
pub proof fn lemma_ack_for_every_data_segment(enabled: bool, p: Seq<u8>)
    ensures
        ({
            let ihl = (p[0] % 16) * 4;
            spec_synthesize_ack(enabled, p) is Some <==> (enabled && p.len() >= 40 && p[9] == 6 && p.len()
                >= ihl + 20 && p.len() > ihl + (p[ihl + 12] / 16) * 4)
        }),
{
}

} // verus!
