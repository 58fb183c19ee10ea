//! Internet checksums (RFC 1071) for IPv4 headers and TCP/UDP segments.
//!
//! The sum of the 16-bit big-endian words is accumulated in a 32-bit register
//! that wraps on overflow, the carries are folded back into the low 16 bits,
//! and the checksum is the one's complement of the result.
use vstd::prelude::*;

use crate::bytes::{be16_bytes, be16_value, lemma_be16_roundtrip, u16_to_be};

verus! {

/// 2^32, the modulus of the 32-bit accumulator.
pub open spec fn modulus32() -> int {
    0x1_0000_0000
}

/// Word `k` of `d`: the big-endian value of bytes `2k` and `2k + 1`, where a
/// missing last byte counts as zero.
pub open spec fn word_at(d: Seq<u8>, k: int) -> int {
    be16_value(d[2 * k], if 2 * k + 1 < d.len() { d[2 * k + 1] } else { 0u8 })
}

/// The number of 16-bit words in `d`, counting a trailing odd byte as a word.
pub open spec fn num_words(d: Seq<u8>) -> nat {
    ((d.len() + 1) / 2) as nat
}

/// The sum of the first `n` words of `d`.
pub open spec fn sum_words(d: Seq<u8>, n: nat) -> int
    decreases n,
{
    if n == 0 {
        0
    } else {
        sum_words(d, (n - 1) as nat) + word_at(d, n - 1)
    }
}

/// The sum of all words of `d`, without any wrapping.
pub open spec fn word_sum(d: Seq<u8>) -> int {
    sum_words(d, num_words(d))
}

/// Folds the carries above bit 15 back into the low 16 bits until none is left.
pub open spec fn fold_carries(s: int) -> int
    decreases s,
{
    if s < 65536 {
        s
    } else {
        fold_carries(s % 65536 + s / 65536)
    }
}

/// The one's complement of the folded 32-bit sum `s`.
pub open spec fn ones_complement(s: int) -> u16 {
    (65535 - fold_carries(s)) as u16
}

/// The Internet checksum of `d`.
pub open spec fn spec_checksum(d: Seq<u8>) -> u16 {
    ones_complement(word_sum(d) % modulus32())
}

/// The sum of the pseudo-header words that precede a TCP or UDP segment:
/// source and destination address, protocol number and segment length
/// (taken modulo 2^32, as the length is cast to a 32-bit integer).
pub open spec fn pseudo_header_sum(proto: u8, src: Seq<u8>, dst: Seq<u8>, seg_len: int) -> int {
    be16_value(src[0], src[1]) + be16_value(src[2], src[3]) + be16_value(dst[0], dst[1])
        + be16_value(dst[2], dst[3]) + proto + seg_len % modulus32()
}

/// The checksum of a transport segment with the given protocol number, over the
/// pseudo-header and the segment (before UDP's special treatment of zero).
pub open spec fn spec_l4_checksum(proto: u8, src: Seq<u8>, dst: Seq<u8>, seg: Seq<u8>) -> u16 {
    ones_complement((pseudo_header_sum(proto, src, dst, seg.len() as int) + word_sum(seg)) % modulus32())
}

/// The TCP checksum of a segment.
pub open spec fn spec_tcp_checksum(src: Seq<u8>, dst: Seq<u8>, seg: Seq<u8>) -> u16 {
    spec_l4_checksum(6, src, dst, seg)
}

/// The UDP checksum of a segment; a computed zero is sent as 0xFFFF, since a
/// zero UDP checksum means "no checksum".
pub open spec fn spec_udp_checksum(src: Seq<u8>, dst: Seq<u8>, seg: Seq<u8>) -> u16 {
    if spec_l4_checksum(17, src, dst, seg) == 0 {
        0xFFFF
    } else {
        spec_l4_checksum(17, src, dst, seg)
    }
}

// ---------------------------------------------------------------------------
// Arithmetic facts about the sums
// ---------------------------------------------------------------------------
proof fn lemma_add_mod(a: int, w: int)
    requires
        a >= 0,
        0 <= w,
    ensures
        (a % modulus32() + w) % modulus32() == (a + w) % modulus32(),
{
    vstd::arithmetic::div_mod::lemma_add_mod_noop(a, w, modulus32());
    vstd::arithmetic::div_mod::lemma_mod_twice(w, modulus32());
    vstd::arithmetic::div_mod::lemma_add_mod_noop(a % modulus32(), w, modulus32());
    vstd::arithmetic::div_mod::lemma_mod_twice(a, modulus32());
}

proof fn lemma_word_bounds(d: Seq<u8>, k: int)
    requires
        0 <= k < num_words(d),
    ensures
        0 <= word_at(d, k) <= 65535,
{
}

/// Every prefix sum of words is non-negative and at most 65535 per word.
pub proof fn lemma_sum_words_bounds(d: Seq<u8>, n: nat)
    requires
        n <= num_words(d),
    ensures
        0 <= sum_words(d, n) <= 65535 * n,
    decreases n,
{
    if n > 0 {
        lemma_sum_words_bounds(d, (n - 1) as nat);
        lemma_word_bounds(d, n - 1);
    }
}

/// Folding keeps the value within 16 bits, keeps it modulo 65535, and keeps a
/// positive value positive.
pub proof fn lemma_fold_carries(s: int)
    requires
        s >= 0,
    ensures
        0 <= fold_carries(s) <= 65535,
        fold_carries(s) % 65535 == s % 65535,
        s > 0 ==> fold_carries(s) > 0,
    decreases s,
{
    if s >= 65536 {
        let q = s / 65536;
        let r = s % 65536;
        assert(s == 65536 * q + r);
        assert((65536 * q + r) % 65535 == (q + r) % 65535) by {
            assert(65536 * q + r == 65535 * q + (q + r));
            vstd::arithmetic::div_mod::lemma_mod_multiples_vanish(q, q + r, 65535);
        }
        lemma_fold_carries(r + q);
    }
}

/// Changing one word of `d` changes the sums of every prefix that holds it by
/// the difference of the word values.
proof fn lemma_sum_words_update(d: Seq<u8>, e: Seq<u8>, k: int, n: nat)
    requires
        d.len() == e.len(),
        0 <= k,
        forall|j: int| 0 <= j < num_words(d) && j != k ==> word_at(d, j) == word_at(e, j),
        n <= num_words(d),
    ensures
        sum_words(e, n) == sum_words(d, n) + (if k < n { word_at(e, k) - word_at(d, k) } else { 0 }),
    decreases n,
{
    if n > 0 {
        lemma_sum_words_update(d, e, k, (n - 1) as nat);
    }
}

/// The one's complement of a folded sum into which its own checksum has been
/// added is zero: this is what makes a receiver's check pass.
pub proof fn lemma_complement_of_checked_sum(s: int)
    requires
        0 <= s,
        s + 65535 < modulus32(),
    ensures
        ones_complement((s + ones_complement(s % modulus32())) % modulus32()) == 0,
{
    lemma_fold_carries(s);
    let c = 65535 - fold_carries(s);
    assert(s % modulus32() == s);
    assert(ones_complement(s) == c);
    let t = s + c;
    assert(t % modulus32() == t);
    lemma_fold_carries(t);
    assert(t > 0);
    assert(t % 65535 == 0) by {
        assert(fold_carries(s) % 65535 == s % 65535);
        vstd::arithmetic::div_mod::lemma_add_mod_noop(s, c, 65535);
        vstd::arithmetic::div_mod::lemma_add_mod_noop(fold_carries(s), c, 65535);
        assert(fold_carries(s) + c == 65535);
    }
    assert(fold_carries(t) % 65535 == 0);
    assert(fold_carries(t) == 65535);
}

/// Writing the 16-bit value `c` into a zeroed, word-aligned field of `d` adds
/// exactly `c` to the word sum.
pub proof fn lemma_word_sum_insert(d: Seq<u8>, i: int, c: u16)
    requires
        0 <= i,
        i % 2 == 0,
        i + 1 < d.len(),
        d[i] == 0,
        d[i + 1] == 0,
    ensures
        word_sum(d.update(i, be16_bytes(c)[0]).update(i + 1, be16_bytes(c)[1])) == word_sum(d) + c,
{
    let e = d.update(i, be16_bytes(c)[0]).update(i + 1, be16_bytes(c)[1]);
    let k = i / 2;
    assert(2 * k == i);
    assert forall|j: int| 0 <= j < num_words(d) && j != k implies word_at(d, j) == word_at(e, j) by {
        assert(2 * j != i && 2 * j != i + 1);
        assert(2 * j + 1 != i && 2 * j + 1 != i + 1);
    }
    lemma_be16_roundtrip(c);
    assert(word_at(e, k) == c);
    assert(word_at(d, k) == 0);
    lemma_sum_words_update(d, e, k, num_words(d));
}

/// Writing the checksum of `d` into a zeroed, word-aligned field of `d` gives
/// data whose checksum is zero, provided the word sum does not wrap the 32-bit
/// accumulator (at most 131070 bytes).
pub proof fn lemma_checksum_insert_verifies(d: Seq<u8>, i: int)
    requires
        0 <= i,
        i % 2 == 0,
        i + 1 < d.len(),
        d.len() <= 131070,
        d[i] == 0,
        d[i + 1] == 0,
    ensures
        spec_checksum(put_u16(d, i, spec_checksum(d))) == 0,
{
    let c = spec_checksum(d);
    lemma_word_sum_insert(d, i, c);
    lemma_sum_words_bounds(d, num_words(d));
    assert(65535 * num_words(d) <= 65535 * 65535);
    lemma_complement_of_checked_sum(word_sum(d));
}

// ---------------------------------------------------------------------------
// Executable checksums
// ---------------------------------------------------------------------------
/// Adds the words of `data` to the 32-bit accumulator `start`, wrapping on
/// overflow.
fn add_words(start: u32, data: &[u8]) -> (sum: u32)
    ensures
        sum == (start + word_sum(data@)) % modulus32(),
{
    let n = data.len();
    let mut sum: u32 = start;
    let mut i: usize = 0;
    proof {
        lemma_sum_words_bounds(data@, 0);
    }
    while i + 1 < n
        invariant
            n == data@.len(),
            i % 2 == 0,
            i <= n,
            sum == (start + sum_words(data@, (i / 2) as nat)) % modulus32(),
        decreases n - i,
    {
        let w: u32 = (data[i] as u32) * 256 + (data[i + 1] as u32);
        proof {
            assert(word_at(data@, (i / 2) as int) == w);
            lemma_sum_words_bounds(data@, (i / 2) as nat);
            lemma_add_mod(start + sum_words(data@, (i / 2) as nat), w as int);
            assert(sum_words(data@, (i / 2 + 1) as nat) == sum_words(data@, (i / 2) as nat) + w);
        }
        sum = sum.wrapping_add(w);
        i = i + 2;
    }
    if i < n {
        let w: u32 = (data[i] as u32) * 256;
        proof {
            assert(word_at(data@, (i / 2) as int) == w);
            lemma_sum_words_bounds(data@, (i / 2) as nat);
            lemma_add_mod(start + sum_words(data@, (i / 2) as nat), w as int);
            assert(sum_words(data@, (i / 2 + 1) as nat) == sum_words(data@, (i / 2) as nat) + w);
            assert(num_words(data@) == i / 2 + 1);
        }
        sum = sum.wrapping_add(w);
    } else {
        assert(num_words(data@) == i / 2);
    }
    sum
}

/// Folds the carries of `sum` and returns the one's complement.
fn finish(sum: u32) -> (r: u16)
    ensures
        r == ones_complement(sum as int),
{
    let mut s = sum;
    while (s >> 16) > 0
        invariant
            fold_carries(s as int) == fold_carries(sum as int),
        decreases s,
    {
        let x = s;
        assert((x >> 16) > 0 ==> x >= 65536) by (bit_vector);
        assert(x & 0xFFFF == x % 65536 && x >> 16 == x / 65536) by (bit_vector);
        s = (s & 0xFFFF) + (s >> 16);
    }
    let x = s;
    assert(!((x >> 16) > 0) ==> x < 65536) by (bit_vector);
    proof {
        lemma_fold_carries(sum as int);
    }
    assert(x < 65536 ==> !(x as u16) == 65535 - x) by (bit_vector);
    !(s as u16)
}

/// The Internet checksum (RFC 1071) of `data`.
pub fn compute_checksum(data: &[u8]) -> (r: u16)
    ensures
        r == spec_checksum(data@),
{
    let sum = add_words(0, data);
    finish(sum)
}

/// The IPv4 header checksum of the bytes `h`: over the first IHL * 4 bytes,
/// as the header's first byte gives them, when `h` holds that many; over all
/// of `h` otherwise.
pub open spec fn spec_ip_checksum(h: Seq<u8>) -> u16 {
    if h.len() > 0 && spec_ihl(h) <= h.len() {
        spec_checksum(h.subrange(0, spec_ihl(h)))
    } else {
        spec_checksum(h)
    }
}

/// The IPv4 header checksum over the first IHL * 4 bytes of `header`; over
/// the whole of `header` when it is empty or shorter than that.
pub fn compute_ip_checksum(header: &[u8]) -> (r: u16)
    ensures
        r == spec_ip_checksum(header@),
{
    if header.len() > 0 {
        let b0 = header[0];
        proof {
            assert((b0 & 0x0F) == b0 % 16) by (bit_vector);
        }
        let ihl = ((b0 & 0x0F) as usize) * 4;
        if ihl <= header.len() {
            return compute_checksum(&header[0..ihl]);
        }
    }
    compute_checksum(header)
}

/// The pseudo-header sum, reduced into the 32-bit accumulator.
fn pseudo_header(proto: u8, src_ip: &[u8; 4], dst_ip: &[u8; 4], seg_len: usize) -> (sum: u32)
    ensures
        sum == pseudo_header_sum(proto, src_ip@, dst_ip@, seg_len as int) % modulus32(),
{
    let mut sum: u32 = (src_ip[0] as u32) * 256 + (src_ip[1] as u32);
    sum = sum + (src_ip[2] as u32) * 256 + (src_ip[3] as u32);
    sum = sum + (dst_ip[0] as u32) * 256 + (dst_ip[1] as u32);
    sum = sum + (dst_ip[2] as u32) * 256 + (dst_ip[3] as u32);
    sum = sum + (proto as u32);
    let len32: u32 = ((seg_len as u64) % 0x1_0000_0000u64) as u32;
    let before = sum;
    sum = sum.wrapping_add(len32);
    proof {
        assert(len32 == (seg_len as int) % modulus32());
        assert(sum == (before + len32) % modulus32());
    }
    sum
}

/// The TCP checksum of `tcp_segment` sent from `src_ip` to `dst_ip`.
pub fn compute_tcp_checksum(src_ip: &[u8; 4], dst_ip: &[u8; 4], tcp_segment: &[u8]) -> (r: u16)
    ensures
        r == spec_tcp_checksum(src_ip@, dst_ip@, tcp_segment@),
{
    let base = pseudo_header(6, src_ip, dst_ip, tcp_segment.len());
    let sum = add_words(base, tcp_segment);
    proof {
        lemma_sum_words_bounds(tcp_segment@, num_words(tcp_segment@));
        lemma_add_mod(
            pseudo_header_sum(6, src_ip@, dst_ip@, tcp_segment@.len() as int),
            word_sum(tcp_segment@),
        );
    }
    finish(sum)
}

/// The UDP checksum of `udp_segment` sent from `src_ip` to `dst_ip`; a computed
/// zero is returned as 0xFFFF.
pub fn compute_udp_checksum(src_ip: &[u8; 4], dst_ip: &[u8; 4], udp_segment: &[u8]) -> (r: u16)
    ensures
        r == spec_udp_checksum(src_ip@, dst_ip@, udp_segment@),
{
    let base = pseudo_header(17, src_ip, dst_ip, udp_segment.len());
    let sum = add_words(base, udp_segment);
    proof {
        lemma_sum_words_bounds(udp_segment@, num_words(udp_segment@));
        lemma_add_mod(
            pseudo_header_sum(17, src_ip@, dst_ip@, udp_segment@.len() as int),
            word_sum(udp_segment@),
        );
    }
    let res = finish(sum);
    if res == 0 {
        0xFFFF
    } else {
        res
    }
}


// ---------------------------------------------------------------------------
// Recalculating the checksums of an IPv4 packet in place
// ---------------------------------------------------------------------------
/// The IPv4 header length in bytes: the IHL nibble of the first byte times 4.
pub open spec fn spec_ihl(p: Seq<u8>) -> int {
    (p[0] % 16) * 4
}

/// `p` with the two bytes at `off` replaced by the big-endian bytes of `c`.
pub open spec fn put_u16(p: Seq<u8>, off: int, c: u16) -> Seq<u8> {
    p.update(off, be16_bytes(c)[0]).update(off + 1, be16_bytes(c)[1])
}

/// `p` with the two bytes at `off` set to zero.
pub open spec fn zero_u16(p: Seq<u8>, off: int) -> Seq<u8> {
    p.update(off, 0u8).update(off + 1, 0u8)
}

/// `p` after its IPv4 header checksum (bytes 10..12) has been recomputed over
/// the first `ihl` bytes.
pub open spec fn with_ip_checksum(p: Seq<u8>, ihl: int) -> Seq<u8> {
    let z = zero_u16(p, 10);
    put_u16(z, 10, spec_checksum(z.subrange(0, ihl)))
}

/// `q` after the transport checksum at offset `field` of the segment starting at
/// `ihl` has been recomputed, with the given pseudo-header addresses.
pub open spec fn with_l4_checksum(
    q: Seq<u8>,
    ihl: int,
    field: int,
    is_tcp: bool,
    src: Seq<u8>,
    dst: Seq<u8>,
) -> Seq<u8> {
    let z = zero_u16(q, ihl + field);
    let seg = z.subrange(ihl, z.len() as int);
    put_u16(
        z,
        ihl + field,
        if is_tcp {
            spec_tcp_checksum(src, dst, seg)
        } else {
            spec_udp_checksum(src, dst, seg)
        },
    )
}

/// What `recalculate_checksums` does to the bytes `p`, and what it returns.
pub open spec fn spec_recalculate(p: Seq<u8>) -> (Seq<u8>, bool) {
    if p.len() < 20 || p[0] / 16 != 4 || p.len() < spec_ihl(p) {
        (p, false)
    } else {
        let ihl = spec_ihl(p);
        let q = with_ip_checksum(p, ihl);
        let src = p.subrange(12, 16);
        let dst = p.subrange(16, 20);
        if p[9] == 6 && p.len() >= ihl + 20 {
            (with_l4_checksum(q, ihl, 16, true, src, dst), true)
        } else if p[9] == 17 && p.len() >= ihl + 8 {
            (with_l4_checksum(q, ihl, 6, false, src, dst), true)
        } else {
            (q, false)
        }
    }
}

/// Recomputes, in place, the IPv4 header checksum of `ip_packet` and, for TCP
/// and UDP, the transport checksum. Returns `true` when a transport checksum was
/// recomputed; the header checksum is recomputed whenever the packet is IPv4
/// with a header that fits, even when `false` is returned.
pub fn recalculate_checksums(ip_packet: &mut [u8]) -> (ok: bool)
    ensures
        (final(ip_packet)@, ok) == spec_recalculate(old(ip_packet)@),
{
    let ghost p = ip_packet@;
    if ip_packet.len() < 20 || (ip_packet[0] >> 4) != 4 {
        proof {
            let b = p[0];
            assert((b >> 4) == b / 16) by (bit_vector);
        }
        return false;
    }
    proof {
        let b = p[0];
        assert((b >> 4) == b / 16 && (b & 0x0F) == b % 16) by (bit_vector);
    }
    let ihl = ((ip_packet[0] & 0x0F) as usize) * 4;
    if ip_packet.len() < ihl {
        return false;
    }
    let proto = ip_packet[9];
    let src_ip: [u8; 4] = [ip_packet[12], ip_packet[13], ip_packet[14], ip_packet[15]];
    let dst_ip: [u8; 4] = [ip_packet[16], ip_packet[17], ip_packet[18], ip_packet[19]];
    assert(src_ip@ =~= p.subrange(12, 16));
    assert(dst_ip@ =~= p.subrange(16, 20));

    ip_packet[10] = 0;
    ip_packet[11] = 0;
    assert(ip_packet@ =~= zero_u16(p, 10));
    let ip_csum = compute_ip_checksum(&ip_packet[0..ihl]);
    proof {
        let h = ip_packet@.subrange(0, ihl as int);
        if ihl > 0 {
            assert(h[0] == p[0]);
            assert(h.subrange(0, ihl as int) =~= h);
        }
    }
    let ipb = u16_to_be(ip_csum);
    ip_packet[10] = ipb[0];
    ip_packet[11] = ipb[1];
    let ghost q = ip_packet@;
    assert(q =~= with_ip_checksum(p, ihl as int));

    if proto == 6 && ip_packet.len() >= ihl + 20 {
        let off = ihl;
        ip_packet[off + 16] = 0;
        ip_packet[off + 17] = 0;
        let n = ip_packet.len();
        let tcp_csum = compute_tcp_checksum(&src_ip, &dst_ip, &ip_packet[off..n]);
        let tb = u16_to_be(tcp_csum);
        ip_packet[off + 16] = tb[0];
        ip_packet[off + 17] = tb[1];
        assert(ip_packet@ =~= with_l4_checksum(q, ihl as int, 16, true, src_ip@, dst_ip@));
        true
    } else if proto == 17 && ip_packet.len() >= ihl + 8 {
        let off = ihl;
        ip_packet[off + 6] = 0;
        ip_packet[off + 7] = 0;
        let n = ip_packet.len();
        let udp_csum = compute_udp_checksum(&src_ip, &dst_ip, &ip_packet[off..n]);
        let ub = u16_to_be(udp_csum);
        ip_packet[off + 6] = ub[0];
        ip_packet[off + 7] = ub[1];
        assert(ip_packet@ =~= with_l4_checksum(q, ihl as int, 6, false, src_ip@, dst_ip@));
        true
    } else {
        false
    }
}

/// When the checksum of a sum comes out as zero, adding 0xFFFF (its UDP
/// encoding) to the sum still yields a sum whose complement is zero.
proof fn lemma_complement_of_udp_zero(s: int)
    requires
        0 <= s,
        s + 65535 < modulus32(),
        ones_complement(s % modulus32()) == 0,
    ensures
        ones_complement((s + 65535) % modulus32()) == 0,
{
    lemma_fold_carries(s);
    assert(s % modulus32() == s);
    assert(fold_carries(s) == 65535);
    let t = s + 65535;
    assert(t % modulus32() == t);
    lemma_fold_carries(t);
    assert(t % 65535 == 0) by {
        vstd::arithmetic::div_mod::lemma_add_mod_noop(s, 65535, 65535);
    }
    assert(fold_carries(t) == 65535);
}

/// The segment sum of a packet whose length IPv4 allows stays far below 2^32.
proof fn lemma_segment_sum_small(seg: Seq<u8>)
    requires
        seg.len() <= 65535,
    ensures
        0 <= word_sum(seg) <= 65535 * 32768,
{
    lemma_sum_words_bounds(seg, num_words(seg));
}

/// The transport checksum written by `recalculate_checksums` makes the checksum
/// over the pseudo-header and the segment (as it now stands) come out as zero.
proof fn lemma_l4_verifies(q: Seq<u8>, ihl: int, field: int, is_tcp: bool, src: Seq<u8>, dst: Seq<u8>)
    requires
        0 <= ihl,
        field == 16 || field == 6,
        ihl + field + 2 <= q.len() <= 65535,
        src.len() == 4,
        dst.len() == 4,
    ensures
        ({
            let r = with_l4_checksum(q, ihl, field, is_tcp, src, dst);
            spec_l4_checksum(if is_tcp { 6u8 } else { 17u8 }, src, dst, r.subrange(ihl, r.len() as int)) == 0
        }),
{
    let proto: u8 = if is_tcp { 6u8 } else { 17u8 };
    let z = zero_u16(q, ihl + field);
    let seg = z.subrange(ihl, z.len() as int);
    let raw = spec_l4_checksum(proto, src, dst, seg);
    let c: u16 = if is_tcp { spec_tcp_checksum(src, dst, seg) } else { spec_udp_checksum(src, dst, seg) };
    let r = with_l4_checksum(q, ihl, field, is_tcp, src, dst);
    assert(r == put_u16(z, ihl + field, c));
    let rseg = r.subrange(ihl, r.len() as int);
    assert(rseg =~= put_u16(seg, field, c));
    lemma_word_sum_insert(seg, field, c);
    lemma_segment_sum_small(seg);
    let ps = pseudo_header_sum(proto, src, dst, seg.len() as int);
    assert(0 <= ps <= 4 * 65535 + 17 + 65535);
    let total = ps + word_sum(seg);
    assert(raw == ones_complement(total % modulus32()));
    assert(word_sum(rseg) == word_sum(seg) + c);
    assert(rseg.len() == seg.len());
    assert(spec_l4_checksum(proto, src, dst, rseg) == ones_complement((total + c) % modulus32()));
    if is_tcp || raw != 0 {
        assert(c == ones_complement(total % modulus32()));
        lemma_complement_of_checked_sum(total);
    } else {
        assert(c == 65535);
        lemma_complement_of_udp_zero(total);
    }
}

/// After `recalculate_checksums` has rewritten the checksums of an IPv4 packet
/// with a header of at least 20 bytes and a length that IPv4 allows, a
/// receiver's checks pass: the checksum over the header is zero, and so is the
/// TCP or UDP checksum over the pseudo-header and the segment.
pub proof fn lemma_recalculated_checksums_verify(p: Seq<u8>)
    requires
        spec_recalculate(p).1,
        spec_ihl(p) >= 20,
        p.len() <= 65535,
    ensures
        ({
            let q = spec_recalculate(p).0;
            let ihl = spec_ihl(p);
            &&& q.len() == p.len()
            &&& spec_checksum(q.subrange(0, ihl)) == 0
            &&& p[9] == 6 ==> spec_tcp_checksum(
                q.subrange(12, 16),
                q.subrange(16, 20),
                q.subrange(ihl, q.len() as int),
            ) == 0
            &&& p[9] == 17 ==> spec_l4_checksum(
                17,
                q.subrange(12, 16),
                q.subrange(16, 20),
                q.subrange(ihl, q.len() as int),
            ) == 0
        }),
{
    let ihl = spec_ihl(p);
    let z = zero_u16(p, 10);
    let h = z.subrange(0, ihl);
    let c = spec_checksum(h);
    let q1 = with_ip_checksum(p, ihl);
    assert(q1 == put_u16(z, 10, c));
    let src = p.subrange(12, 16);
    let dst = p.subrange(16, 20);
    let field: int = if p[9] == 6 { 16 } else { 6 };
    let is_tcp = p[9] == 6;
    let q = spec_recalculate(p).0;
    assert(q == with_l4_checksum(q1, ihl, field, is_tcp, src, dst));
    // The header part of the result is the zeroed header with its checksum inserted.
    assert(q.subrange(0, ihl) =~= put_u16(h, 10, c));
    lemma_word_sum_insert(h, 10, c);
    lemma_sum_words_bounds(h, num_words(h));
    lemma_complement_of_checked_sum(word_sum(h));
    // The addresses are untouched.
    assert(q.subrange(12, 16) =~= src);
    assert(q.subrange(16, 20) =~= dst);
    lemma_l4_verifies(q1, ihl, field, is_tcp, src, dst);
}

/// Recomputing the checksums of a packet with a header of at least 20 bytes
/// leaves its length and its source and destination addresses as they were.
pub proof fn lemma_recalculate_keeps_addresses(p: Seq<u8>)
    requires
        p.len() >= 20 ==> spec_ihl(p) >= 20,
    ensures
        spec_recalculate(p).0.len() == p.len(),
        p.len() >= 20 ==> spec_recalculate(p).0.subrange(12, 20) == p.subrange(12, 20),
{
    if p.len() >= 20 {
        assert(spec_recalculate(p).0.subrange(12, 20) =~= p.subrange(12, 20));
    }
}

/// Recomputing the checksums a second time changes nothing, for a packet
/// with a header of at least 20 bytes: the second call writes the same
/// checksums and returns the same result.
pub proof fn lemma_recalculate_idempotent(p: Seq<u8>)
    requires
        p.len() >= 20 ==> spec_ihl(p) >= 20,
    ensures
        spec_recalculate(spec_recalculate(p).0) == spec_recalculate(p),
{
    let q = spec_recalculate(p).0;
    if p.len() >= 20 && p[0] / 16 == 4 && p.len() >= spec_ihl(p) {
        let ihl = spec_ihl(p);
        let z = zero_u16(p, 10);
        let q1 = with_ip_checksum(p, ihl);
        assert(zero_u16(q1, 10) =~= z);
        assert(q[0] == p[0] && q[9] == p[9] && q.len() == p.len());
        let src = p.subrange(12, 16);
        let dst = p.subrange(16, 20);
        if (p[9] == 6 && p.len() >= ihl + 20) || (p[9] == 17 && p.len() >= ihl + 8) {
            let field: int = if p[9] == 6 { 16 } else { 6 };
            let is_tcp = p[9] == 6;
            assert(q == with_l4_checksum(q1, ihl, field, is_tcp, src, dst));
            assert(q.subrange(12, 16) =~= src);
            assert(q.subrange(16, 20) =~= dst);
            let zq = zero_u16(q, 10);
            assert(zq.subrange(0, ihl) =~= z.subrange(0, ihl));
            let r1 = with_ip_checksum(q, ihl);
            assert(r1 =~= put_u16(zero_u16(q, 10), 10, spec_checksum(z.subrange(0, ihl))));
            assert(zero_u16(r1, ihl + field) =~= zero_u16(q1, ihl + field));
            assert(with_l4_checksum(r1, ihl, field, is_tcp, src, dst) =~= q);
        } else {
            assert(q == q1);
            assert(with_ip_checksum(q, ihl) =~= q1);
        }
    }
}

/// Over a first part of even length, the words of a concatenation are the
/// words of the first part.
proof fn lemma_sum_words_prefix(a: Seq<u8>, b: Seq<u8>, n: nat)
    requires
        a.len() % 2 == 0,
        n <= a.len() / 2,
    ensures
        sum_words(a + b, n) == sum_words(a, n),
    decreases n,
{
    if n > 0 {
        lemma_sum_words_prefix(a, b, (n - 1) as nat);
        let k = n - 1;
        assert((a + b)[2 * k] == a[2 * k]);
        assert((a + b)[2 * k + 1] == a[2 * k + 1]);
    }
}

/// Past a first part of even length, the words of a concatenation are the
/// words of the second part.
proof fn lemma_sum_words_suffix(a: Seq<u8>, b: Seq<u8>, m: nat)
    requires
        a.len() % 2 == 0,
        m <= num_words(b),
    ensures
        sum_words(a + b, (a.len() / 2 + m) as nat) == sum_words(a, (a.len() / 2) as nat) + sum_words(b, m),
    decreases m,
{
    if m == 0 {
        lemma_sum_words_prefix(a, b, (a.len() / 2) as nat);
    } else {
        lemma_sum_words_suffix(a, b, (m - 1) as nat);
        let k = a.len() / 2 + m - 1;
        let j = m - 1;
        assert(2 * k == a.len() + 2 * j);
        assert((a + b)[2 * k] == b[2 * j]);
        if 2 * j + 1 < b.len() {
            assert((a + b)[2 * k + 1] == b[2 * j + 1]);
        }
        assert(word_at(a + b, k) == word_at(b, j));
    }
}

/// The word sum of a concatenation whose first part has even length is the
/// sum of the parts' word sums.
pub proof fn lemma_word_sum_concat(a: Seq<u8>, b: Seq<u8>)
    requires
        a.len() % 2 == 0,
    ensures
        word_sum(a + b) == word_sum(a) + word_sum(b),
{
    lemma_sum_words_suffix(a, b, num_words(b));
    assert(num_words(a + b) == a.len() / 2 + num_words(b));
    assert(num_words(a) == a.len() / 2);
}

/// The 12-byte pseudo-header that precedes a TCP or UDP segment of length
/// `len` in its checksum: source address, destination address, a zero byte,
/// the protocol number and the length as a 16-bit big-endian number.
pub open spec fn pseudo_header_bytes(proto: u8, src: Seq<u8>, dst: Seq<u8>, len: u16) -> Seq<u8> {
    src + dst + seq![0u8, proto] + be16_bytes(len)
}

/// The TCP and UDP checksums are the Internet checksum over the pseudo-header
/// (with both addresses, the protocol number and the segment length) followed
/// by the segment, UDP sending a computed zero as 0xFFFF: the RFC 793 and
/// RFC 768 definitions. In particular both protocols sum the same addresses.
pub proof fn lemma_l4_checksum_over_pseudo_header(src: Seq<u8>, dst: Seq<u8>, seg: Seq<u8>)
    requires
        src.len() == 4,
        dst.len() == 4,
        seg.len() < 65536,
    ensures
        spec_tcp_checksum(src, dst, seg) == spec_checksum(
            pseudo_header_bytes(6, src, dst, seg.len() as u16) + seg,
        ),
        spec_udp_checksum(src, dst, seg) == (if spec_checksum(
            pseudo_header_bytes(17, src, dst, seg.len() as u16) + seg,
        ) == 0 {
            0xFFFFu16
        } else {
            spec_checksum(pseudo_header_bytes(17, src, dst, seg.len() as u16) + seg)
        }),
{
    let len = seg.len() as u16;
    lemma_be16_roundtrip(len);
    assert forall|proto: u8| word_sum(#[trigger] pseudo_header_bytes(proto, src, dst, len)) == be16_value(
        src[0],
        src[1],
    ) + be16_value(src[2], src[3]) + be16_value(dst[0], dst[1]) + be16_value(dst[2], dst[3]) + proto
        + len by {
        let ph = pseudo_header_bytes(proto, src, dst, len);
        assert(ph.len() == 12);
        assert(num_words(ph) == 6);
        reveal_with_fuel(sum_words, 7);
        assert(word_at(ph, 0) == be16_value(src[0], src[1]));
        assert(word_at(ph, 1) == be16_value(src[2], src[3]));
        assert(word_at(ph, 2) == be16_value(dst[0], dst[1]));
        assert(word_at(ph, 3) == be16_value(dst[2], dst[3]));
        assert(word_at(ph, 4) == proto);
        assert(word_at(ph, 5) == be16_value(be16_bytes(len)[0], be16_bytes(len)[1]));
    }
    lemma_word_sum_concat(pseudo_header_bytes(6, src, dst, len), seg);
    lemma_word_sum_concat(pseudo_header_bytes(17, src, dst, len), seg);
    assert((seg.len() as int) % modulus32() == seg.len() as int);
}

} // verus!
