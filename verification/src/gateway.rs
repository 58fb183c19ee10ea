//! The decisions of the tunnel's two ends: framing, the gateway's handling of
//! uplink datagrams, and the client's handling of downlink datagrams.
//!
//! Sockets, the TUN device, timers and clocks stay with the caller: these
//! functions take what was received and return what is to be sent.
use vstd::prelude::*;

use crate::deduplicator::{lemma_repeat_dropped, reset_view, spec_process, DedupView, Deduplicator};
use crate::protocol::{
    flag_set, lemma_decode_encode, lemma_new_flags, spec_decode, spec_header_bytes, GameTunnelHeader,
    FLAG_IS_ACK, FLAG_IS_DUP, FLAG_IS_PROBE, HEADER_LEN,
};
use crate::tunnel_nat::{spec_inbound, NatView, TunnelNat};

verus! {

/// The largest datagram either end builds or receives.
pub const MAX_DATAGRAM: usize = 65535;

/// A UDP peer address, compared field by field as a socket address is.
#[derive(Debug, Clone, Copy, PartialEq, Eq, Structural)]
pub struct PeerAddr {
    /// Whether the address is IPv6.
    pub is_v6: bool,
    /// The address bits (an IPv4 address in the low 32 bits).
    pub ip: u128,
    pub port: u16,
    /// IPv6 flow information (zero for IPv4).
    pub flowinfo: u32,
    /// IPv6 scope id (zero for IPv4).
    pub scope_id: u32,
}

/// The client addresses last seen on each of the two channels.
#[derive(Debug, Clone, Copy)]
pub struct ClientEndpoints {
    pub ch1: Option<PeerAddr>,
    pub ch2: Option<PeerAddr>,
}

/// What the gateway does with an uplink datagram.
pub enum UplinkAction {
    /// Nothing is sent.
    Ignore,
    /// The probe acknowledgement to send back to the peer.
    ReplyAck(Vec<u8>),
    /// The payload to write to the TUN device.
    Forward(Vec<u8>),
}

/// What the client does with a downlink datagram.
pub enum DownlinkEvent {
    /// Nothing to deliver.
    Ignore,
    /// A probe acknowledgement carrying the timestamp of the probe.
    ProbeAck(u32),
    /// The translated IP packet to hand to the local network stack.
    Deliver(Vec<u8>),
}

/// What the gateway does with an uplink datagram, with the bytes as values.
pub enum UplinkOutcome {
    Ignore,
    ReplyAck(Seq<u8>),
    Forward(Seq<u8>),
}

/// What the client does with a downlink datagram, with the bytes as values.
pub enum DownlinkOutcome {
    Ignore,
    ProbeAck(u32),
    Deliver(Seq<u8>),
}

impl UplinkAction {
    /// The action with its bytes as values.
    pub open spec fn outcome(self) -> UplinkOutcome {
        match self {
            UplinkAction::Ignore => UplinkOutcome::Ignore,
            UplinkAction::ReplyAck(v) => UplinkOutcome::ReplyAck(v@),
            UplinkAction::Forward(v) => UplinkOutcome::Forward(v@),
        }
    }
}

impl DownlinkEvent {
    /// The event with its bytes as values.
    pub open spec fn outcome(self) -> DownlinkOutcome {
        match self {
            DownlinkEvent::Ignore => DownlinkOutcome::Ignore,
            DownlinkEvent::ProbeAck(ts) => DownlinkOutcome::ProbeAck(ts),
            DownlinkEvent::Deliver(v) => DownlinkOutcome::Deliver(v@),
        }
    }
}

impl ClientEndpoints {
    /// No client seen on either channel.
    pub fn new() -> (e: Self)
        ensures
            e.ch1 is None,
            e.ch2 is None,
    {
        ClientEndpoints { ch1: None, ch2: None }
    }
}

/// A GameTunnel datagram: the header followed by the payload.
pub fn frame_packet(header: &GameTunnelHeader, payload: &[u8]) -> (frame: Vec<u8>)
    requires
        payload@.len() + 12 <= usize::MAX,
    ensures
        frame@ == spec_header_bytes(*header) + payload@,
{
    let mut frame: Vec<u8> = vec![0u8; HEADER_LEN];
    let r = header.encode(frame.as_mut_slice());
    assert(r is Ok);
    let mut i: usize = 0;
    while i < payload.len()
        invariant
            i <= payload@.len(),
            frame@ == spec_header_bytes(*header) + payload@.subrange(0, i as int),
        decreases payload@.len() - i,
    {
        frame.push(payload[i]);
        i = i + 1;
        assert(frame@ =~= spec_header_bytes(*header) + payload@.subrange(0, i as int));
    }
    assert(payload@.subrange(0, payload@.len() as int) =~= payload@);
    frame
}

/// `h` with the ACK flag set.
pub open spec fn acked(h: GameTunnelHeader) -> GameTunnelHeader {
    GameTunnelHeader { flags: h.flags | FLAG_IS_ACK, ..h }
}

/// `h` with the DUP flag set.
pub open spec fn marked_dup(h: GameTunnelHeader) -> GameTunnelHeader {
    GameTunnelHeader { flags: h.flags | FLAG_IS_DUP, ..h }
}

/// The client endpoints after a datagram from `peer` on channel `channel_id`
/// (1 is the first channel; any other id the second).
pub open spec fn spec_update_endpoints(c: ClientEndpoints, peer: PeerAddr, channel_id: u8) -> ClientEndpoints {
    if channel_id == 1 {
        ClientEndpoints { ch1: Some(peer), ..c }
    } else {
        ClientEndpoints { ch2: Some(peer), ..c }
    }
}

/// Whether a datagram from `peer` on channel `channel_id` changes the client
/// address of the first channel, which restarts the deduplicator.
pub open spec fn resets_dedup(c: ClientEndpoints, peer: PeerAddr, channel_id: u8) -> bool {
    channel_id == 1 && c.ch1 != Some(peer)
}

/// The deduplicator state, client endpoints and outcome after the gateway
/// handles the uplink datagram `data` from `peer` on channel `channel_id`.
pub open spec fn spec_handle_uplink(
    d: DedupView,
    c: ClientEndpoints,
    peer: PeerAddr,
    data: Seq<u8>,
    channel_id: u8,
) -> (DedupView, ClientEndpoints, UplinkOutcome) {
    if data.len() < 12 || spec_decode(data) is Err {
        (d, c, UplinkOutcome::Ignore)
    } else {
        let h = spec_decode(data)->Ok_0;
        let d1 = if resets_dedup(c, peer, channel_id) {
            reset_view()
        } else {
            d
        };
        let c1 = spec_update_endpoints(c, peer, channel_id);
        if flag_set(h.flags, FLAG_IS_PROBE) {
            (d1, c1, UplinkOutcome::ReplyAck(spec_header_bytes(acked(h))))
        } else {
            let (d2, accepted) = spec_process(d1, h.sequence);
            if accepted && data.len() > 12 {
                (d2, c1, UplinkOutcome::Forward(data.subrange(12, data.len() as int)))
            } else {
                (d2, c1, UplinkOutcome::Ignore)
            }
        }
    }
}

/// Handles an uplink datagram `data` from `peer` on channel `channel_id`.
///
/// Datagrams shorter than a header or without the magic number are ignored.
/// Otherwise the peer becomes the client address of the channel (a new address
/// on the first channel restarts the deduplicator). A probe is answered with
/// its own header with the ACK flag set. Any other datagram goes through the
/// deduplicator, and its payload, if accepted and not empty, is forwarded.
pub fn handle_uplink_packet(
    dedup: &mut Deduplicator,
    clients: &mut ClientEndpoints,
    peer_addr: PeerAddr,
    data: &[u8],
    channel_id: u8,
) -> (r: UplinkAction)
    ensures
        (final(dedup)@, *final(clients), r.outcome()) == spec_handle_uplink(
            old(dedup)@,
            *old(clients),
            peer_addr,
            data@,
            channel_id,
        ),
{
    if data.len() < HEADER_LEN {
        return UplinkAction::Ignore;
    }
    let header = match GameTunnelHeader::decode(data) {
        Ok(h) => h,
        Err(_) => return UplinkAction::Ignore,
    };
    if channel_id == 1 {
        let changed = match clients.ch1 {
            Some(p) => p != peer_addr,
            None => true,
        };
        if changed {
            clients.ch1 = Some(peer_addr);
            dedup.reset();
        }
    } else {
        let changed = match clients.ch2 {
            Some(p) => p != peer_addr,
            None => true,
        };
        if changed {
            clients.ch2 = Some(peer_addr);
        }
    }
    if header.is_probe() {
        let mut ack_header = header;
        ack_header.set_ack();
        let mut ack_buf: Vec<u8> = vec![0u8; HEADER_LEN];
        let _ = ack_header.encode(ack_buf.as_mut_slice());
        assert(ack_buf@ =~= spec_header_bytes(acked(header)));
        return UplinkAction::ReplyAck(ack_buf);
    }
    let accepted = dedup.process_packet(header.sequence);
    if accepted && data.len() > HEADER_LEN {
        let payload = vstd::slice::slice_to_vec(&data[HEADER_LEN..data.len()]);
        UplinkAction::Forward(payload)
    } else {
        UplinkAction::Ignore
    }
}

/// The two downlink datagrams for an IP packet read from the TUN device: the
/// one for the first channel, and the copy for the second channel, which
/// differs only in having the DUP flag set. Nothing when the datagram would
/// exceed 65535 bytes.
pub fn downlink_frames(sequence: u32, timestamp: u32, ip_packet: &[u8]) -> (r: Option<
    (Vec<u8>, Vec<u8>),
>)
    ensures
        ip_packet@.len() + 12 > 65535 ==> r is None,
        ip_packet@.len() + 12 <= 65535 ==> (r matches Some((f1, f2)) && {
            let h = GameTunnelHeader::new_spec(sequence, timestamp, false, false);
            &&& f1@ == spec_header_bytes(h) + ip_packet@
            &&& f2@ == spec_header_bytes(marked_dup(h)) + ip_packet@
        }),
{
    if ip_packet.len() > MAX_DATAGRAM - HEADER_LEN {
        return None;
    }
    let header = GameTunnelHeader::new(sequence, timestamp, false, false);
    let first = frame_packet(&header, ip_packet);
    let mut dup_header = header;
    dup_header.flags = dup_header.flags | FLAG_IS_DUP;
    let second = frame_packet(&dup_header, ip_packet);
    Some((first, second))
}

/// Numbers the datagrams that one end sends: the first gets 1, each next one
/// the following number, wrapping from 4294967295 to 0.
pub struct SequenceCounter {
    next: u32,
}

/// The sequence number of the `i`-th datagram (counting from 1).
pub open spec fn nth_sequence(i: nat) -> u32 {
    (i % 0x1_0000_0000) as u32
}

impl SequenceCounter {
    /// The number the next datagram gets.
    pub closed spec fn next_spec(&self) -> u32 {
        self.next
    }

    /// A counter whose first number is 1.
    pub fn new() -> (c: Self)
        ensures
            c.next_spec() == nth_sequence(1),
    {
        SequenceCounter { next: 1 }
    }

    /// The number for the next datagram; the counter moves on by one,
    /// wrapping.
    pub fn take(&mut self) -> (s: u32)
        ensures
            s == old(self).next_spec(),
            final(self).next_spec() == ((old(self).next_spec() + 1) % 0x1_0000_0000) as u32,
    {
        let s = self.next;
        self.next = self.next.wrapping_add(1);
        s
    }
}

/// Numbering goes on from one datagram to the next: a counter that gives the
/// `i`-th datagram its number gives the following one the number of the
/// `i + 1`-th. With `SequenceCounter::new` giving the first datagram 1, the
/// `i`-th datagram sent gets `i` (modulo 2^32).
pub proof fn lemma_sequence_steps(i: nat)
    ensures
        ((nth_sequence(i) + 1) % 0x1_0000_0000) as u32 == nth_sequence(i + 1),
{
    vstd::arithmetic::div_mod::lemma_add_mod_noop_right(1, i as int, 0x1_0000_0000);
}

/// Numbers and frames the next outbound packet: its sequence number comes
/// from `counter`, and the two uplink datagrams carry it with the timestamp
/// `ts`, the second marked DUP.
pub fn next_uplink(counter: &mut SequenceCounter, ts: u32, packet: &[u8]) -> (r: (u32, Vec<u8>, Vec<u8>))
    requires
        packet@.len() + 12 <= 65535,
    ensures
        r.0 == old(counter).next_spec(),
        final(counter).next_spec() == ((old(counter).next_spec() + 1) % 0x1_0000_0000) as u32,
        r.1@ == spec_header_bytes(GameTunnelHeader::new_spec(r.0, ts, false, false)) + packet@,
        r.2@ == spec_header_bytes(GameTunnelHeader::new_spec(r.0, ts, true, false)) + packet@,
{
    let seq = counter.take();
    let (a, b) = uplink_frames(seq, ts, packet);
    (seq, a, b)
}

/// Numbers and frames the next IP packet from the TUN device: its sequence
/// number comes from `counter` (also when the packet is too large to send),
/// and the two downlink datagrams are those of `downlink_frames`.
pub fn next_downlink(counter: &mut SequenceCounter, ts: u32, ip_packet: &[u8]) -> (r: (
    u32,
    Option<(Vec<u8>, Vec<u8>)>,
))
    ensures
        r.0 == old(counter).next_spec(),
        final(counter).next_spec() == ((old(counter).next_spec() + 1) % 0x1_0000_0000) as u32,
        ip_packet@.len() + 12 > 65535 ==> r.1 is None,
        ip_packet@.len() + 12 <= 65535 ==> (r.1 matches Some((f1, f2)) && {
            let h = GameTunnelHeader::new_spec(r.0, ts, false, false);
            &&& f1@ == spec_header_bytes(h) + ip_packet@
            &&& f2@ == spec_header_bytes(marked_dup(h)) + ip_packet@
        }),
{
    let seq = counter.take();
    (seq, downlink_frames(seq, ts, ip_packet))
}

/// The next latency probe: a header with the PROBE flag, its sequence number
/// from `counter` and the timestamp `ts`.
pub fn next_probe(counter: &mut SequenceCounter, ts: u32) -> (r: Vec<u8>)
    ensures
        final(counter).next_spec() == ((old(counter).next_spec() + 1) % 0x1_0000_0000) as u32,
        r@ == spec_header_bytes(GameTunnelHeader::new_spec(old(counter).next_spec(), ts, false, true)),
{
    let seq = counter.take();
    let h = GameTunnelHeader::new(seq, ts, false, true);
    let mut buf: Vec<u8> = vec![0u8; HEADER_LEN];
    let _ = h.encode(buf.as_mut_slice());
    assert(buf@ =~= spec_header_bytes(GameTunnelHeader::new_spec(seq, ts, false, true)));
    buf
}

/// The two uplink datagrams for an outbound packet: the primary one and the
/// duplicate (DUP flag set) for the second path, both with the given sequence
/// number and timestamp.
pub fn uplink_frames(sequence: u32, timestamp: u32, packet: &[u8]) -> (r: (Vec<u8>, Vec<u8>))
    requires
        packet@.len() + 12 <= 65535,
    ensures
        r.0@ == spec_header_bytes(GameTunnelHeader::new_spec(sequence, timestamp, false, false))
            + packet@,
        r.1@ == spec_header_bytes(GameTunnelHeader::new_spec(sequence, timestamp, true, false))
            + packet@,
{
    let h1 = GameTunnelHeader::new(sequence, timestamp, false, false);
    let h2 = GameTunnelHeader::new(sequence, timestamp, true, false);
    (frame_packet(&h1, packet), frame_packet(&h2, packet))
}

/// The deduplicator state and outcome after the client handles the downlink
/// datagram `data`.
pub open spec fn spec_handle_downlink(d: DedupView, n: NatView, data: Seq<u8>) -> (DedupView, DownlinkOutcome) {
    if data.len() < 12 || spec_decode(data) is Err {
        (d, DownlinkOutcome::Ignore)
    } else {
        let h = spec_decode(data)->Ok_0;
        if flag_set(h.flags, FLAG_IS_ACK) {
            (d, DownlinkOutcome::ProbeAck(h.timestamp))
        } else if data.len() > 12 {
            let (d2, accepted) = spec_process(d, h.sequence);
            if accepted {
                (d2, DownlinkOutcome::Deliver(spec_inbound(n, data.subrange(12, data.len() as int)).0))
            } else {
                (d2, DownlinkOutcome::Ignore)
            }
        } else {
            (d, DownlinkOutcome::Ignore)
        }
    }
}

/// Handles a downlink datagram `data` at the client.
///
/// A datagram with a valid header and the ACK flag reports the timestamp of
/// the acknowledged probe. Any other datagram with a payload goes through the
/// deduplicator; an accepted payload is translated back to the client's
/// address and delivered. Everything else is ignored.
pub fn handle_downlink_datagram(dedup: &mut Deduplicator, translator: &TunnelNat, data: &[u8]) -> (r:
    DownlinkEvent)
    ensures
        (final(dedup)@, r.outcome()) == spec_handle_downlink(old(dedup)@, translator@, data@),
{
    if data.len() < HEADER_LEN {
        return DownlinkEvent::Ignore;
    }
    let h = match GameTunnelHeader::decode(data) {
        Ok(h) => h,
        Err(_) => return DownlinkEvent::Ignore,
    };
    if h.is_ack() {
        DownlinkEvent::ProbeAck(h.timestamp)
    } else if data.len() > HEADER_LEN {
        let accepted = dedup.process_packet(h.sequence);
        if accepted {
            let mut payload = vstd::slice::slice_to_vec(&data[HEADER_LEN..data.len()]);
            let _ = translator.translate_inbound(payload.as_mut_slice());
            DownlinkEvent::Deliver(payload)
        } else {
            DownlinkEvent::Ignore
        }
    } else {
        DownlinkEvent::Ignore
    }
}

/// The gateway's answer to a probe echoes it: decoding the acknowledgement
/// gives the probe's sequence number, timestamp, DUP and PROBE flags, with the
/// ACK flag set.
pub proof fn lemma_probe_ack_echoes(probe: GameTunnelHeader)
    ensures
        spec_decode(spec_header_bytes(acked(probe))) == Ok::<GameTunnelHeader, crate::protocol::ProtocolError>(
            acked(probe),
        ),
        acked(probe).sequence == probe.sequence,
        acked(probe).timestamp == probe.timestamp,
        flag_set(acked(probe).flags, FLAG_IS_ACK),
        flag_set(acked(probe).flags, FLAG_IS_PROBE) == flag_set(probe.flags, FLAG_IS_PROBE),
        flag_set(acked(probe).flags, FLAG_IS_DUP) == flag_set(probe.flags, FLAG_IS_DUP),
{
    lemma_decode_encode(acked(probe), Seq::empty());
    assert(spec_header_bytes(acked(probe)) + Seq::<u8>::empty() =~= spec_header_bytes(acked(probe)));
    let f = probe.flags;
    assert((f | 4u8) & 4u8 != 0u8) by (bit_vector);
    assert(((f | 4u8) & 1u8 != 0u8) == (f & 1u8 != 0u8)) by (bit_vector);
    assert(((f | 4u8) & 2u8 != 0u8) == (f & 2u8 != 0u8)) by (bit_vector);
}

/// Of two datagrams with the same sequence number, neither a probe, the
/// second is not forwarded by the gateway, whatever became of the first,
/// unless it restarts the deduplicator (it comes on the first channel from a
/// new client address).
pub proof fn lemma_second_copy_not_forwarded(
    d: DedupView,
    c: ClientEndpoints,
    peer1: PeerAddr,
    ch1: u8,
    data1: Seq<u8>,
    peer2: PeerAddr,
    ch2: u8,
    data2: Seq<u8>,
)
    requires
        d.window.len() == 1024,
        spec_decode(data1) is Ok,
        spec_decode(data2) is Ok,
        spec_decode(data1)->Ok_0.sequence == spec_decode(data2)->Ok_0.sequence,
        !flag_set(spec_decode(data1)->Ok_0.flags, FLAG_IS_PROBE),
        !flag_set(spec_decode(data2)->Ok_0.flags, FLAG_IS_PROBE),
        !resets_dedup(spec_handle_uplink(d, c, peer1, data1, ch1).1, peer2, ch2),
    ensures
        spec_handle_uplink(
            spec_handle_uplink(d, c, peer1, data1, ch1).0,
            spec_handle_uplink(d, c, peer1, data1, ch1).1,
            peer2,
            data2,
            ch2,
        ).2 == UplinkOutcome::Ignore,
{
    let d1 = if resets_dedup(c, peer1, ch1) {
        reset_view()
    } else {
        d
    };
    lemma_repeat_dropped(d1, spec_decode(data1)->Ok_0.sequence);
}

/// An outbound packet carried over the tunnel reaches the gateway intact and
/// once. The client sends it on the first channel and, marked DUP, on the
/// second: when its sequence number is fresh at the gateway, the first copy
/// to arrive forwards exactly the packet, and the other copy is not forwarded.
/// This holds in either order of arrival, provided the first channel's copy
/// comes from the client address the gateway already knows when it arrives
/// second.
pub proof fn lemma_uplink_delivered_once(
    d: DedupView,
    c: ClientEndpoints,
    peer1: PeerAddr,
    peer2: PeerAddr,
    seq: u32,
    ts: u32,
    p: Seq<u8>,
)
    requires
        d.window.len() == 1024,
        p.len() > 0,
    ensures
        ({
            let f1 = spec_header_bytes(GameTunnelHeader::new_spec(seq, ts, false, false)) + p;
            let f2 = spec_header_bytes(GameTunnelHeader::new_spec(seq, ts, true, false)) + p;
            let d1 = if resets_dedup(c, peer1, 1) {
                reset_view()
            } else {
                d
            };
            let first = spec_handle_uplink(d, c, peer1, f1, 1);
            &&& spec_process(d1, seq).1 ==> first.2 == UplinkOutcome::Forward(p)
            &&& spec_handle_uplink(first.0, first.1, peer2, f2, 2).2 == UplinkOutcome::Ignore
        }),
        ({
            let f1 = spec_header_bytes(GameTunnelHeader::new_spec(seq, ts, false, false)) + p;
            let f2 = spec_header_bytes(GameTunnelHeader::new_spec(seq, ts, true, false)) + p;
            let first = spec_handle_uplink(d, c, peer2, f2, 2);
            &&& spec_process(d, seq).1 ==> first.2 == UplinkOutcome::Forward(p)
            &&& c.ch1 == Some(peer1) ==> spec_handle_uplink(first.0, first.1, peer1, f1, 1).2
                == UplinkOutcome::Ignore
        }),
{
    let h1 = GameTunnelHeader::new_spec(seq, ts, false, false);
    let h2 = GameTunnelHeader::new_spec(seq, ts, true, false);
    let f1 = spec_header_bytes(h1) + p;
    let f2 = spec_header_bytes(h2) + p;
    lemma_decode_encode(h1, p);
    lemma_decode_encode(h2, p);
    lemma_new_flags(false, false);
    lemma_new_flags(true, false);
    assert(f1.subrange(12, f1.len() as int) =~= p);
    assert(f2.subrange(12, f2.len() as int) =~= p);
    let first = spec_handle_uplink(d, c, peer1, f1, 1);
    lemma_second_copy_not_forwarded(d, c, peer1, 1, f1, peer2, 2, f2);
    let first2 = spec_handle_uplink(d, c, peer2, f2, 2);
    if c.ch1 == Some(peer1) {
        assert(first2.1.ch1 == Some(peer1));
        lemma_second_copy_not_forwarded(d, c, peer2, 2, f2, peer1, 1, f1);
    }
}

/// A packet from the gateway reaches the client translated and once. The
/// gateway sends it on both channels, the second copy marked DUP: when its
/// sequence number is fresh at the client, the first copy to arrive delivers
/// the packet with its destination translated back to the client's address,
/// and the other copy is not delivered.
pub proof fn lemma_downlink_delivered_once(d: DedupView, n: NatView, seq: u32, ts: u32, ip_packet: Seq<u8>)
    requires
        d.window.len() == 1024,
        ip_packet.len() > 0,
        spec_process(d, seq).1,
    ensures
        ({
            let h = GameTunnelHeader::new_spec(seq, ts, false, false);
            let f1 = spec_header_bytes(h) + ip_packet;
            let f2 = spec_header_bytes(marked_dup(h)) + ip_packet;
            &&& spec_handle_downlink(d, n, f1).1 == DownlinkOutcome::Deliver(spec_inbound(n, ip_packet).0)
            &&& spec_handle_downlink(spec_handle_downlink(d, n, f1).0, n, f2).1 == DownlinkOutcome::Ignore
            &&& spec_handle_downlink(d, n, f2).1 == DownlinkOutcome::Deliver(spec_inbound(n, ip_packet).0)
            &&& spec_handle_downlink(spec_handle_downlink(d, n, f2).0, n, f1).1 == DownlinkOutcome::Ignore
        }),
{
    let h = GameTunnelHeader::new_spec(seq, ts, false, false);
    let f1 = spec_header_bytes(h) + ip_packet;
    let f2 = spec_header_bytes(marked_dup(h)) + ip_packet;
    lemma_decode_encode(h, ip_packet);
    lemma_decode_encode(marked_dup(h), ip_packet);
    lemma_new_flags(false, false);
    let fl = h.flags;
    assert(fl == 0u8);
    assert((0u8 | 1u8) & 4u8 == 0u8) by (bit_vector);
    assert(f1.subrange(12, f1.len() as int) =~= ip_packet);
    assert(f2.subrange(12, f2.len() as int) =~= ip_packet);
    lemma_repeat_dropped(d, seq);
}

} // verus!
