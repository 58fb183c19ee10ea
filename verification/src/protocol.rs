//! GameTunnel UDP wire format.
//!
//! Header layout (12 bytes, fixed):
//! - bytes 0..2  : magic number 0x4754 ("GT"), big-endian
//! - byte  2     : flags (bit 0: IS_DUP, bit 1: IS_PROBE, bit 2: IS_ACK)
//! - byte  3     : reserved
//! - bytes 4..8  : sequence number (u32, big-endian)
//! - bytes 8..12 : timestamp in milliseconds (u32, big-endian)
//! - bytes 12..  : payload (a raw IP packet)
use vstd::prelude::*;

use crate::bytes::{be16_value, be32_bytes, be32_value, lemma_be32_roundtrip, u32_to_be};
use vstd::string::StringExecFns;

verus! {

/// Magic number at the start of every GameTunnel header ("GT").
pub const MAGIC_NUMBER: u16 = 0x4754;

/// Length of the fixed GameTunnel header in bytes.
pub const HEADER_LEN: usize = 12;

/// Flag bit: the frame is the duplicate copy sent on the second path.
pub const FLAG_IS_DUP: u8 = 1;

/// Flag bit: the frame is a latency probe.
pub const FLAG_IS_PROBE: u8 = 2;

/// Flag bit: the frame acknowledges a probe.
pub const FLAG_IS_ACK: u8 = 4;

/// The decoded fields of a GameTunnel header.
#[derive(Debug, Clone, Copy, PartialEq, Eq, Structural)]
pub struct GameTunnelHeader {
    pub flags: u8,
    pub reserved: u8,
    pub sequence: u32,
    pub timestamp: u32,
}

/// Why a header could not be encoded or decoded.
#[derive(Debug, Clone, Copy, PartialEq, Eq, Structural)]
pub enum ProtocolError {
    /// The buffer is shorter than the 12-byte header.
    BufferTooShort,
    /// The first two bytes are not the magic number; carries the value found.
    InvalidMagic(u16),
}

/// Whether the bits of `mask` are set in `flags`.
pub open spec fn flag_set(flags: u8, mask: u8) -> bool {
    flags & mask != 0
}

/// The flags byte written by `GameTunnelHeader::new`.
pub open spec fn spec_new_flags(is_dup: bool, is_probe: bool) -> u8 {
    ((if is_dup { 1u8 } else { 0u8 }) + (if is_probe { 2u8 } else { 0u8 })) as u8
}

/// The 12 bytes that encode `h`.
pub open spec fn spec_header_bytes(h: GameTunnelHeader) -> Seq<u8> {
    seq![0x47u8, 0x54u8, h.flags, h.reserved] + be32_bytes(h.sequence) + be32_bytes(h.timestamp)
}

/// What decoding the bytes `b` yields.
pub open spec fn spec_decode(b: Seq<u8>) -> Result<GameTunnelHeader, ProtocolError> {
    if b.len() < 12 {
        Err(ProtocolError::BufferTooShort)
    } else if be16_value(b[0], b[1]) != 0x4754 {
        Err(ProtocolError::InvalidMagic(be16_value(b[0], b[1]) as u16))
    } else {
        Ok(
            GameTunnelHeader {
                flags: b[2],
                reserved: b[3],
                sequence: be32_value(b[4], b[5], b[6], b[7]) as u32,
                timestamp: be32_value(b[8], b[9], b[10], b[11]) as u32,
            },
        )
    }
}

/// A header built by `new` has the DUP and PROBE flags it was asked for, and
/// never the ACK flag.
pub proof fn lemma_new_flags(is_dup: bool, is_probe: bool)
    ensures
        flag_set(spec_new_flags(is_dup, is_probe), FLAG_IS_DUP) == is_dup,
        flag_set(spec_new_flags(is_dup, is_probe), FLAG_IS_PROBE) == is_probe,
        !flag_set(spec_new_flags(is_dup, is_probe), FLAG_IS_ACK),
{
    assert((0u8 & 1u8) == 0u8 && (0u8 & 2u8) == 0u8 && (0u8 & 4u8) == 0u8) by (bit_vector);
    assert((1u8 & 1u8) != 0u8 && (1u8 & 2u8) == 0u8 && (1u8 & 4u8) == 0u8) by (bit_vector);
    assert((2u8 & 1u8) == 0u8 && (2u8 & 2u8) != 0u8 && (2u8 & 4u8) == 0u8) by (bit_vector);
    assert((3u8 & 1u8) != 0u8 && (3u8 & 2u8) != 0u8 && (3u8 & 4u8) == 0u8) by (bit_vector);
}

impl GameTunnelHeader {
    /// The header that `new` builds.
    pub open spec fn new_spec(sequence: u32, timestamp: u32, is_dup: bool, is_probe: bool) -> Self {
        GameTunnelHeader { flags: spec_new_flags(is_dup, is_probe), reserved: 0, sequence, timestamp }
    }

    /// A header with the given sequence number and timestamp, the DUP and PROBE
    /// flags as requested, the ACK flag clear and a zero reserved byte.
    pub fn new(sequence: u32, timestamp: u32, is_dup: bool, is_probe: bool) -> (h: Self)
        ensures
            h == Self::new_spec(sequence, timestamp, is_dup, is_probe),
            h.flags == spec_new_flags(is_dup, is_probe),
            h.reserved == 0,
            h.sequence == sequence,
            h.timestamp == timestamp,
            flag_set(h.flags, FLAG_IS_DUP) == is_dup,
            flag_set(h.flags, FLAG_IS_PROBE) == is_probe,
            !flag_set(h.flags, FLAG_IS_ACK),
    {
        let mut flags = 0u8;
        if is_dup {
            flags = flags | FLAG_IS_DUP;
            assert(0u8 | 1u8 == 1u8) by (bit_vector);
        }
        if is_probe {
            let f = flags;
            flags = flags | FLAG_IS_PROBE;
            assert(f == 0u8 || f == 1u8 ==> (f | 2u8) == f + 2) by (bit_vector);
        }
        proof {
            lemma_new_flags(is_dup, is_probe);
        }
        GameTunnelHeader { flags, reserved: 0, sequence, timestamp }
    }

    /// Whether the DUP flag is set.
    pub fn is_dup(&self) -> (r: bool)
        ensures
            r == flag_set(self.flags, FLAG_IS_DUP),
    {
        (self.flags & FLAG_IS_DUP) != 0
    }

    /// Whether the PROBE flag is set.
    pub fn is_probe(&self) -> (r: bool)
        ensures
            r == flag_set(self.flags, FLAG_IS_PROBE),
    {
        (self.flags & FLAG_IS_PROBE) != 0
    }

    /// Whether the ACK flag is set.
    pub fn is_ack(&self) -> (r: bool)
        ensures
            r == flag_set(self.flags, FLAG_IS_ACK),
    {
        (self.flags & FLAG_IS_ACK) != 0
    }

    /// Sets the ACK flag and leaves every other field and flag as it was.
    pub fn set_ack(&mut self)
        ensures
            final(self).flags == old(self).flags | FLAG_IS_ACK,
            final(self).reserved == old(self).reserved,
            final(self).sequence == old(self).sequence,
            final(self).timestamp == old(self).timestamp,
            flag_set(final(self).flags, FLAG_IS_ACK),
            flag_set(final(self).flags, FLAG_IS_DUP) == flag_set(old(self).flags, FLAG_IS_DUP),
            flag_set(final(self).flags, FLAG_IS_PROBE) == flag_set(old(self).flags, FLAG_IS_PROBE),
    {
        let f = self.flags;
        self.flags = self.flags | FLAG_IS_ACK;
        assert((f | 4u8) & 4u8 != 0u8) by (bit_vector);
        assert(((f | 4u8) & 1u8 != 0u8) == (f & 1u8 != 0u8)) by (bit_vector);
        assert(((f | 4u8) & 2u8 != 0u8) == (f & 2u8 != 0u8)) by (bit_vector);
    }

    /// Writes the header into the first 12 bytes of `buf`; the rest of `buf` is
    /// left as it was. Fails, leaving `buf` untouched, when `buf` is shorter than
    /// the header.
    pub fn encode(&self, buf: &mut [u8]) -> (r: Result<(), ProtocolError>)
        ensures
            old(buf)@.len() < 12 ==> r == Err::<(), ProtocolError>(ProtocolError::BufferTooShort)
                && final(buf)@ == old(buf)@,
            old(buf)@.len() >= 12 ==> r is Ok && final(buf)@ == spec_header_bytes(*self)
                + old(buf)@.subrange(12, old(buf)@.len() as int),
    {
        if buf.len() < HEADER_LEN {
            return Err(ProtocolError::BufferTooShort);
        }
        let seq = u32_to_be(self.sequence);
        let ts = u32_to_be(self.timestamp);
        buf[0] = 0x47;
        buf[1] = 0x54;
        buf[2] = self.flags;
        buf[3] = self.reserved;
        buf[4] = seq[0];
        buf[5] = seq[1];
        buf[6] = seq[2];
        buf[7] = seq[3];
        buf[8] = ts[0];
        buf[9] = ts[1];
        buf[10] = ts[2];
        buf[11] = ts[3];
        assert(final(buf)@ =~= spec_header_bytes(*self) + old(buf)@.subrange(
            12,
            old(buf)@.len() as int,
        ));
        Ok(())
    }

    /// Reads a header from the first 12 bytes of `buf`.
    pub fn decode(buf: &[u8]) -> (r: Result<Self, ProtocolError>)
        ensures
            r == spec_decode(buf@),
    {
        if buf.len() < HEADER_LEN {
            return Err(ProtocolError::BufferTooShort);
        }
        let magic: u16 = (buf[0] as u16) * 256 + (buf[1] as u16);
        if magic != MAGIC_NUMBER {
            return Err(ProtocolError::InvalidMagic(magic));
        }
        let flags = buf[2];
        let reserved = buf[3];
        let sequence: u32 = (buf[4] as u32) * 16777216 + (buf[5] as u32) * 65536 + (buf[6] as u32)
            * 256 + (buf[7] as u32);
        let timestamp: u32 = (buf[8] as u32) * 16777216 + (buf[9] as u32) * 65536 + (buf[10] as u32)
            * 256 + (buf[11] as u32);
        Ok(GameTunnelHeader { flags, reserved, sequence, timestamp })
    }
}

/// The upper-case hexadecimal digit for `d` (below 16).
pub open spec fn hex_char(d: int) -> char {
    if d < 10 {
        ((d + 48) as u8) as char
    } else {
        ((d + 55) as u8) as char
    }
}

/// `m` as four upper-case hexadecimal digits.
pub open spec fn hex4(m: u16) -> Seq<char> {
    seq![
        hex_char((m / 4096) as int),
        hex_char(((m / 256) % 16) as int),
        hex_char(((m / 16) % 16) as int),
        hex_char((m % 16) as int),
    ]
}

/// The text that describes an error.
pub open spec fn spec_message(e: ProtocolError) -> Seq<char> {
    match e {
        ProtocolError::BufferTooShort => "buffer is shorter than GameTunnel header (12 bytes)"@,
        ProtocolError::InvalidMagic(m) => "invalid GameTunnel magic number: 0x"@ + hex4(m),
    }
}

/// The upper-case hexadecimal digit for `d`, as a one-character string.
fn hex_digit(d: u16) -> (r: &'static str)
    requires
        d < 16,
    ensures
        r@ == seq![hex_char(d as int)],
{
    proof {
        reveal_strlit("0");
        reveal_strlit("1");
        reveal_strlit("2");
        reveal_strlit("3");
        reveal_strlit("4");
        reveal_strlit("5");
        reveal_strlit("6");
        reveal_strlit("7");
        reveal_strlit("8");
        reveal_strlit("9");
        reveal_strlit("A");
        reveal_strlit("B");
        reveal_strlit("C");
        reveal_strlit("D");
        reveal_strlit("E");
        reveal_strlit("F");
    }
    let r = match d {
        0 => "0",
        1 => "1",
        2 => "2",
        3 => "3",
        4 => "4",
        5 => "5",
        6 => "6",
        7 => "7",
        8 => "8",
        9 => "9",
        10 => "A",
        11 => "B",
        12 => "C",
        13 => "D",
        14 => "E",
        _ => "F",
    };
    assert(r@ =~= seq![hex_char(d as int)]);
    r
}

impl ProtocolError {
    /// The text that describes the error: the buffer length that a header
    /// needs, or the magic number found, as four upper-case hexadecimal digits.
    pub fn message(&self) -> (r: String)
        ensures
            r@ == spec_message(*self),
    {
        match self {
            ProtocolError::BufferTooShort => "buffer is shorter than GameTunnel header (12 bytes)".to_owned(),
            ProtocolError::InvalidMagic(m) => {
                let mut s = "invalid GameTunnel magic number: 0x".to_owned();
                s.append(hex_digit(*m / 4096));
                s.append(hex_digit((*m / 256) % 16));
                s.append(hex_digit((*m / 16) % 16));
                s.append(hex_digit(*m % 16));
                assert(s@ =~= "invalid GameTunnel magic number: 0x"@ + hex4(*m));
                s
            },
        }
    }
}

/// Decoding what `encode` wrote gives back the header that was encoded,
/// whatever follows the header in the buffer.
pub proof fn lemma_decode_encode(h: GameTunnelHeader, rest: Seq<u8>)
    ensures
        spec_decode(spec_header_bytes(h) + rest) == Ok::<GameTunnelHeader, ProtocolError>(h),
{
    let b = spec_header_bytes(h) + rest;
    lemma_be32_roundtrip(h.sequence);
    lemma_be32_roundtrip(h.timestamp);
    assert(b[0] == 0x47u8 && b[1] == 0x54u8 && b[2] == h.flags && b[3] == h.reserved);
    assert(b.subrange(4, 8) == be32_bytes(h.sequence));
    assert(b.subrange(8, 12) == be32_bytes(h.timestamp));
    assert(b[4] == be32_bytes(h.sequence)[0] && b[5] == be32_bytes(h.sequence)[1] && b[6]
        == be32_bytes(h.sequence)[2] && b[7] == be32_bytes(h.sequence)[3]);
    assert(b[8] == be32_bytes(h.timestamp)[0] && b[9] == be32_bytes(h.timestamp)[1] && b[10]
        == be32_bytes(h.timestamp)[2] && b[11] == be32_bytes(h.timestamp)[3]);
}

/// Encoding a successfully decoded header reproduces the first 12 bytes of the
/// buffer it was decoded from.
pub proof fn lemma_encode_decode(b: Seq<u8>)
    requires
        spec_decode(b) is Ok,
    ensures
        spec_header_bytes(spec_decode(b)->Ok_0) == b.subrange(0, 12),
{
    let h = spec_decode(b)->Ok_0;
    crate::bytes::lemma_be32_value_bytes(b[4], b[5], b[6], b[7]);
    crate::bytes::lemma_be32_value_bytes(b[8], b[9], b[10], b[11]);
    crate::bytes::lemma_be16_value_magic(b[0], b[1]);
    assert(spec_header_bytes(h) =~= b.subrange(0, 12));
}

} // verus!
