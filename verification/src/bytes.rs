//! Big-endian byte encodings of 16- and 32-bit integers.
use vstd::prelude::*;

verus! {

/// The value of the big-endian 16-bit word `b0 b1`.
pub open spec fn be16_value(b0: u8, b1: u8) -> int {
    b0 * 256 + b1
}

/// The value of the big-endian 32-bit word `b0 b1 b2 b3`.
pub open spec fn be32_value(b0: u8, b1: u8, b2: u8, b3: u8) -> int {
    b0 * 16777216 + b1 * 65536 + b2 * 256 + b3
}

/// The two big-endian bytes of `x`.
pub open spec fn be16_bytes(x: u16) -> Seq<u8> {
    seq![(x / 256) as u8, (x % 256) as u8]
}

/// The four big-endian bytes of `x`.
pub open spec fn be32_bytes(x: u32) -> Seq<u8> {
    seq![
        (x / 16777216) as u8,
        ((x / 65536) % 256) as u8,
        ((x / 256) % 256) as u8,
        (x % 256) as u8,
    ]
}

/// The big-endian bytes of a 32-bit value.
pub fn u32_to_be(x: u32) -> (r: [u8; 4])
    ensures
        r@ == be32_bytes(x),
{
    let r = [(x / 16777216) as u8, ((x / 65536) % 256) as u8, ((x / 256) % 256) as u8, (x % 256) as u8];
    assert(r@ =~= be32_bytes(x));
    r
}

/// The big-endian bytes of a 16-bit value.
pub fn u16_to_be(x: u16) -> (r: [u8; 2])
    ensures
        r@ == be16_bytes(x),
{
    let r = [(x / 256) as u8, (x % 256) as u8];
    assert(r@ =~= be16_bytes(x));
    r
}

/// Reading back the big-endian bytes of `x` gives `x`.
pub proof fn lemma_be32_roundtrip(x: u32)
    ensures
        be32_value(be32_bytes(x)[0], be32_bytes(x)[1], be32_bytes(x)[2], be32_bytes(x)[3]) == x,
{
    assert((x / 16777216) * 16777216 + ((x / 65536) % 256) * 65536 + ((x / 256) % 256) * 256 + (x
        % 256) == x) by (bit_vector);
}

/// Reading back the big-endian bytes of `x` gives `x`.
pub proof fn lemma_be16_roundtrip(x: u16)
    ensures
        be16_value(be16_bytes(x)[0], be16_bytes(x)[1]) == x,
{
    assert((x / 256) * 256 + (x % 256) == x) by (bit_vector);
}

/// A 32-bit word read from four bytes encodes back to those bytes.
pub proof fn lemma_be32_value_bytes(b0: u8, b1: u8, b2: u8, b3: u8)
    ensures
        0 <= be32_value(b0, b1, b2, b3) <= u32::MAX,
        be32_bytes(be32_value(b0, b1, b2, b3) as u32) == seq![b0, b1, b2, b3],
{
    let v = be32_value(b0, b1, b2, b3) as u32;
    assert(b0 * 16777216 + b1 * 65536 + b2 * 256 + b3 <= 0xffff_ffff) by (bit_vector);
    lemma_be32_split(v, b0, b1, b2, b3);
    assert(be32_bytes(v) =~= seq![b0, b1, b2, b3]);
}

proof fn lemma_be32_split(v: u32, b0: u8, b1: u8, b2: u8, b3: u8)
    by (bit_vector)
    requires
        v == b0 * 16777216 + b1 * 65536 + b2 * 256 + b3,
    ensures
        v / 16777216 == b0,
        (v / 65536) % 256 == b1,
        (v / 256) % 256 == b2,
        v % 256 == b3,
{
}

/// The only two bytes that read as the magic number 0x4754 are 0x47 and 0x54.
pub proof fn lemma_be16_value_magic(b0: u8, b1: u8)
    ensures
        be16_value(b0, b1) == 0x4754 ==> b0 == 0x47 && b1 == 0x54,
{
}

} // verus!
