//! Big-endian 32-bit words, as the length and checksum fields of a frame hold them.

use vstd::prelude::*;

verus! {

/// The four bytes of `value`, most significant first.
pub open spec fn be32_bytes(value: u32) -> Seq<u8> {
    seq![
        (value / 0x100_0000) as u8,
        (value / 0x1_0000 % 0x100) as u8,
        (value / 0x100 % 0x100) as u8,
        (value % 0x100) as u8,
    ]
}

/// The value that the first four bytes of `bytes` spell, most significant first.
pub open spec fn be32_value(bytes: Seq<u8>) -> u32
    recommends
        bytes.len() >= 4,
{
    (bytes[0] * 0x100_0000 + bytes[1] * 0x1_0000 + bytes[2] * 0x100 + bytes[3]) as u32
}

/// Reading back what was written gives the value.
pub proof fn lemma_be32_value_of_bytes(value: u32)
    ensures
        be32_bytes(value).len() == 4,
        be32_value(be32_bytes(value)) == value,
{
}

/// Writing what was read gives the same four bytes.
pub proof fn lemma_be32_bytes_of_value(bytes: Seq<u8>)
    requires
        bytes.len() == 4,
    ensures
        be32_bytes(be32_value(bytes)) == bytes,
{
    let (b0, b1, b2, b3) = (bytes[0], bytes[1], bytes[2], bytes[3]);
    let v = be32_value(bytes);
    assert(v / 0x100_0000 == b0 && v / 0x1_0000 % 0x100 == b1 && v / 0x100 % 0x100 == b2 && v
        % 0x100 == b3) by (bit_vector)
        requires
            v == b0 * 0x100_0000 + b1 * 0x1_0000 + b2 * 0x100 + b3,
    ;
}

/// The four bytes of `value`, most significant first.
pub fn encode_be32(value: u32) -> (bytes: [u8; 4])
    ensures
        bytes@ == be32_bytes(value),
{
    [
        (value / 0x100_0000) as u8,
        (value / 0x1_0000 % 0x100) as u8,
        (value / 0x100 % 0x100) as u8,
        (value % 0x100) as u8,
    ]
}

/// The value that the four bytes from index `at` spell, most significant first.
pub fn decode_be32(bytes: &[u8], at: usize) -> (value: u32)
    requires
        at + 4 <= bytes@.len(),
    ensures
        value == be32_value(bytes@.subrange(at as int, at + 4)),
{
    let b0 = bytes[at] as u32;
    let b1 = bytes[at + 1] as u32;
    let b2 = bytes[at + 2] as u32;
    let b3 = bytes[at + 3] as u32;
    b0 * 0x100_0000 + b1 * 0x1_0000 + b2 * 0x100 + b3
}

} // verus!
