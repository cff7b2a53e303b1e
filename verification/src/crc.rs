//! The CRC-32 checksum (IEEE 802.3 polynomial, reflected) that guards every chunk.
//!
//! The checksum is defined here bit by bit, as a shift register. The executable
//! [`checksum`] hands the work to `crc32fast`; [`checksum_bitwise`] evaluates the
//! definition itself and is proved against it.

use vstd::prelude::*;

verus! {

/// The reflected form of the generator polynomial.
pub const POLYNOMIAL: u32 = 0xEDB8_8320;

/// One step of the shift register: the low bit leaves, and where it was set the
/// polynomial is added.
pub open spec fn shift(reg: u32) -> u32 {
    if reg & 1 == 1 {
        (reg >> 1) ^ POLYNOMIAL
    } else {
        reg >> 1
    }
}

/// `reg` after `n` steps of the shift register.
pub open spec fn shifts(reg: u32, n: nat) -> u32
    decreases n,
{
    if n == 0 {
        reg
    } else {
        shifts(shift(reg), (n - 1) as nat)
    }
}

/// The register after a byte has been added to its low end and shifted through.
pub open spec fn absorb(reg: u32, byte: u8) -> u32 {
    shifts(reg ^ (byte as u32), 8)
}

/// The register after all of `bytes` went through it, starting from all ones.
pub open spec fn register(bytes: Seq<u8>) -> u32
    decreases bytes.len(),
{
    if bytes.len() == 0 {
        0xFFFF_FFFF
    } else {
        absorb(register(bytes.drop_last()), bytes.last())
    }
}

/// The CRC-32 of `bytes`: the final register, complemented.
pub open spec fn crc32(bytes: Seq<u8>) -> u32 {
    register(bytes) ^ 0xFFFF_FFFF
}

/// Taken on trust: `crc32fast::hash` returns the CRC-32 (IEEE) of the slice, the
/// checksum that [`crc32`] defines.
///
/// The crate's portable path computes it a byte at a time: it keeps the register
/// complemented between calls, so that it starts from zero, and looks up the eight
/// shifts of a byte in a table. Its other paths are held to that one by the crate's own
/// tests.
pub assume_specification[ crc32fast::hash ](buf: &[u8]) -> (sum: u32)
    ensures
        sum == crc32(buf@),
;

/// The CRC-32 of `bytes`.
pub fn checksum(bytes: &[u8]) -> (sum: u32)
    ensures
        sum == crc32(bytes@),
{
    crc32fast::hash(bytes)
}

/// The CRC-32 of `bytes`, computed one bit at a time as the definition reads.
///
/// Slow; it is here so that [`checksum`] can be held against the definition on any input.
pub fn checksum_bitwise(bytes: &[u8]) -> (sum: u32)
    ensures
        sum == crc32(bytes@),
{
    let mut reg: u32 = 0xFFFF_FFFF;
    let mut i: usize = 0;
    while i < bytes.len()
        invariant
            i <= bytes.len(),
            reg == register(bytes@.take(i as int)),
        decreases bytes.len() - i,
    {
        let ghost before = reg;
        let byte = bytes[i];
        reg = reg ^ (byte as u32);
        let mut k: u8 = 0;
        while k < 8
            invariant
                k <= 8,
                shifts(reg, (8 - k) as nat) == absorb(before, byte),
            decreases 8 - k,
        {
            reg = if reg & 1 == 1 {
                (reg >> 1) ^ POLYNOMIAL
            } else {
                reg >> 1
            };
            k = k + 1;
        }
        proof {
            let next = bytes@.take(i + 1);
            assert(next.drop_last() == bytes@.take(i as int));
            assert(next.last() == bytes@[i as int]);
        }
        i = i + 1;
    }
    proof {
        assert(bytes@.take(i as int) == bytes@);
    }
    reg ^ 0xFFFF_FFFF
}

/// A step of the shift register loses nothing: the high bit of the result tells whether
/// the polynomial was added.
pub proof fn lemma_shift_injective(a: u32, b: u32)
    requires
        shift(a) == shift(b),
    ensures
        a == b,
{
    assert(shift(a) == shift(b) ==> a == b) by (bit_vector);
}

/// Two registers that differ still differ after absorbing the same byte.
pub proof fn lemma_absorb_injective_in_register(a: u32, b: u32, byte: u8)
    requires
        absorb(a, byte) == absorb(b, byte),
    ensures
        a == b,
{
    let x = byte as u32;
    lemma_shifts_injective(a ^ x, b ^ x, 8);
    assert((a ^ x) == (b ^ x) ==> a == b) by (bit_vector);
}

/// One register absorbing two different bytes ends in two different states.
pub proof fn lemma_absorb_injective_in_byte(reg: u32, x: u8, y: u8)
    requires
        absorb(reg, x) == absorb(reg, y),
    ensures
        x == y,
{
    lemma_shifts_injective(reg ^ (x as u32), reg ^ (y as u32), 8);
    assert((reg ^ (x as u32)) == (reg ^ (y as u32)) ==> x == y) by (bit_vector);
}

proof fn lemma_shifts_injective(a: u32, b: u32, n: nat)
    requires
        shifts(a, n) == shifts(b, n),
    ensures
        a == b,
    decreases n,
{
    if n > 0 {
        lemma_shifts_injective(shift(a), shift(b), (n - 1) as nat);
        lemma_shift_injective(a, b);
    }
}

/// The checksum tells apart any two messages of one length that differ in exactly one
/// byte, whatever the difference within that byte.
pub proof fn lemma_crc32_detects_one_byte(a: Seq<u8>, b: Seq<u8>, at: int)
    requires
        a.len() == b.len(),
        0 <= at < a.len(),
        a[at] != b[at],
        forall|i: int| 0 <= i < a.len() && i != at ==> a[i] == b[i],
    ensures
        crc32(a) != crc32(b),
{
    lemma_register_detects_one_byte(a, b, at);
    let (ra, rb) = (register(a), register(b));
    assert(ra != rb ==> (ra ^ 0xFFFF_FFFF) != (rb ^ 0xFFFF_FFFF)) by (bit_vector);
}

proof fn lemma_register_detects_one_byte(a: Seq<u8>, b: Seq<u8>, at: int)
    requires
        a.len() == b.len(),
        0 <= at < a.len(),
        a[at] != b[at],
        forall|i: int| 0 <= i < a.len() && i != at ==> a[i] == b[i],
    ensures
        register(a) != register(b),
    decreases a.len(),
{
    let (a0, b0) = (a.drop_last(), b.drop_last());
    if at == a.len() - 1 {
        assert(a0 == b0);
        if register(a) == register(b) {
            lemma_absorb_injective_in_byte(register(a0), a.last(), b.last());
        }
    } else {
        lemma_register_detects_one_byte(a0, b0, at);
        if register(a) == register(b) {
            lemma_absorb_injective_in_register(register(a0), register(b0), a.last());
        }
    }
}

} // verus!
