//! The four-byte type code of a chunk.
//!
//! Bit `0x20` of each byte is a flag: of the first byte, ancillary (set) or critical; of
//! the second, private (set) or public; of the third, reserved, and to be clear; of the
//! fourth, safe to copy (set). On a letter the bit is the letter's case.

use crate::error::Error;
use crate::text::{ascii_text, decode_text_lossy, lemma_ascii_bytes_are_text, text_or_placeholder};
use vstd::prelude::*;
use vstd::std_specs::convert::TryFromSpecImpl;
use vstd::string::StringSliceAdditionalSpecFns;

verus! {

/// Whether `byte` is an ASCII letter, `A` to `Z` or `a` to `z`.
pub open spec fn is_letter(byte: u8) -> bool {
    (0x41 <= byte <= 0x5A) || (0x61 <= byte <= 0x7A)
}

/// Whether the flag bit `0x20` of `byte` is set.
pub open spec fn flag_set(byte: u8) -> bool {
    byte & 0x20 == 0x20
}

/// Whether `code` is a structurally valid type code: four ASCII letters, the reserved
/// bit of the third one clear. The other three flags are free.
pub open spec fn valid_code(code: Seq<u8>) -> bool {
    &&& code.len() == 4
    &&& is_letter(code[0])
    &&& is_letter(code[1])
    &&& is_letter(code[2])
    &&& is_letter(code[3])
    &&& !flag_set(code[2])
}

/// A valid type code reads as its four letters, case kept.
pub proof fn lemma_valid_code_is_text(code: Seq<u8>)
    requires
        valid_code(code),
    ensures
        text_or_placeholder(code) == ascii_text(code),
{
    lemma_ascii_bytes_are_text(code);
}

/// A four-byte chunk type code. Two codes are equal when their bytes are.
#[derive(Debug, Clone, Copy, PartialEq, Eq)]
pub struct ChunkType {
    data: [u8; 4],
}

impl View for ChunkType {
    type V = Seq<u8>;

    /// The four bytes of the code.
    open spec fn view(&self) -> Seq<u8> {
        self.spec_bytes()@
    }
}

impl ChunkType {
    /// The four bytes of the code, as an array.
    pub closed spec fn spec_bytes(&self) -> [u8; 4] {
        self.data
    }

    /// The code whose bytes are `bytes`.
    pub closed spec fn of(bytes: [u8; 4]) -> ChunkType {
        ChunkType { data: bytes }
    }

    /// The code of some bytes has these bytes, and a code is the code of its bytes: two
    /// codes with the same bytes are the same code.
    pub proof fn lemma_of_bytes(bytes: [u8; 4], code: ChunkType)
        ensures
            ChunkType::of(bytes).spec_bytes() == bytes,
            code == ChunkType::of(code.spec_bytes()),
    {
    }

    /// The code made of `bytes`, whatever they are. Nothing is checked: the result may
    /// fail [`ChunkType::is_valid`].
    pub fn new_unchecked(bytes: [u8; 4]) -> (code: ChunkType)
        ensures
            code == ChunkType::of(bytes),
            code@ == bytes@,
    {
        ChunkType { data: bytes }
    }

    /// The four bytes of the code.
    pub fn bytes(&self) -> (bytes: [u8; 4])
        ensures
            bytes == self.spec_bytes(),
            bytes@ == self@,
    {
        self.data
    }

    /// Whether the chunk is critical: the flag of the first byte is clear.
    pub fn is_critical(&self) -> (critical: bool)
        ensures
            critical == !flag_set(self@[0]),
    {
        self.bytes()[0] & 0x20 != 0x20
    }

    /// Whether the chunk is public: the flag of the second byte is clear.
    pub fn is_public(&self) -> (public: bool)
        ensures
            public == !flag_set(self@[1]),
    {
        self.bytes()[1] & 0x20 != 0x20
    }

    /// Whether the reserved bit, the flag of the third byte, is clear as it must be.
    pub fn is_reserved_bit_valid(&self) -> (clear: bool)
        ensures
            clear == !flag_set(self@[2]),
    {
        Self::is_reserved_bit_valid_bytes(self.bytes())
    }

    /// Whether the chunk is safe to copy: the flag of the fourth byte is set.
    pub fn is_safe_to_copy(&self) -> (safe: bool)
        ensures
            safe == flag_set(self@[3]),
    {
        self.bytes()[3] & 0x20 == 0x20
    }

    /// Whether the code is structurally valid: all four bytes are ASCII letters and the
    /// reserved bit is clear.
    pub fn is_valid(&self) -> (valid: bool)
        ensures
            valid == valid_code(self@),
    {
        let bytes = self.bytes();
        let validated = Self::is_valid_byte(bytes[0]) && Self::is_valid_byte(bytes[1])
            && Self::is_valid_byte(bytes[2]) && Self::is_valid_byte(bytes[3]);
        validated && self.is_reserved_bit_valid()
    }

    /// The code as text: its four bytes as characters, or the placeholder where the
    /// bytes are no text.
    pub fn to_string(&self) -> (text: String)
        ensures
            text@ == text_or_placeholder(self@),
            valid_code(self@) ==> text@ == ascii_text(self@),
    {
        proof {
            if valid_code(self@) {
                lemma_valid_code_is_text(self@);
            }
        }
        let bytes = self.bytes();
        decode_text_lossy(bytes.as_slice())
    }

    fn is_reserved_bit_valid_bytes(bytes: [u8; 4]) -> (clear: bool)
        ensures
            clear == !flag_set(bytes@[2]),
    {
        bytes[2] & 0x20 != 0x20
    }

    fn is_valid_byte(byte: u8) -> (letter: bool)
        ensures
            letter == is_letter(byte),
    {
        byte >= 0x61 && byte <= 0x7A || (byte >= 0x41 && byte <= 0x5A)
    }
}

impl core::convert::TryFrom<[u8; 4]> for ChunkType {
    type Error = Error;

    /// The code made of `bytes`, if they are a valid type code.
    fn try_from(bytes: [u8; 4]) -> (made: Result<ChunkType, Error>)
        ensures
            made is Ok <==> valid_code(bytes@),
            made matches Ok(code) ==> code@ == bytes@,
            made matches Err(e) ==> e == (Error::InvalidChunkType { offset: 0 }),
    {
        let validated = Self::is_valid_byte(bytes[0]) && Self::is_valid_byte(bytes[1])
            && Self::is_valid_byte(bytes[2]) && Self::is_valid_byte(bytes[3]);
        if !ChunkType::is_reserved_bit_valid_bytes(bytes) || !validated {
            return Err(Error::InvalidChunkType { offset: 0 });
        }
        Ok(ChunkType { data: bytes })
    }
}

impl TryFromSpecImpl<[u8; 4]> for ChunkType {
    open spec fn obeys_try_from_spec() -> bool {
        true
    }

    open spec fn try_from_spec(bytes: [u8; 4]) -> Result<ChunkType, Error> {
        if valid_code(bytes@) {
            Ok(ChunkType::of(bytes))
        } else {
            Err(Error::InvalidChunkType { offset: 0 })
        }
    }
}

impl core::str::FromStr for ChunkType {
    type Err = Error;

    /// The code that `s` spells, if `s` is four bytes long and they are a valid type code.
    fn from_str(s: &str) -> (made: Result<ChunkType, Error>)
        ensures
            made is Ok <==> valid_code(s.spec_bytes()),
            made matches Ok(code) ==> code@ == s.spec_bytes(),
            made matches Err(e) ==> e == (Error::InvalidChunkType { offset: 0 }),
    {
        let bytes = s.as_bytes();
        if bytes.len() != 4 {
            return Err(Error::InvalidChunkType { offset: 0 });
        }
        let data: [u8; 4] = [bytes[0], bytes[1], bytes[2], bytes[3]];
        assert(data@ == bytes@);
        ChunkType::try_from(data)
    }
}

} // verus!
