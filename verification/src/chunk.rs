//! One chunk: a type code and a payload, and the frame that carries them.
//!
//! A frame is the payload's length as a big-endian 32-bit word, the four bytes of the
//! type code, the payload, and the CRC-32 of type code and payload as a big-endian word.
//! Length and checksum are never stored: they are computed when a frame is written and
//! checked when one is read.

use crate::chunk_type::{valid_code, ChunkType};
use crate::crc::{checksum, crc32, lemma_crc32_detects_one_byte};
use crate::error::Error;
use crate::text::{decode_text, decode_text_lossy, text_or_placeholder};
use crate::word::{
    be32_bytes, be32_value, decode_be32, encode_be32, lemma_be32_bytes_of_value,
    lemma_be32_value_of_bytes,
};
use vstd::prelude::*;
use vstd::slice::{slice_subrange, slice_to_vec};
use vstd::std_specs::convert::TryFromSpecImpl;
use vstd::string::StringExecFns;
use vstd::utf8::{decode_utf8, valid_utf8};

verus! {

/// What a chunk is, as plain values: the bytes of its type code and its payload.
pub struct ChunkView {
    pub code: Seq<u8>,
    pub data: Seq<u8>,
}

/// The bytes that a frame has besides its payload: length, type code and checksum.
pub open spec fn overhead() -> int {
    Chunk::METADATA_SIZE as int
}

/// The frame of a chunk with type code `code` and payload `data`.
///
/// The length field holds the payload's length reduced to 32 bits.
pub open spec fn frame(code: Seq<u8>, data: Seq<u8>) -> Seq<u8> {
    be32_bytes(data.len() as u32) + code + data + be32_bytes(crc32(code + data))
}

/// What reading one frame from the start of `bytes` gives. The checks come in this
/// order: twelve bytes are there; the type code is valid; the payload and the checksum
/// are there; the checksum is that of type code and payload. What follows the frame is
/// not looked at.
pub open spec fn parse_frame(bytes: Seq<u8>) -> Result<ChunkView, Error> {
    if bytes.len() < overhead() {
        Err(Error::TooShort { offset: 0 })
    } else {
        let length = be32_value(bytes.subrange(0, 4)) as int;
        let code = bytes.subrange(4, 8);
        if !valid_code(code) {
            Err(Error::InvalidChunkType { offset: 0 })
        } else if bytes.len() < overhead() + length {
            Err(Error::TooShort { offset: 0 })
        } else {
            let data = bytes.subrange(8, 8 + length);
            let stored = be32_value(bytes.subrange(8 + length, 12 + length));
            if stored != crc32(code + data) {
                Err(Error::CrcMismatch { offset: 0 })
            } else {
                Ok(ChunkView { code, data })
            }
        }
    }
}

/// A chunk as text: its type code, a colon and a space, and its payload, each as text
/// or as the placeholder.
pub open spec fn chunk_text(chunk: ChunkView) -> Seq<char> {
    text_or_placeholder(chunk.code) + ": "@ + text_or_placeholder(chunk.data)
}

/// `bytes` with bit number `bit` of the byte at index `at` inverted.
pub open spec fn flip_bit(bytes: Seq<u8>, at: int, bit: u8) -> Seq<u8>
    recommends
        0 <= at < bytes.len(),
        bit < 8,
{
    bytes.update(at, bytes[at] ^ (1u8 << bit))
}

/// A chunk: a type code and the payload it owns.
#[derive(Debug, PartialEq)]
pub struct Chunk {
    chunk_type: ChunkType,
    data: Vec<u8>,
}

impl View for Chunk {
    type V = ChunkView;

    open spec fn view(&self) -> ChunkView {
        ChunkView { code: self.spec_chunk_type()@, data: self.spec_data() }
    }
}

impl Chunk {
    /// The bytes of the length field.
    pub const DATA_LENGTH_SIZE: usize = 4;

    /// The bytes of the type code.
    pub const CHUNK_TYPE_SIZE: usize = 4;

    /// The bytes of the checksum field.
    pub const CRC_SIZE: usize = 4;

    /// The bytes of a frame without its payload.
    pub const METADATA_SIZE: usize = Chunk::DATA_LENGTH_SIZE + Chunk::CHUNK_TYPE_SIZE
        + Chunk::CRC_SIZE;

    /// The type code of the chunk.
    pub closed spec fn spec_chunk_type(&self) -> ChunkType {
        self.chunk_type
    }

    /// The payload of the chunk.
    pub closed spec fn spec_data(&self) -> Seq<u8> {
        self.data@
    }

    /// The chunk with type code `chunk_type` and payload `data`. Nothing is checked.
    pub fn new(chunk_type: ChunkType, data: Vec<u8>) -> (chunk: Chunk)
        ensures
            chunk.spec_chunk_type() == chunk_type,
            chunk@ == (ChunkView { code: chunk_type@, data: data@ }),
    {
        Chunk { chunk_type, data }
    }

    /// The length of the payload, reduced to 32 bits as the length field holds it.
    pub fn length(&self) -> (length: u32)
        ensures
            length == self@.data.len() as u32,
    {
        self.data.len() as u32
    }

    /// The type code of the chunk.
    pub fn chunk_type(&self) -> (chunk_type: &ChunkType)
        ensures
            *chunk_type == self.spec_chunk_type(),
            chunk_type@ == self@.code,
    {
        &self.chunk_type
    }

    /// The payload of the chunk.
    pub fn data(&self) -> (data: &[u8])
        ensures
            data@ == self@.data,
    {
        self.data.as_slice()
    }

    /// The CRC-32 of the type code followed by the payload.
    pub fn crc(&self) -> (crc: u32)
        ensures
            crc == crc32(self@.code + self@.data),
    {
        let mut covered: Vec<u8> = Vec::new();
        covered.extend_from_slice(self.chunk_type.bytes().as_slice());
        covered.extend_from_slice(self.data.as_slice());
        assert(covered@ == self@.code + self@.data);
        checksum(covered.as_slice())
    }

    /// The payload as text, if it is well-formed UTF-8.
    pub fn data_as_string(&self) -> (text: Result<String, Error>)
        ensures
            text is Ok <==> valid_utf8(self@.data),
            text matches Ok(s) ==> s@ == decode_utf8(self@.data),
            text matches Err(e) ==> e == Error::InvalidUtf8,
    {
        match decode_text(self.data.as_slice()) {
            Some(s) => Ok(s),
            None => Err(Error::InvalidUtf8),
        }
    }

    /// The frame of the chunk.
    pub fn as_bytes(&self) -> (bytes: Vec<u8>)
        ensures
            bytes@ == frame(self@.code, self@.data),
    {
        let mut bytes: Vec<u8> = Vec::new();
        bytes.extend_from_slice(encode_be32(self.length()).as_slice());
        bytes.extend_from_slice(self.chunk_type.bytes().as_slice());
        bytes.extend_from_slice(self.data.as_slice());
        let crc = checksum(slice_subrange(bytes.as_slice(), 4, bytes.len()));
        assert(bytes@.subrange(4, bytes@.len() as int) == self@.code + self@.data);
        bytes.extend_from_slice(encode_be32(crc).as_slice());
        bytes
    }

    /// The chunk as text: see [`chunk_text`].
    pub fn to_string(&self) -> (text: String)
        ensures
            text@ == chunk_text(self@),
    {
        let text = self.chunk_type.to_string();
        let text = text.concat(": ");
        let payload = decode_text_lossy(self.data.as_slice());
        text.concat(payload.as_str())
    }
}

impl<'a> core::convert::TryFrom<&'a [u8]> for Chunk {
    type Error = Error;

    /// The chunk whose frame stands at the start of `bytes`: see [`parse_frame`].
    fn try_from(bytes: &'a [u8]) -> (read: Result<Chunk, Error>)
        ensures
            match parse_frame(bytes@) {
                Ok(chunk) => read matches Ok(c) && c@ == chunk,
                Err(e) => read == Err::<Chunk, Error>(e),
            },
            read matches Ok(c) ==> overhead() + c@.data.len() <= bytes@.len(),
            read matches Err(e) ==> e.spec_offset() == 0,
    {
        if bytes.len() < Chunk::METADATA_SIZE {
            return Err(Error::TooShort { offset: 0 });
        }
        let length = decode_be32(bytes, 0) as usize;
        let code: [u8; 4] = [bytes[4], bytes[5], bytes[6], bytes[7]];
        assert(code@ == bytes@.subrange(4, 8));
        let chunk_type = match ChunkType::try_from(code) {
            Ok(chunk_type) => chunk_type,
            Err(e) => {
                return Err(e);
            },
        };
        if bytes.len() - Chunk::METADATA_SIZE < length {
            return Err(Error::TooShort { offset: 0 });
        }
        let data = slice_to_vec(slice_subrange(bytes, 8, 8 + length));
        let stored = decode_be32(bytes, 8 + length);
        let actual = checksum(slice_subrange(bytes, 4, 8 + length));
        assert(bytes@.subrange(4, 8 + length) == bytes@.subrange(4, 8) + bytes@.subrange(
            8,
            8 + length,
        ));
        if actual != stored {
            return Err(Error::CrcMismatch { offset: 0 });
        }
        Ok(Chunk { chunk_type, data })
    }
}

impl<'a> TryFromSpecImpl<&'a [u8]> for Chunk {
    /// A chunk owns a vector, and two vectors with the same content are not known to be
    /// the same value: what `try_from` returns is stated on the function itself, over
    /// the chunk's view.
    open spec fn obeys_try_from_spec() -> bool {
        false
    }

    open spec fn try_from_spec(bytes: &'a [u8]) -> Result<Chunk, Error> {
        match parse_frame(bytes@) {
            Ok(chunk) => Ok(choose|c: Chunk| c@ == chunk),
            Err(e) => Err(e),
        }
    }
}

/// A frame is twelve bytes longer than its payload.
pub proof fn lemma_frame_len(code: Seq<u8>, data: Seq<u8>)
    requires
        code.len() == 4,
    ensures
        frame(code, data).len() == overhead() + data.len(),
{
}

/// Reading what was written: the frame of a valid type code and of a payload whose
/// length fits the length field parses back to that type code and that payload,
/// whatever follows the frame.
pub proof fn lemma_frame_parses_back(code: Seq<u8>, data: Seq<u8>, rest: Seq<u8>)
    requires
        valid_code(code),
        data.len() <= u32::MAX,
    ensures
        parse_frame(frame(code, data) + rest) == Ok::<ChunkView, Error>(ChunkView { code, data }),
{
    let bytes = frame(code, data) + rest;
    let length = data.len() as int;
    lemma_be32_value_of_bytes(data.len() as u32);
    lemma_be32_value_of_bytes(crc32(code + data));
    assert(bytes.subrange(0, 4) == be32_bytes(data.len() as u32));
    assert(bytes.subrange(4, 8) == code);
    assert(bytes.subrange(8, 8 + length) == data);
    assert(bytes.subrange(8 + length, 12 + length) == be32_bytes(crc32(code + data)));
}

/// Writing what was read: where `bytes` begin with a frame that parses, the frame of
/// the chunk that was read is those bytes again, and the payload's length fits the
/// length field.
pub proof fn lemma_parsed_frame_is_prefix(bytes: Seq<u8>)
    requires
        parse_frame(bytes) is Ok,
    ensures
        ({
            let chunk = parse_frame(bytes)->Ok_0;
            &&& chunk.data.len() <= u32::MAX
            &&& overhead() + chunk.data.len() <= bytes.len()
            &&& frame(chunk.code, chunk.data) == bytes.subrange(
                0,
                overhead() + chunk.data.len(),
            )
        }),
{
    let chunk = parse_frame(bytes)->Ok_0;
    let length = be32_value(bytes.subrange(0, 4)) as int;
    assert(chunk.data.len() == length);
    lemma_be32_bytes_of_value(bytes.subrange(0, 4));
    lemma_be32_bytes_of_value(bytes.subrange(8 + length, 12 + length));
    assert(frame(chunk.code, chunk.data) =~= bytes.subrange(0, 12 + length));
}

/// Damage is noticed: after one bit is inverted in the type code or the payload of a
/// frame, the frame no longer parses. The checksum does not match, unless the type code
/// itself has become invalid, which is found first.
pub proof fn lemma_bit_flip_is_detected(code: Seq<u8>, data: Seq<u8>, at: int, bit: u8)
    requires
        valid_code(code),
        data.len() <= u32::MAX,
        4 <= at < 8 + data.len(),
        bit < 8,
    ensures
        ({
            let damaged = flip_bit(frame(code, data), at, bit);
            parse_frame(damaged) == Err::<ChunkView, Error>(
                if valid_code(damaged.subrange(4, 8)) {
                    Error::CrcMismatch { offset: 0 }
                } else {
                    Error::InvalidChunkType { offset: 0 }
                },
            )
        }),
{
    let whole = frame(code, data);
    let damaged = flip_bit(whole, at, bit);
    let length = data.len() as int;
    let byte = whole[at];
    assert(byte ^ (1u8 << bit) != byte) by (bit_vector)
        requires
            bit < 8,
    ;
    lemma_be32_value_of_bytes(data.len() as u32);
    lemma_be32_value_of_bytes(crc32(code + data));
    assert(damaged.subrange(0, 4) == be32_bytes(data.len() as u32));
    assert(damaged.subrange(8 + length, 12 + length) == be32_bytes(crc32(code + data)));
    let covered = damaged.subrange(4, 8) + damaged.subrange(8, 8 + length);
    assert(whole.subrange(4, 8 + length) == code + data);
    assert(covered == damaged.subrange(4, 8 + length));
    lemma_crc32_detects_one_byte(code + data, covered, at - 4);
}

} // verus!
