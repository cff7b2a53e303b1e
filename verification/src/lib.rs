//! A codec and in-memory model for PNG files that carry custom metadata chunks.
//!
//! Three layers, leaf first: [`chunk_type::ChunkType`] (the four-byte type code and its
//! flag bits), [`chunk::Chunk`] (one length-prefixed, checksummed frame) and [`png::Png`]
//! (the signature followed by an ordered list of chunks).
//!
//! Around them: [`crc`] defines the checksum and [`word`] the big-endian fields of a
//! frame; [`text`] reads bytes as text; [`png_tools`] offers the four operations on a
//! whole byte stream, and [`application`] the state of a form that drives them.
//!
//! Every function states what it computes over plain mathematical values: byte sequences,
//! integers and sequences of chunk views. What holds between the functions (a frame that
//! was written reads back, damage to a frame is noticed, a stream that was read is
//! written back byte for byte) is proved beside them.

pub mod application;
pub mod chunk;
pub mod chunk_type;
pub mod crc;
pub mod error;
pub mod png;
pub mod png_tools;
pub mod text;
pub mod word;
