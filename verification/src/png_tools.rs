//! The four operations on a PNG byte stream: put a message in, read one out, take one
//! out, and list what is there.
//!
//! Each takes the stream as bytes and gives bytes or text back; reading and writing
//! files is the caller's part.

use crate::chunk::{Chunk, ChunkView};
use crate::chunk_type::{valid_code, ChunkType};
use crate::error::Error;
use crate::png::{
    appended, is_first_of_type, none_of_type, parse, rendering, serialize, Png,
};
use core::str::FromStr;
use vstd::prelude::*;
use vstd::slice::slice_to_vec;
use vstd::string::{StringExecFns, StringSliceAdditionalSpecFns};
use vstd::utf8::{decode_utf8, valid_utf8};

verus! {

/// The stream `png` with one more chunk, of type `chunk_type` and with the bytes of
/// `chunk_data` as its payload, appended as [`appended`] says.
///
/// The stream is read first, so that a stream that does not parse is reported even
/// where the type code is invalid too.
pub fn encode(png: &[u8], chunk_type: &str, chunk_data: &str) -> (written: Result<Vec<u8>, Error>)
    ensures
        match parse(png@) {
            Err(e) => written == Err::<Vec<u8>, Error>(e),
            Ok(chunks) => if valid_code(chunk_type.spec_bytes()) {
                &&& written matches Ok(bytes)
                &&& bytes@ == serialize(
                    appended(
                        chunks,
                        ChunkView { code: chunk_type.spec_bytes(), data: chunk_data.spec_bytes() },
                    ),
                )
            } else {
                written == Err::<Vec<u8>, Error>(Error::InvalidChunkType { offset: 0 })
            },
        },
{
    let mut png = match Png::try_from(png) {
        Ok(png) => png,
        Err(e) => {
            return Err(e);
        },
    };
    let c_type = match ChunkType::from_str(chunk_type) {
        Ok(c_type) => c_type,
        Err(e) => {
            return Err(e);
        },
    };
    let chunk = Chunk::new(c_type, slice_to_vec(chunk_data.as_bytes()));
    png.append_chunk(chunk);
    Ok(png.as_bytes())
}

/// The name of the file that takes the stream after a chunk of type `chunk_type` was
/// put in: the type code with `.png` behind it.
pub fn encoded_file_name(chunk_type: &str) -> (name: String)
    ensures
        name@ == chunk_type@ + ".png"@,
{
    chunk_type.to_owned().concat(".png")
}

/// The payload, as text, of the first chunk of the stream `png` whose type code reads
/// `chunk_type`.
pub fn decode(png: &[u8], chunk_type: &str) -> (text: Result<String, Error>)
    ensures
        match parse(png@) {
            Err(e) => text == Err::<String, Error>(e),
            Ok(chunks) => if none_of_type(chunks, chunk_type@) {
                &&& text matches Err(Error::ChunkNotFound { code })
                &&& code@ == chunk_type@
            } else {
                exists|at: int|
                    {
                        &&& is_first_of_type(chunks, chunk_type@, at)
                        &&& if valid_utf8(chunks[at].data) {
                            text matches Ok(s) && s@ == decode_utf8(chunks[at].data)
                        } else {
                            text == Err::<String, Error>(Error::InvalidUtf8)
                        }
                    }
            },
        },
{
    let png = match Png::try_from(png) {
        Ok(png) => png,
        Err(e) => {
            return Err(e);
        },
    };
    match png.chunk_by_type(chunk_type) {
        Some(chunk) => chunk.data_as_string(),
        None => Err(Error::ChunkNotFound { code: chunk_type.to_owned() }),
    }
}

/// The stream `png` without the first chunk whose type code reads `chunk_type`.
pub fn remove(png: &[u8], chunk_type: &str) -> (written: Result<Vec<u8>, Error>)
    ensures
        match parse(png@) {
            Err(e) => written == Err::<Vec<u8>, Error>(e),
            Ok(chunks) => if none_of_type(chunks, chunk_type@) {
                &&& written matches Err(Error::ChunkNotFound { code })
                &&& code@ == chunk_type@
            } else {
                exists|at: int|
                    {
                        &&& is_first_of_type(chunks, chunk_type@, at)
                        &&& written matches Ok(bytes)
                        &&& bytes@ == serialize(chunks.remove(at))
                    }
            },
        },
{
    let mut png = match Png::try_from(png) {
        Ok(png) => png,
        Err(e) => {
            return Err(e);
        },
    };
    match png.remove_first_chunk(chunk_type) {
        Ok(_) => Ok(png.as_bytes()),
        Err(e) => Err(e),
    }
}

/// The chunks of the stream `png` as text: see [`rendering`].
pub fn print(png: &[u8]) -> (text: Result<String, Error>)
    ensures
        match parse(png@) {
            Err(e) => text == Err::<String, Error>(e),
            Ok(chunks) => text matches Ok(s) && s@ == rendering(chunks),
        },
{
    match Png::try_from(png) {
        Ok(png) => Ok(png.to_string()),
        Err(e) => Err(e),
    }
}

} // verus!
