//! Bytes read as text, with a placeholder where they are none.

use vstd::prelude::*;
use vstd::string::StringSliceAdditionalSpecFns;
use vstd::utf8::{
    decode_utf8, decode_utf8_encode_utf8, encode_utf8, encode_utf8_decode_utf8,
    encode_utf8_valid_utf8, is_ascii_chars, is_ascii_chars_encode_utf8, valid_utf8,
};

verus! {

/// `core::str::Utf8Error`, which `core::str::from_utf8` returns for bytes that are no
/// text. Nothing is claimed of what it holds.
#[verifier::external_type_specification]
#[verifier::external_body]
pub struct ExUtf8Error(core::str::Utf8Error);

/// Taken on trust: `core::str::from_utf8` succeeds exactly on well-formed UTF-8, and the
/// string slice it returns is made of the bytes it was given.
pub assume_specification<'a>[ core::str::from_utf8 ](bytes: &'a [u8]) -> (text: Result<
    &'a str,
    core::str::Utf8Error,
>)
    ensures
        text is Ok <==> valid_utf8(bytes@),
        text matches Ok(s) ==> s.spec_bytes() == bytes@,
;

/// What stands for bytes that are not text.
pub open spec fn placeholder() -> Seq<char> {
    "Invalid UTF-8"@
}

/// The characters that `bytes` encode, or the placeholder where they encode none.
pub open spec fn text_or_placeholder(bytes: Seq<u8>) -> Seq<char> {
    if valid_utf8(bytes) {
        decode_utf8(bytes)
    } else {
        placeholder()
    }
}

/// The characters whose code points are the bytes of `bytes`, one for one.
pub open spec fn ascii_text(bytes: Seq<u8>) -> Seq<char> {
    Seq::new(bytes.len(), |i: int| bytes[i] as char)
}

/// Bytes below `0x80` are text, each byte one character.
pub proof fn lemma_ascii_bytes_are_text(bytes: Seq<u8>)
    requires
        forall|i: int| 0 <= i < bytes.len() ==> bytes[i] < 0x80,
    ensures
        valid_utf8(bytes),
        decode_utf8(bytes) == ascii_text(bytes),
        text_or_placeholder(bytes) == ascii_text(bytes),
{
    let chars = ascii_text(bytes);
    assert(is_ascii_chars(chars));
    is_ascii_chars_encode_utf8(chars);
    assert(encode_utf8(chars) =~= bytes);
    encode_utf8_valid_utf8(chars);
    encode_utf8_decode_utf8(chars);
}

/// Well-formed bytes read as `text` exactly when they are the encoding of `text`:
/// to look for a text is to look for its bytes.
pub proof fn lemma_text_matches_by_bytes(bytes: Seq<u8>, text: Seq<char>)
    requires
        valid_utf8(bytes),
    ensures
        text_or_placeholder(bytes) == text <==> bytes == encode_utf8(text),
{
    decode_utf8_encode_utf8(bytes);
    encode_utf8_decode_utf8(text);
}

/// The text that `bytes` encode, if they are well-formed UTF-8.
pub fn decode_text(bytes: &[u8]) -> (text: Option<String>)
    ensures
        text is Some <==> valid_utf8(bytes@),
        text matches Some(s) ==> s@ == decode_utf8(bytes@),
{
    match core::str::from_utf8(bytes) {
        Ok(s) => {
            proof {
                encode_utf8_decode_utf8(s@);
            }
            Some(s.to_owned())
        },
        Err(_) => None,
    }
}

/// The text that `bytes` encode, or the placeholder.
pub fn decode_text_lossy(bytes: &[u8]) -> (text: String)
    ensures
        text@ == text_or_placeholder(bytes@),
{
    match decode_text(bytes) {
        Some(s) => s,
        None => "Invalid UTF-8".to_owned(),
    }
}

} // verus!
