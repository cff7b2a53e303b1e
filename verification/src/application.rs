//! The state of the form through which a user drives the four operations, and how it
//! answers what the user does.
//!
//! The form holds four texts: the path of the PNG file, the type code, the message, and
//! the line that reports how the last operation went. Nothing here touches a window or a
//! file. [`Application::update`] says what is to be done for a message; the caller does
//! it and hands the result to [`Application::complete`].

use crate::chunk_type::is_letter;
use vstd::prelude::*;
use vstd::string::{StringExecFns, StringSliceAdditionalSpecFns};
use vstd::utf8::{
    char_is_scalar, encode_scalar, encode_utf8, is_ascii_chars, is_ascii_chars_encode_utf8,
};

verus! {

/// What the user did.
#[derive(Debug)]
pub enum Message {
    /// The button that picks a file was pressed.
    FileButtonPressed,
    /// The button that puts the message into the file was pressed.
    EncodeButtonPressed,
    /// The button that reads the message from the file was pressed.
    DecodeButtonPressed,
    /// The button that takes the chunk out of the file was pressed.
    RemoveButtonPressed,
    /// The button that lists the chunks of the file was pressed.
    PrintButtonPressed,
    /// The field for the type code now holds this text.
    ChunkTypeInputChanged(String),
    /// The field for the message now holds this text.
    ChunkDataInputChanged(String),
}

/// What the caller is to do after a message.
#[derive(Debug, Clone, Copy, PartialEq, Eq)]
pub enum Action {
    /// Nothing.
    Nothing,
    /// Let the user pick a PNG file.
    PickFile,
    /// Put the message into the file, under the type code.
    Encode,
    /// Read the message that the file holds under the type code.
    Decode,
    /// Take the chunk with the type code out of the file.
    Remove,
    /// List the chunks of the file.
    Print,
}

/// How the work that an [`Action`] asked for went. An operation that failed brings the
/// text of its error.
#[derive(Debug)]
pub enum Outcome {
    /// The path of the file that was picked, if one was.
    Picked(Option<String>),
    /// The path of the file that was written.
    Encoded(Result<String, String>),
    /// The message that was read.
    Decoded(Result<String, String>),
    /// The path of the file that was rewritten.
    Removed(Result<String, String>),
    /// The listing.
    Printed(Result<String, String>),
}

/// The four texts of the form, as plain values.
pub struct ApplicationView {
    pub file_path: Seq<char>,
    pub chunk_type: Seq<char>,
    pub chunk_data: Seq<char>,
    pub output_msg: Seq<char>,
}

/// Whether `c` is an ASCII letter.
pub open spec fn is_letter_char(c: char) -> bool {
    ('A' <= c <= 'Z') || ('a' <= c <= 'z')
}

/// Whether every character of `text` is an ASCII letter.
pub open spec fn all_letter_chars(text: Seq<char>) -> bool {
    forall|i: int| 0 <= i < text.len() ==> is_letter_char(#[trigger] text[i])
}

/// Whether every byte of `bytes` is an ASCII letter.
pub open spec fn all_letter_bytes(bytes: Seq<u8>) -> bool {
    forall|i: int| 0 <= i < bytes.len() ==> is_letter(#[trigger] bytes[i])
}

/// Whether `text` may stand in the field for the type code: at most four bytes long,
/// and made of ASCII letters only. The empty text may.
pub open spec fn accepts_type_input(text: Seq<char>) -> bool {
    encode_utf8(text).len() <= 4 && all_letter_chars(text)
}

proof fn lemma_char_code(c: char)
    ensures
        c as u32 as int == c as int,
{
}

/// A text is made of ASCII letters exactly when its bytes are ASCII letters, and then
/// it has as many bytes as characters.
pub proof fn lemma_letters_by_bytes(text: Seq<char>)
    ensures
        all_letter_chars(text) <==> all_letter_bytes(encode_utf8(text)),
        all_letter_chars(text) ==> encode_utf8(text).len() == text.len(),
    decreases text.len(),
{
    let bytes = encode_utf8(text);
    if all_letter_chars(text) {
        assert(is_ascii_chars(text));
        is_ascii_chars_encode_utf8(text);
        assert forall|i: int| 0 <= i < bytes.len() implies is_letter(#[trigger] bytes[i]) by {
            assert(is_letter_char(text[i]));
        }
    }
    if all_letter_bytes(bytes) && text.len() > 0 {
        let first = text[0] as u32;
        let rest = text.drop_first();
        char_is_scalar(text[0]);
        assert(is_letter(bytes[0]));
        assert(bytes[0] == encode_scalar(first)[0]);
        assert(first <= 0x7F && bytes[0] == first) by {
            let head = encode_scalar(first)[0];
            assert(first > 0x7F ==> head >= 0xC0) by {
                assert(0xC0u8 | (((first >> 6) & 0x1F) as u8) >= 0xC0) by (bit_vector);
                assert(0xE0u8 | (((first >> 12) & 0x0F) as u8) >= 0xC0) by (bit_vector);
                assert(0xF0u8 | (((first >> 18) & 0x7) as u8) >= 0xC0) by (bit_vector);
            }
            assert(first <= 0x7F ==> (first & 0x7F) as u8 == first) by (bit_vector);
        }
        assert(encode_utf8(rest) =~= bytes.subrange(1, bytes.len() as int));
        assert forall|i: int| 0 <= i < encode_utf8(rest).len() implies is_letter(
            #[trigger] encode_utf8(rest)[i],
        ) by {
            assert(encode_utf8(rest)[i] == bytes[i + 1]);
        }
        lemma_letters_by_bytes(rest);
        lemma_char_code(text[0]);
        assert forall|i: int| 0 <= i < text.len() implies is_letter_char(#[trigger] text[i]) by {
            if i > 0 {
                assert(text[i] == rest[i - 1]);
            }
        }
    }
}

/// What is to be done for `message`.
pub open spec fn action_for(message: Message) -> Action {
    match message {
        Message::FileButtonPressed => Action::PickFile,
        Message::EncodeButtonPressed => Action::Encode,
        Message::DecodeButtonPressed => Action::Decode,
        Message::RemoveButtonPressed => Action::Remove,
        Message::PrintButtonPressed => Action::Print,
        Message::ChunkTypeInputChanged(_) => Action::Nothing,
        Message::ChunkDataInputChanged(_) => Action::Nothing,
    }
}

/// The form after `message`: only a change of one of the two input fields changes it,
/// and a text that the field for the type code does not accept is dropped.
pub open spec fn after_message(form: ApplicationView, message: Message) -> ApplicationView {
    match message {
        Message::ChunkTypeInputChanged(text) => if accepts_type_input(text@) {
            ApplicationView { chunk_type: text@, ..form }
        } else {
            form
        },
        Message::ChunkDataInputChanged(text) => ApplicationView { chunk_data: text@, ..form },
        _ => form,
    }
}

/// The line that reports a finished operation.
pub open spec fn report(result: Result<String, String>, success: Seq<char>) -> Seq<char> {
    match result {
        Ok(value) => success + value@,
        Err(e) => "Error: "@ + e@,
    }
}

/// The form after `outcome`: a picked file becomes the file of the form, a finished
/// operation is reported.
pub open spec fn after_outcome(form: ApplicationView, outcome: Outcome) -> ApplicationView {
    match outcome {
        Outcome::Picked(Some(path)) => ApplicationView { file_path: path@, ..form },
        Outcome::Picked(None) => form,
        Outcome::Encoded(result) => ApplicationView {
            output_msg: report(result, "Chunk encoded to "@),
            ..form
        },
        Outcome::Decoded(result) => ApplicationView {
            output_msg: report(result, "Chunk data: "@),
            ..form
        },
        Outcome::Removed(result) => ApplicationView {
            output_msg: report(result, "Chunk removed from "@),
            ..form
        },
        Outcome::Printed(result) => ApplicationView {
            output_msg: report(result, "PNG data: "@),
            ..form
        },
    }
}

/// The form.
#[derive(Debug)]
pub struct Application {
    file_path: String,
    chunk_type: String,
    chunk_data: String,
    output_msg: String,
}

impl View for Application {
    type V = ApplicationView;

    closed spec fn view(&self) -> ApplicationView {
        ApplicationView {
            file_path: self.file_path@,
            chunk_type: self.chunk_type@,
            chunk_data: self.chunk_data@,
            output_msg: self.output_msg@,
        }
    }
}

impl Default for Application {
    /// The form with its four texts empty.
    fn default() -> (form: Application)
        ensures
            form@ == (ApplicationView {
                file_path: Seq::empty(),
                chunk_type: Seq::empty(),
                chunk_data: Seq::empty(),
                output_msg: Seq::empty(),
            }),
    {
        Application {
            file_path: String::new(),
            chunk_type: String::new(),
            chunk_data: String::new(),
            output_msg: String::new(),
        }
    }
}

impl Application {
    /// The path of the PNG file.
    pub fn file_path(&self) -> (text: &str)
        ensures
            text@ == self@.file_path,
    {
        self.file_path.as_str()
    }

    /// The type code.
    pub fn chunk_type(&self) -> (text: &str)
        ensures
            text@ == self@.chunk_type,
    {
        self.chunk_type.as_str()
    }

    /// The message.
    pub fn chunk_data(&self) -> (text: &str)
        ensures
            text@ == self@.chunk_data,
    {
        self.chunk_data.as_str()
    }

    /// The line that reports how the last operation went.
    pub fn output_msg(&self) -> (text: &str)
        ensures
            text@ == self@.output_msg,
    {
        self.output_msg.as_str()
    }

    /// Takes in what the user did and says what is to be done for it.
    pub fn update(&mut self, message: Message) -> (action: Action)
        ensures
            final(self)@ == after_message(old(self)@, message),
            action == action_for(message),
    {
        match message {
            Message::FileButtonPressed => Action::PickFile,
            Message::ChunkTypeInputChanged(text) => {
                if type_input_is_accepted(text.as_str()) {
                    self.chunk_type = text;
                }
                Action::Nothing
            },
            Message::ChunkDataInputChanged(text) => {
                self.chunk_data = text;
                Action::Nothing
            },
            Message::EncodeButtonPressed => Action::Encode,
            Message::DecodeButtonPressed => Action::Decode,
            Message::RemoveButtonPressed => Action::Remove,
            Message::PrintButtonPressed => Action::Print,
        }
    }

    /// Takes in how the work went that [`Application::update`] asked for.
    pub fn complete(&mut self, outcome: Outcome)
        ensures
            final(self)@ == after_outcome(old(self)@, outcome),
    {
        match outcome {
            Outcome::Picked(Some(path)) => {
                self.file_path = path;
            },
            Outcome::Picked(None) => {},
            Outcome::Encoded(result) => {
                self.output_msg = report_line(result, "Chunk encoded to ");
            },
            Outcome::Decoded(result) => {
                self.output_msg = report_line(result, "Chunk data: ");
            },
            Outcome::Removed(result) => {
                self.output_msg = report_line(result, "Chunk removed from ");
            },
            Outcome::Printed(result) => {
                self.output_msg = report_line(result, "PNG data: ");
            },
        }
    }

    /// Whether reading and removing are on offer: a file and a type code are there.
    pub fn able(&self) -> (able: bool)
        ensures
            able == (self@.file_path.len() > 0 && self@.chunk_type.len() > 0),
    {
        !(self.file_path.as_str().is_empty() || self.chunk_type.as_str().is_empty())
    }

    /// Whether encoding is on offer: a file, a type code and a message are there.
    pub fn encode_able(&self) -> (able: bool)
        ensures
            able == (self@.file_path.len() > 0 && self@.chunk_type.len() > 0
                && self@.chunk_data.len() > 0),
    {
        !self.file_path.as_str().is_empty() && !self.chunk_type.as_str().is_empty()
            && !self.chunk_data.as_str().is_empty()
    }

    /// Whether listing is on offer: a file is there.
    pub fn print_able(&self) -> (able: bool)
        ensures
            able == (self@.file_path.len() > 0),
    {
        !self.file_path.as_str().is_empty()
    }
}

/// Whether `text` may stand in the field for the type code.
fn type_input_is_accepted(text: &str) -> (accepted: bool)
    ensures
        accepted == accepts_type_input(text@),
{
    let bytes = text.as_bytes();
    proof {
        lemma_letters_by_bytes(text@);
    }
    if bytes.len() > 4 {
        return false;
    }
    let mut i: usize = 0;
    while i < bytes.len()
        invariant
            i <= bytes@.len(),
            bytes@ == encode_utf8(text@),
            all_letter_chars(text@) <==> all_letter_bytes(bytes@),
            forall|j: int| 0 <= j < i ==> is_letter(#[trigger] bytes@[j]),
        decreases bytes@.len() - i,
    {
        let byte = bytes[i];
        if !(byte >= 0x61 && byte <= 0x7A || (byte >= 0x41 && byte <= 0x5A)) {
            assert(!is_letter(bytes@[i as int]));
            return false;
        }
        i = i + 1;
    }
    true
}

/// The line that reports a finished operation.
fn report_line(result: Result<String, String>, success: &str) -> (line: String)
    ensures
        line@ == report(result, success@),
{
    match result {
        Ok(value) => success.to_owned().concat(value.as_str()),
        Err(e) => "Error: ".to_owned().concat(e.as_str()),
    }
}

} // verus!
