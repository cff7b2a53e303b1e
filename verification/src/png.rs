//! The container: the signature and an ordered list of chunks.
//!
//! The order of the chunks matters. A chunk of the terminal type, `IEND`, is by
//! convention the last one: appending keeps it last, and reading stops after it.

use crate::chunk::{
    chunk_text, frame, lemma_frame_len, lemma_frame_parses_back, lemma_parsed_frame_is_prefix,
    overhead, parse_frame, Chunk, ChunkView,
};
use crate::chunk_type::{valid_code, ChunkType};
use crate::error::Error;
use crate::text::{lemma_text_matches_by_bytes, text_or_placeholder};
use vstd::prelude::*;
use vstd::slice::slice_subrange;
use vstd::std_specs::convert::TryFromSpecImpl;
use vstd::string::StringExecFns;
use vstd::utf8::{encode_utf8, valid_utf8};

verus! {

/// The eight bytes with which every PNG stream begins.
pub open spec fn signature() -> Seq<u8> {
    seq![137u8, 80u8, 78u8, 71u8, 13u8, 10u8, 26u8, 10u8]
}

/// The terminal type code, `IEND`.
pub open spec fn terminal_code() -> Seq<u8> {
    seq![73u8, 69u8, 78u8, 68u8]
}

/// The frames of `chunks`, one after the other.
pub open spec fn frames(chunks: Seq<ChunkView>) -> Seq<u8>
    decreases chunks.len(),
{
    if chunks.len() == 0 {
        Seq::empty()
    } else {
        frames(chunks.drop_last()) + frame(chunks.last().code, chunks.last().data)
    }
}

/// The byte stream of a container: the signature, then the frame of each chunk in order.
pub open spec fn serialize(chunks: Seq<ChunkView>) -> Seq<u8> {
    signature() + frames(chunks)
}

/// `rest` with `head` put before it, where there is a `rest`.
pub open spec fn preceded(head: Seq<ChunkView>, rest: Result<Seq<ChunkView>, Error>) -> Result<
    Seq<ChunkView>,
    Error,
> {
    match rest {
        Ok(chunks) => Ok(head + chunks),
        Err(e) => Err(e),
    }
}

/// The chunks that are read from `bytes`, frame after frame from index `from` on:
/// until a chunk of the terminal type has been read, or the bytes are used up. One
/// frame that fails makes the whole fail, with the frame's offset in `bytes`.
pub open spec fn parse_frames(bytes: Seq<u8>, from: int) -> Result<Seq<ChunkView>, Error>
    recommends
        0 <= from,
    decreases (if from < bytes.len() {
        bytes.len() - from
    } else {
        0
    }),
{
    if from >= bytes.len() {
        Ok(Seq::empty())
    } else {
        match parse_frame(bytes.subrange(from, bytes.len() as int)) {
            Err(e) => Err(e.shifted(from)),
            Ok(chunk) => if chunk.code == terminal_code() {
                Ok(seq![chunk])
            } else {
                preceded(seq![chunk], parse_frames(bytes, from + overhead() + chunk.data.len()))
            },
        }
    }
}

/// The chunks of the container that `bytes` hold: the signature must come first, then
/// frames are read as [`parse_frames`] says. What follows a terminal chunk is ignored.
pub open spec fn parse(bytes: Seq<u8>) -> Result<Seq<ChunkView>, Error> {
    if bytes.len() < 8 || bytes.subrange(0, 8) != signature() {
        Err(Error::BadSignature)
    } else {
        parse_frames(bytes, 8)
    }
}

/// The list after `chunk` was appended: `chunk` stands immediately before a terminal
/// chunk that was last, and at the end where there was none.
pub open spec fn appended(chunks: Seq<ChunkView>, chunk: ChunkView) -> Seq<ChunkView> {
    if chunks.len() > 0 && chunks.last().code == terminal_code() {
        chunks.drop_last().push(chunk).push(chunks.last())
    } else {
        chunks.push(chunk)
    }
}

/// Whether the text of the chunk's type code is `text`.
pub open spec fn has_type(chunk: ChunkView, text: Seq<char>) -> bool {
    text_or_placeholder(chunk.code) == text
}

/// Whether the chunk at index `at` is the first of `chunks` whose type code reads `text`.
pub open spec fn is_first_of_type(chunks: Seq<ChunkView>, text: Seq<char>, at: int) -> bool {
    &&& 0 <= at < chunks.len()
    &&& has_type(chunks[at], text)
    &&& forall|j: int| 0 <= j < at ==> !has_type(#[trigger] chunks[j], text)
}

/// Whether no chunk of `chunks` has a type code that reads `text`.
pub open spec fn none_of_type(chunks: Seq<ChunkView>, text: Seq<char>) -> bool {
    forall|j: int| 0 <= j < chunks.len() ==> !has_type(#[trigger] chunks[j], text)
}

/// The container as text: one line for each chunk, in order.
pub open spec fn rendering(chunks: Seq<ChunkView>) -> Seq<char>
    decreases chunks.len(),
{
    if chunks.len() == 0 {
        Seq::empty()
    } else {
        rendering(chunks.drop_last()) + chunk_text(chunks.last()) + "\n"@
    }
}

/// The views of `chunks`, in order.
pub open spec fn chunk_views(chunks: Seq<Chunk>) -> Seq<ChunkView> {
    chunks.map_values(|c: Chunk| c@)
}

/// A PNG container: an ordered list of chunks behind the fixed signature.
#[derive(Debug, PartialEq)]
pub struct Png {
    chunks: Vec<Chunk>,
}

impl View for Png {
    type V = Seq<ChunkView>;

    open spec fn view(&self) -> Seq<ChunkView> {
        chunk_views(self.spec_chunks())
    }
}

impl Png {
    /// The signature.
    pub const STANDARD_HEADER: [u8; 8] = [137, 80, 78, 71, 13, 10, 26, 10];

    /// The terminal type code, `IEND`.
    pub const TERMINAL_CODE: [u8; 4] = [73, 69, 78, 68];

    /// The chunks of the container, in order.
    pub closed spec fn spec_chunks(&self) -> Seq<Chunk> {
        self.chunks@
    }

    /// The container that holds `chunks` in the order given. Nothing is checked.
    pub fn from_chunks(chunks: Vec<Chunk>) -> (png: Png)
        ensures
            png.spec_chunks() == chunks@,
            png@ == chunk_views(chunks@),
    {
        Png { chunks }
    }

    /// The signature.
    pub fn header(&self) -> (header: &[u8; 8])
        ensures
            header@ == signature(),
    {
        &Png::STANDARD_HEADER
    }

    /// The chunks of the container, in order.
    pub fn chunks(&self) -> (chunks: &[Chunk])
        ensures
            chunks@ == self.spec_chunks(),
    {
        self.chunks.as_slice()
    }

    /// Puts `chunk` into the list: immediately before the last chunk where that one is
    /// of the terminal type, at the end otherwise.
    pub fn append_chunk(&mut self, chunk: Chunk)
        ensures
            final(self)@ == appended(old(self)@, chunk@),
    {
        let count = self.chunks.len();
        if count > 0 && is_terminal(self.chunks[count - 1].chunk_type()) {
            self.chunks.insert(count - 1, chunk);
            assert(final(self)@ =~= appended(old(self)@, chunk@));
        } else {
            self.chunks.push(chunk);
            assert(final(self)@ =~= appended(old(self)@, chunk@));
        }
    }

    /// Takes out the first chunk whose type code reads `chunk_type` and returns it. The
    /// chunks that stay keep their order. Where there is no such chunk, nothing changes.
    pub fn remove_first_chunk(&mut self, chunk_type: &str) -> (removed: Result<Chunk, Error>)
        ensures
            match removed {
                Ok(chunk) => exists|at: int|
                    {
                        &&& is_first_of_type(old(self)@, chunk_type@, at)
                        &&& chunk@ == old(self)@[at]
                        &&& final(self)@ == old(self)@.remove(at)
                    },
                Err(e) => {
                    &&& none_of_type(old(self)@, chunk_type@)
                    &&& final(self)@ == old(self)@
                    &&& e matches Error::ChunkNotFound { code }
                    &&& code@ == chunk_type@
                },
            },
    {
        match self.position(chunk_type) {
            Some(at) => {
                let chunk = self.chunks.remove(at);
                assert(final(self)@ =~= old(self)@.remove(at as int));
                Ok(chunk)
            },
            None => Err(Error::ChunkNotFound { code: chunk_type.to_owned() }),
        }
    }

    /// The first chunk whose type code reads `chunk_type`, if there is one.
    pub fn chunk_by_type(&self, chunk_type: &str) -> (found: Option<&Chunk>)
        ensures
            match found {
                Some(chunk) => exists|at: int|
                    {
                        &&& is_first_of_type(self@, chunk_type@, at)
                        &&& *chunk == self.spec_chunks()[at]
                    },
                None => none_of_type(self@, chunk_type@),
            },
    {
        match self.position(chunk_type) {
            Some(at) => Some(&self.chunks[at]),
            None => None,
        }
    }

    /// The byte stream of the container: see [`serialize`].
    pub fn as_bytes(&self) -> (bytes: Vec<u8>)
        ensures
            bytes@ == serialize(self@),
    {
        let mut bytes: Vec<u8> = Vec::new();
        bytes.extend_from_slice(Png::STANDARD_HEADER.as_slice());
        let mut i: usize = 0;
        while i < self.chunks.len()
            invariant
                i <= self.chunks@.len(),
                bytes@ == signature() + frames(self@.take(i as int)),
            decreases self.chunks@.len() - i,
        {
            let written = self.chunks[i].as_bytes();
            bytes.extend_from_slice(written.as_slice());
            proof {
                let next = self@.take(i + 1);
                assert(next.drop_last() == self@.take(i as int));
                assert(next.last() == self@[i as int]);
            }
            i = i + 1;
        }
        proof {
            assert(self@.take(i as int) == self@);
        }
        bytes
    }

    /// The container as text: see [`rendering`].
    pub fn to_string(&self) -> (text: String)
        ensures
            text@ == rendering(self@),
    {
        let mut text = String::new();
        let mut i: usize = 0;
        while i < self.chunks.len()
            invariant
                i <= self.chunks@.len(),
                text@ == rendering(self@.take(i as int)),
            decreases self.chunks@.len() - i,
        {
            let line = self.chunks[i].to_string();
            text.append(line.as_str());
            text.append("\n");
            proof {
                let next = self@.take(i + 1);
                assert(next.drop_last() == self@.take(i as int));
                assert(next.last() == self@[i as int]);
            }
            i = i + 1;
        }
        proof {
            assert(self@.take(i as int) == self@);
        }
        text
    }

    /// The index of the first chunk whose type code reads `chunk_type`.
    fn position(&self, chunk_type: &str) -> (found: Option<usize>)
        ensures
            match found {
                Some(at) => is_first_of_type(self@, chunk_type@, at as int),
                None => none_of_type(self@, chunk_type@),
            },
    {
        let wanted = chunk_type.to_owned();
        let mut i: usize = 0;
        while i < self.chunks.len()
            invariant
                i <= self.chunks@.len(),
                wanted@ == chunk_type@,
                forall|j: int| 0 <= j < i ==> !has_type(#[trigger] self@[j], chunk_type@),
            decreases self.chunks@.len() - i,
        {
            if self.chunks[i].chunk_type().to_string() == wanted {
                return Some(i);
            }
            i = i + 1;
        }
        None
    }
}

/// Whether `chunk_type` is the terminal type code.
fn is_terminal(chunk_type: &ChunkType) -> (terminal: bool)
    ensures
        terminal == (chunk_type@ == terminal_code()),
{
    let bytes = chunk_type.bytes();
    let code = Png::TERMINAL_CODE;
    let terminal = bytes[0] == code[0] && bytes[1] == code[1] && bytes[2] == code[2] && bytes[3]
        == code[3];
    proof {
        assert(code@ =~= terminal_code());
        if terminal {
            assert(chunk_type@ =~= terminal_code());
        }
    }
    terminal
}

/// Whether `bytes` begin with the signature.
fn starts_with_signature(bytes: &[u8]) -> (starts: bool)
    requires
        bytes@.len() >= 8,
    ensures
        starts == (bytes@.subrange(0, 8) == signature()),
{
    let mut i: usize = 0;
    while i < 8
        invariant
            i <= 8,
            bytes@.len() >= 8,
            forall|j: int| 0 <= j < i ==> bytes@[j] == signature()[j],
        decreases 8 - i,
    {
        if bytes[i] != Png::STANDARD_HEADER[i] {
            assert(bytes@.subrange(0, 8)[i as int] != signature()[i as int]);
            return false;
        }
        i = i + 1;
    }
    assert(bytes@.subrange(0, 8) =~= signature());
    true
}

proof fn lemma_preceded_in_turn(
    head: Seq<ChunkView>,
    chunk: ChunkView,
    rest: Result<Seq<ChunkView>, Error>,
)
    ensures
        preceded(head, preceded(seq![chunk], rest)) == preceded(head.push(chunk), rest),
{
    if let Ok(chunks) = rest {
        assert(head + (seq![chunk] + chunks) =~= head.push(chunk) + chunks);
    }
}

impl<'a> core::convert::TryFrom<&'a [u8]> for Png {
    type Error = Error;

    /// The container that `bytes` hold: see [`parse`].
    fn try_from(bytes: &'a [u8]) -> (read: Result<Png, Error>)
        ensures
            match parse(bytes@) {
                Ok(chunks) => read matches Ok(png) && png@ == chunks,
                Err(e) => read == Err::<Png, Error>(e),
            },
    {
        if bytes.len() < 8 || !starts_with_signature(bytes) {
            return Err(Error::BadSignature);
        }
        let mut chunks: Vec<Chunk> = Vec::new();
        let mut cursor: usize = 8;
        assert(chunk_views(chunks@) =~= Seq::empty());
        assert(preceded(Seq::empty(), parse_frames(bytes@, 8)) == parse_frames(bytes@, 8)) by {
            if let Ok(all) = parse_frames(bytes@, 8) {
                assert(Seq::<ChunkView>::empty() + all =~= all);
            }
        }
        while cursor < bytes.len()
            invariant
                8 <= cursor <= bytes@.len(),
                parse(bytes@) == parse_frames(bytes@, 8),
                parse_frames(bytes@, 8) == preceded(
                    chunk_views(chunks@),
                    parse_frames(bytes@, cursor as int),
                ),
            decreases bytes@.len() - cursor,
        {
            let ghost before = chunk_views(chunks@);
            let ghost from = cursor as int;
            match Chunk::try_from(slice_subrange(bytes, cursor, bytes.len())) {
                Err(e) => {
                    return Err(e.shift(cursor));
                },
                Ok(chunk) => {
                    proof {
                        lemma_preceded_in_turn(
                            before,
                            chunk@,
                            parse_frames(bytes@, from + overhead() + chunk@.data.len()),
                        );
                    }
                    let terminal = is_terminal(chunk.chunk_type());
                    cursor = cursor + Chunk::METADATA_SIZE + chunk.data().len();
                    chunks.push(chunk);
                    assert(chunk_views(chunks@) =~= before.push(chunk@));
                    if terminal {
                        assert(before + seq![chunk@] =~= before.push(chunk@));
                        return Ok(Png { chunks });
                    }
                },
            }
        }
        assert(chunk_views(chunks@) + Seq::empty() =~= chunk_views(chunks@));
        Ok(Png { chunks })
    }
}

impl<'a> TryFromSpecImpl<&'a [u8]> for Png {
    /// A container owns vectors, and two vectors with the same content are not known to
    /// be the same value: what `try_from` returns is stated on the function itself,
    /// over the container's view.
    open spec fn obeys_try_from_spec() -> bool {
        false
    }

    open spec fn try_from_spec(bytes: &'a [u8]) -> Result<Png, Error> {
        match parse(bytes@) {
            Ok(chunks) => Ok(choose|png: Png| png@ == chunks),
            Err(e) => Err(e),
        }
    }
}

/// The frames of a list that begins with `chunk` are the frame of `chunk`, then the
/// frames of the others.
pub proof fn lemma_frames_of_first_and_rest(chunk: ChunkView, rest: Seq<ChunkView>)
    ensures
        frames(seq![chunk] + rest) == frame(chunk.code, chunk.data) + frames(rest),
    decreases rest.len(),
{
    let all = seq![chunk] + rest;
    if rest.len() == 0 {
        assert(all.drop_last() =~= Seq::empty());
        assert(frames(all.drop_last()) =~= Seq::empty());
    } else {
        lemma_frames_of_first_and_rest(chunk, rest.drop_last());
        assert(all.drop_last() =~= seq![chunk] + rest.drop_last());
        assert(all.last() == rest.last());
    }
    assert(frames(all) =~= frame(chunk.code, chunk.data) + frames(rest));
}

/// Appending and writing: the new chunk's frame stands immediately before the frame
/// of a terminal chunk that was last, so that the stream still ends with the terminal
/// frame; without such a chunk the new frame is the end of the stream.
pub proof fn lemma_appended_serializes(chunks: Seq<ChunkView>, chunk: ChunkView)
    ensures
        serialize(appended(chunks, chunk)) == if chunks.len() > 0 && chunks.last().code
            == terminal_code() {
            serialize(chunks.drop_last()) + frame(chunk.code, chunk.data) + frame(
                chunks.last().code,
                chunks.last().data,
            )
        } else {
            serialize(chunks) + frame(chunk.code, chunk.data)
        },
{
    if chunks.len() > 0 && chunks.last().code == terminal_code() {
        let inner = chunks.drop_last().push(chunk);
        let last = chunks.last();
        assert(inner.push(last).drop_last() =~= inner);
        assert(inner.drop_last() =~= chunks.drop_last());
        assert(frames(inner) == frames(chunks.drop_last()) + frame(chunk.code, chunk.data));
        assert(frames(inner.push(last)) == frames(inner) + frame(last.code, last.data));
        assert(serialize(appended(chunks, chunk)) =~= serialize(chunks.drop_last()) + frame(
            chunk.code,
            chunk.data,
        ) + frame(chunks.last().code, chunks.last().data));
    } else {
        assert(chunks.push(chunk).drop_last() =~= chunks);
        assert(frames(chunks.push(chunk)) == frames(chunks) + frame(chunk.code, chunk.data));
        assert(serialize(appended(chunks, chunk)) =~= serialize(chunks) + frame(
            chunk.code,
            chunk.data,
        ));
    }
}

proof fn lemma_parse_frames_step(bytes: Seq<u8>, from: int) -> (step: (ChunkView, int))
    requires
        0 <= from < bytes.len(),
        parse_frames(bytes, from) is Ok,
    ensures
        ({
            let (chunk, next) = step;
            &&& from < next <= bytes.len()
            &&& valid_code(chunk.code)
            &&& chunk.data.len() <= u32::MAX
            &&& frame(chunk.code, chunk.data) == bytes.subrange(from, next)
            &&& chunk.code == terminal_code() ==> parse_frames(bytes, from)->Ok_0 == seq![chunk]
            &&& chunk.code != terminal_code() ==> {
                &&& parse_frames(bytes, next) is Ok
                &&& parse_frames(bytes, from)->Ok_0 == seq![chunk] + parse_frames(bytes, next)->Ok_0
            }
        }),
{
    let tail = bytes.subrange(from, bytes.len() as int);
    let chunk = parse_frame(tail)->Ok_0;
    let next = from + overhead() + chunk.data.len();
    lemma_parsed_frame_is_prefix(tail);
    assert(tail.subrange(0, next - from) == bytes.subrange(from, next));
    (chunk, next)
}

proof fn lemma_frames_of_one(chunk: ChunkView)
    ensures
        frames(seq![chunk]) == frame(chunk.code, chunk.data),
{
    lemma_frames_of_first_and_rest(chunk, Seq::empty());
    assert(seq![chunk] + Seq::empty() =~= seq![chunk]);
    assert(frames(Seq::empty()) =~= Seq::empty());
    assert(frame(chunk.code, chunk.data) + Seq::empty() =~= frame(chunk.code, chunk.data));
}

proof fn lemma_parsed_frames_are_prefix(bytes: Seq<u8>, from: int)
    requires
        0 <= from <= bytes.len(),
        parse_frames(bytes, from) is Ok,
    ensures
        ({
            let chunks = parse_frames(bytes, from)->Ok_0;
            let end = from + frames(chunks).len();
            &&& end <= bytes.len()
            &&& frames(chunks) == bytes.subrange(from, end)
            &&& end < bytes.len() ==> chunks.len() > 0 && chunks.last().code == terminal_code()
        }),
    decreases bytes.len() - from,
{
    let chunks = parse_frames(bytes, from)->Ok_0;
    if from < bytes.len() {
        let (chunk, next) = lemma_parse_frames_step(bytes, from);
        if chunk.code == terminal_code() {
            lemma_frames_of_one(chunk);
        } else {
            let rest = parse_frames(bytes, next)->Ok_0;
            lemma_parsed_frames_are_prefix(bytes, next);
            lemma_frames_of_first_and_rest(chunk, rest);
            let end = next + frames(rest).len();
            assert(bytes.subrange(from, next) + bytes.subrange(next, end) == bytes.subrange(
                from,
                end,
            ));
            if rest.len() > 0 {
                assert(chunks.last() == rest.last());
            }
        }
    } else {
        assert(frames(chunks) =~= bytes.subrange(from, from));
    }
}

/// Writing what was read: where `bytes` hold a container, the stream written from the
/// chunks that were read is `bytes` again, up to where reading stopped. Reading stops
/// before the end of `bytes` only after a terminal chunk: where nothing follows the
/// terminal chunk, the stream written is all of `bytes`.
pub proof fn lemma_parsed_png_serializes_back(bytes: Seq<u8>)
    requires
        parse(bytes) is Ok,
    ensures
        ({
            let chunks = parse(bytes)->Ok_0;
            let written = serialize(chunks);
            &&& written.len() <= bytes.len()
            &&& written == bytes.subrange(0, written.len() as int)
            &&& written.len() == bytes.len() ==> written == bytes
            &&& written.len() < bytes.len() ==> chunks.len() > 0 && chunks.last().code
                == terminal_code()
        }),
{
    let chunks = parse(bytes)->Ok_0;
    lemma_parsed_frames_are_prefix(bytes, 8);
    let end = 8 + frames(chunks).len() as int;
    assert(bytes.subrange(0, 8) + bytes.subrange(8, end) == bytes.subrange(0, end));
    assert(bytes.subrange(0, bytes.len() as int) == bytes);
}

/// Whether a stream written from `chunks` reads back as `chunks`: every type code is
/// valid, every payload's length fits the length field, and no chunk but the last is
/// of the terminal type.
pub open spec fn reads_back(chunks: Seq<ChunkView>) -> bool {
    forall|i: int|
        0 <= i < chunks.len() ==> {
            &&& valid_code((#[trigger] chunks[i]).code)
            &&& chunks[i].data.len() <= u32::MAX
            &&& chunks[i].code == terminal_code() ==> i == chunks.len() - 1
        }
}

proof fn lemma_first_written_frame(before: Seq<u8>, chunk: ChunkView, after: Seq<u8>)
    requires
        valid_code(chunk.code),
        chunk.data.len() <= u32::MAX,
    ensures
        ({
            let written = frame(chunk.code, chunk.data);
            let bytes = before + written + after;
            parse_frames(bytes, before.len() as int) == if chunk.code == terminal_code() {
                Ok::<Seq<ChunkView>, Error>(seq![chunk])
            } else {
                preceded(seq![chunk], parse_frames(bytes, (before + written).len() as int))
            }
        }),
{
    let written = frame(chunk.code, chunk.data);
    let bytes = before + written + after;
    let from = before.len() as int;
    let tail = bytes.subrange(from, bytes.len() as int);
    assert(tail == written + after);
    assert(parse_frame(tail) == Ok::<ChunkView, Error>(chunk)) by {
        lemma_frame_parses_back(chunk.code, chunk.data, after);
    }
    assert((before + written).len() == from + overhead() + chunk.data.len()) by {
        lemma_frame_len(chunk.code, chunk.data);
    }
}

proof fn lemma_written_frames_parse_back(before: Seq<u8>, chunks: Seq<ChunkView>)
    requires
        reads_back(chunks),
    ensures
        parse_frames(before + frames(chunks), before.len() as int) == Ok::<Seq<ChunkView>, Error>(
            chunks,
        ),
    decreases chunks.len(),
{
    if chunks.len() == 0 {
        assert(chunks =~= Seq::empty());
        assert(before + frames(chunks) =~= before);
    } else {
        let chunk = chunks[0];
        let rest = chunks.drop_first();
        let written = frame(chunk.code, chunk.data);
        assert(chunks =~= seq![chunk] + rest);
        lemma_frames_of_first_and_rest(chunk, rest);
        assert(before + frames(chunks) =~= before + written + frames(rest));
        lemma_first_written_frame(before, chunk, frames(rest));
        if chunk.code == terminal_code() {
            assert(rest =~= Seq::empty());
        } else {
            assert forall|i: int| 0 <= i < rest.len() implies {
                &&& valid_code((#[trigger] rest[i]).code)
                &&& rest[i].data.len() <= u32::MAX
                &&& rest[i].code == terminal_code() ==> i == rest.len() - 1
            } by {
                assert(rest[i] == chunks[i + 1]);
            }
            lemma_written_frames_parse_back(before + written, rest);
        }
    }
}

proof fn lemma_parsed_frames_read_back(bytes: Seq<u8>, from: int)
    requires
        0 <= from <= bytes.len(),
        parse_frames(bytes, from) is Ok,
    ensures
        reads_back(parse_frames(bytes, from)->Ok_0),
    decreases bytes.len() - from,
{
    let chunks = parse_frames(bytes, from)->Ok_0;
    if from < bytes.len() {
        let (chunk, next) = lemma_parse_frames_step(bytes, from);
        if chunk.code != terminal_code() {
            let rest = parse_frames(bytes, next)->Ok_0;
            lemma_parsed_frames_read_back(bytes, next);
            assert forall|i: int| 0 <= i < chunks.len() implies {
                &&& valid_code((#[trigger] chunks[i]).code)
                &&& chunks[i].data.len() <= u32::MAX
                &&& chunks[i].code == terminal_code() ==> i == chunks.len() - 1
            } by {
                if i > 0 {
                    assert(chunks[i] == rest[i - 1]);
                }
            }
        }
    }
}

/// What was read can be written and read again: the chunks of a stream that parses
/// satisfy [`reads_back`].
pub proof fn lemma_parsed_png_reads_back(bytes: Seq<u8>)
    requires
        parse(bytes) is Ok,
    ensures
        reads_back(parse(bytes)->Ok_0),
{
    lemma_parsed_frames_read_back(bytes, 8);
}

/// Reading what was written: the stream written from chunks that satisfy
/// [`reads_back`] parses to those chunks.
pub proof fn lemma_serialized_png_parses_back(chunks: Seq<ChunkView>)
    requires
        reads_back(chunks),
    ensures
        parse(serialize(chunks)) == Ok::<Seq<ChunkView>, Error>(chunks),
{
    lemma_written_frames_parse_back(signature(), chunks);
    assert(serialize(chunks).subrange(0, 8) =~= signature());
}

/// A type code that is well-formed UTF-8 reads as `text` exactly when its bytes are
/// the bytes of `text`. Every valid type code is such a code.
pub proof fn lemma_has_type_by_bytes(chunk: ChunkView, text: Seq<char>)
    requires
        valid_utf8(chunk.code),
    ensures
        has_type(chunk, text) <==> chunk.code == encode_utf8(text),
{
    lemma_text_matches_by_bytes(chunk.code, text);
}

} // verus!
