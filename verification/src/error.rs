//! The error kinds of the codec.

use vstd::prelude::*;

verus! {

/// Why an operation of this crate failed.
///
/// An `offset` is the index, in the buffer that was handed to the failing function, of the
/// first byte of the item that could not be accepted: the chunk frame for the framing
/// errors, the type code where a type code alone was handed in.
#[derive(Debug, PartialEq, Eq)]
pub enum Error {
    /// The buffer does not begin with the eight signature bytes.
    BadSignature,
    /// The buffer ends before the frame that begins at `offset` is complete.
    TooShort { offset: usize },
    /// A type code holds a byte that is no ASCII letter, has its reserved bit set, or is
    /// not four bytes long.
    InvalidChunkType { offset: usize },
    /// A payload that was asked for as text is not valid UTF-8.
    InvalidUtf8,
    /// The checksum stored in the frame that begins at `offset` is not the checksum of
    /// its type code and payload.
    CrcMismatch { offset: usize },
    /// No chunk of the container has the type code `code`.
    ChunkNotFound { code: String },
}

impl Error {
    /// The same kind of error, reported for a frame that begins `base` bytes further on.
    pub open spec fn shifted(self, base: int) -> Error {
        match self {
            Error::TooShort { offset } => Error::TooShort { offset: (offset + base) as usize },
            Error::InvalidChunkType { offset } => Error::InvalidChunkType {
                offset: (offset + base) as usize,
            },
            Error::CrcMismatch { offset } => Error::CrcMismatch { offset: (offset + base) as usize },
            other => other,
        }
    }

    /// The offset that the error carries, or zero where its kind carries none.
    pub open spec fn spec_offset(self) -> usize {
        match self {
            Error::TooShort { offset } => offset,
            Error::InvalidChunkType { offset } => offset,
            Error::CrcMismatch { offset } => offset,
            _ => 0,
        }
    }

    /// The same kind of error, reported for a frame that begins `base` bytes further on.
    pub(crate) fn shift(self, base: usize) -> (moved: Error)
        requires
            self.spec_offset() + base <= usize::MAX,
        ensures
            moved == self.shifted(base as int),
    {
        match self {
            Error::TooShort { offset } => Error::TooShort { offset: offset + base },
            Error::InvalidChunkType { offset } => Error::InvalidChunkType { offset: offset + base },
            Error::CrcMismatch { offset } => Error::CrcMismatch { offset: offset + base },
            other => other,
        }
    }
}

} // verus!
