//! The ways in which decoding a chunked stream can fail.

use vstd::prelude::*;

verus! {

/// Why a decoder refused its input. Every error is final: a decoder that has
/// reported one is not meant to be fed again.
#[derive(Debug, Clone, Copy, PartialEq, Eq)]
pub enum DecodeError {
    /// A fragment holds a character outside the ASCII range.
    NonAsciiInput,
    /// A carriage return inside a size line was not followed by a line feed.
    ExpectedLfAfterCrInSizeLine,
    /// A size line ended before any hexadecimal digit was read.
    EmptyChunkSize,
    /// A size line holds a character that is neither a hexadecimal digit nor
    /// part of its line ending.
    InvalidChunkSize,
    /// A chunk size does not fit in `usize`.
    ChunkSizeOverflow,
    /// The line ending owed after a payload, or after the closing size line,
    /// is not there.
    ExpectedCrlf,
    /// The stream stopped before its closing marker.
    NotFinished,
}

impl DecodeError {
    /// The text that describes this error to a person.
    pub open spec fn description(self) -> Seq<char> {
        match self {
            DecodeError::NonAsciiInput => {
                "Non-ASCII input is not supported (this repo assumes ASCII payload)."@
            },
            DecodeError::ExpectedLfAfterCrInSizeLine => {
                "Invalid chunked encoding: expected LF after CR in size line."@
            },
            DecodeError::EmptyChunkSize => "Invalid chunk size: \"\""@,
            DecodeError::InvalidChunkSize => "Invalid chunk size."@,
            DecodeError::ChunkSizeOverflow => "Invalid chunk size (overflow)."@,
            DecodeError::ExpectedCrlf => "Invalid chunked encoding: expected CRLF."@,
            DecodeError::NotFinished => "Chunked stream not finished."@,
        }
    }

    /// Returns the description of this error.
    pub fn message(&self) -> (text: &'static str)
        ensures
            text@ == self.description(),
    {
        match self {
            DecodeError::NonAsciiInput => {
                "Non-ASCII input is not supported (this repo assumes ASCII payload)."
            },
            DecodeError::ExpectedLfAfterCrInSizeLine => {
                "Invalid chunked encoding: expected LF after CR in size line."
            },
            DecodeError::EmptyChunkSize => "Invalid chunk size: \"\"",
            DecodeError::InvalidChunkSize => "Invalid chunk size.",
            DecodeError::ChunkSizeOverflow => "Invalid chunk size (overflow).",
            DecodeError::ExpectedCrlf => "Invalid chunked encoding: expected CRLF.",
            DecodeError::NotFinished => "Chunked stream not finished.",
        }
    }
}

} // verus!
