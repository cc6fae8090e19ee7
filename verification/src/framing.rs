//! The wire format, as a specification.
//!
//! ```text
//! stream      := chunk* last-chunk
//! chunk       := size CRLF payload CRLF
//! last-chunk  := "0" CRLF CRLF
//! size        := 1*HEXDIG
//! ```
//!
//! A stream is described here by the chunks it is made of, the closing chunk
//! being the one with no payload.

use vstd::prelude::*;
use vstd::utf8::is_ascii_chars;
use crate::model::hex_digit;

verus! {

/// The line ending of the framing.
pub open spec fn crlf() -> Seq<char> {
    seq!['\r', '\n']
}

/// Whether `digits` can stand as a size: one hexadecimal digit or more.
pub open spec fn is_size_line(digits: Seq<char>) -> bool {
    &&& digits.len() > 0
    &&& forall|i: int| 0 <= i < digits.len() ==> (#[trigger] hex_digit(digits[i])) is Some
}

/// The number that `digits` denote when they follow digits that denote
/// `start`. A character that is no digit counts as zero.
pub open spec fn size_value_from(start: nat, digits: Seq<char>) -> nat
    decreases digits.len(),
{
    if digits.len() == 0 {
        start
    } else {
        size_value_from(start, digits.drop_last()) * 16 + match hex_digit(digits.last()) {
            Some(d) => d,
            None => 0,
        }
    }
}

/// The number that `digits` denote in base sixteen.
pub open spec fn size_value(digits: Seq<char>) -> nat {
    size_value_from(0, digits)
}

/// A chunk as it is written: the digits of its size line and its payload.
pub struct Chunk {
    pub size: Seq<char>,
    pub payload: Seq<char>,
}

impl Chunk {
    /// Whether the chunk can be written and decoded: its size line gives the
    /// length of its payload, which fits in `usize`, and the payload is
    /// ASCII.
    pub open spec fn well_formed(self) -> bool {
        &&& is_size_line(self.size)
        &&& size_value(self.size) == self.payload.len()
        &&& self.payload.len() <= usize::MAX
        &&& is_ascii_chars(self.payload)
    }

    /// The characters of the chunk on the wire.
    pub open spec fn wire(self) -> Seq<char> {
        self.size + crlf() + self.payload + crlf()
    }
}

/// Whether `chunks` make a stream: each is well formed, and the last one,
/// and no other, has no payload.
pub open spec fn is_stream(chunks: Seq<Chunk>) -> bool {
    &&& chunks.len() > 0
    &&& forall|i: int| 0 <= i < chunks.len() ==> (#[trigger] chunks[i]).well_formed()
    &&& forall|i: int|
        0 <= i < chunks.len() ==> ((#[trigger] chunks[i]).payload.len() == 0 <==> i == chunks.len()
            - 1)
}

/// The characters of `chunks` on the wire, one chunk after the other.
pub open spec fn stream(chunks: Seq<Chunk>) -> Seq<char>
    decreases chunks.len(),
{
    if chunks.len() == 0 {
        Seq::empty()
    } else {
        chunks.first().wire() + stream(chunks.drop_first())
    }
}

/// The payloads of `chunks`, in order.
pub open spec fn payloads(chunks: Seq<Chunk>) -> Seq<Seq<char>> {
    chunks.map_values(|c: Chunk| c.payload)
}

/// The lower-case hexadecimal digit of value `d`, for `d` below sixteen.
pub open spec fn digit_char(d: nat) -> char {
    if d < 10 {
        ((d + 0x30) as u8) as char
    } else {
        ((d - 10 + 0x61) as u8) as char
    }
}

/// The digits of `n` in base sixteen, in lower case and without leading
/// zeros: `n` as a writer of the framing puts it.
pub open spec fn hex_digits(n: nat) -> Seq<char>
    decreases n,
{
    if n < 16 {
        seq![digit_char(n)]
    } else {
        hex_digits(n / 16).push(digit_char(n % 16))
    }
}

/// The chunks that carry `parts`, each part in a chunk of its own, followed
/// by the closing chunk.
pub open spec fn encode(parts: Seq<Seq<char>>) -> Seq<Chunk> {
    parts.map_values(|part: Seq<char>| Chunk { size: hex_digits(part.len()), payload: part }).push(
        Chunk { size: hex_digits(0), payload: Seq::empty() },
    )
}

} // verus!
