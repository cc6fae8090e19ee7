//! The streaming decoder and its collecting companion.

use vstd::prelude::*;
use vstd::string::{is_ascii_spec_bytes, StrSliceExecFns};
use vstd::utf8::is_ascii_chars;
use crate::error::DecodeError;
use crate::model::{feed, hex_digit, scan, Outcome, Phase};
use crate::sink::{absorb_all, lemma_absorb_first, lemma_string_absorbs_payload, PayloadSink};

verus! {

const CR: u8 = 13;

const LF: u8 = 10;

#[derive(Debug, Clone, Copy, PartialEq, Eq)]
enum State {
    Size,
    Payload,
    ExpectCrlf,
    Done,
}

#[derive(Debug, Clone, Copy, PartialEq, Eq)]
enum AfterExpect {
    Size,
    Done,
}

/// The value of the hexadecimal digit `b`, in either case; `None` if `b` is
/// no such digit.
pub fn hex_value(b: u8) -> (value: Option<u8>)
    ensures
        match hex_digit(b as char) {
            Some(d) => value == Some(d as u8),
            None => value is None,
        },
{
    if b >= 0x30 && b <= 0x39 {
        Some(b - 0x30)
    } else if b >= 0x61 && b <= 0x66 {
        Some(b - 0x61 + 10)
    } else if b >= 0x41 && b <= 0x46 {
        Some(b - 0x41 + 10)
    } else {
        None
    }
}

/// A decoder of the chunked framing that takes the stream in fragments and
/// hands out the payload as it comes, keeping nothing of either.
#[derive(Debug)]
pub struct ChunkedDecoder {
    state: State,
    // While a size line is read: its value so far, the number of its digits
    // (counted up to `usize::MAX`), and whether its carriage return was seen.
    size_acc: usize,
    size_digits: usize,
    saw_cr: bool,
    // While a payload is read: the number of characters still owed.
    remaining: usize,
    // While a line ending is awaited: 0 before its carriage return, 1 after,
    // and where to go once it is complete.
    expect_index: u8,
    after_expect: AfterExpect,
}

impl View for ChunkedDecoder {
    type V = Phase;

    closed spec fn view(&self) -> Phase {
        match self.state {
            State::Size => Phase::Size {
                value: self.size_acc as nat,
                has_digits: self.size_digits > 0,
                saw_cr: self.saw_cr,
            },
            State::Payload => Phase::Payload { remaining: self.remaining as nat },
            State::ExpectCrlf => Phase::ExpectCrlf {
                saw_cr: self.expect_index != 0,
                last: self.after_expect is Done,
            },
            State::Done => Phase::Done,
        }
    }
}

impl ChunkedDecoder {
    /// Outside a size line, the fields that describe one are at rest, so that
    /// the next size line starts from nothing.
    #[verifier::type_invariant]
    spec fn size_line_at_rest(self) -> bool {
        !(self.state is Size) ==> self.size_acc == 0 && self.size_digits == 0 && !self.saw_cr
    }

    /// A decoder at the start of a stream.
    pub fn new() -> (decoder: Self)
        ensures
            decoder@ == Phase::start(),
    {
        Self {
            state: State::Size,
            size_acc: 0,
            size_digits: 0,
            saw_cr: false,
            remaining: 0,
            expect_index: 0,
            after_expect: AfterExpect::Size,
        }
    }

    /// Whether the closing marker of the stream has been read.
    pub fn is_done(&self) -> (done: bool)
        ensures
            done == (self@ is Done),
    {
        matches!(self.state, State::Done)
    }

    /// Checks, once all input has been fed, that the stream ended with its
    /// closing marker: `NotFinished` tells that it was cut short.
    pub fn finalize(&self) -> (result: Result<(), DecodeError>)
        ensures
            result == if self@ is Done {
                Ok::<(), DecodeError>(())
            } else {
                Err::<(), DecodeError>(DecodeError::NotFinished)
            },
    {
        if self.is_done() {
            Ok(())
        } else {
            Err(DecodeError::NotFinished)
        }
    }

    /// Feeds the next fragment of the stream, handing each payload run that
    /// it holds to `on_data`.
    ///
    /// The outcome is that of [`feed`]: the result, the phase the decoder is
    /// left in, and the runs that `on_data` has been handed, in order. A
    /// decoder past the closing marker accepts any fragment and does nothing
    /// with it; a fragment that is not ASCII is refused before anything
    /// happens.
    pub fn decode_chunk<S: PayloadSink>(&mut self, chunk: &str, on_data: &mut S) -> (result: Result<
        (),
        DecodeError,
    >)
        ensures
            result == feed(old(self)@, chunk@).result,
            final(self)@ == feed(old(self)@, chunk@).phase,
            final(on_data).model() == absorb_all::<S>(
                old(on_data).model(),
                feed(old(self)@, chunk@).runs,
            ),
            old(self)@ is Done ==> result is Ok && *final(self) == *old(self)
                && final(on_data).model() == old(on_data).model(),
            !(old(self)@ is Done) && !is_ascii_chars(chunk@) ==> result == Err::<(), DecodeError>(
                DecodeError::NonAsciiInput,
            ) && *final(self) == *old(self) && final(on_data).model() == old(on_data).model(),
    {
        if matches!(self.state, State::Done) {
            return Ok(());
        }
        if !chunk.is_ascii() {
            return Err(DecodeError::NonAsciiInput);
        }
        let bytes = chunk.as_bytes();
        proof {
            is_ascii_spec_bytes(chunk);
        }
        let ghost goal = feed(old(self)@, chunk@);
        let ghost handed = absorb_all::<S>(old(on_data).model(), goal.runs);
        let mut i: usize = 0;
        assert(chunk@.skip(0) =~= chunk@);
        while i < bytes.len()
            invariant
                chunk.is_ascii(),
                bytes@.len() == chunk@.len(),
                forall|k: int| 0 <= k < chunk@.len() ==> bytes@[k] as char == chunk@[k],
                i <= bytes.len(),
                !(old(self)@ is Done),
                goal == feed(old(self)@, chunk@),
                handed == absorb_all::<S>(old(on_data).model(), goal.runs),
                scan(self@, chunk@.skip(i as int)).result == goal.result,
                scan(self@, chunk@.skip(i as int)).phase == goal.phase,
                absorb_all::<S>(on_data.model(), scan(self@, chunk@.skip(i as int)).runs)
                    == handed,
            decreases bytes.len() - i, (if self.state is Payload { 1nat } else { 0nat }),
        {
            let ghost rest = chunk@.skip(i as int);
            proof {
                use_type_invariant(&*self);
                assert(rest.len() > 0);
                assert(rest[0] == chunk@[i as int]);
                assert(rest.skip(1) =~= chunk@.skip(i + 1));
            }
            match self.state {
                State::Size => {
                    let b = bytes[i];
                    i += 1;
                    if self.saw_cr {
                        if b != LF {
                            return Err(DecodeError::ExpectedLfAfterCrInSizeLine);
                        }
                        self.saw_cr = false;
                        if self.size_digits == 0 {
                            return Err(DecodeError::EmptyChunkSize);
                        }
                        let n = self.size_acc;
                        self.size_acc = 0;
                        self.size_digits = 0;
                        self.remaining = n;
                        if n == 0 {
                            self.start_expect_crlf(AfterExpect::Done);
                        } else {
                            self.state = State::Payload;
                        }
                    } else if b == CR {
                        self.saw_cr = true;
                    } else {
                        let d = match hex_value(b) {
                            Some(d) => d,
                            None => {
                                return Err(DecodeError::InvalidChunkSize);
                            },
                        };
                        let folded = match self.size_acc.checked_mul(16) {
                            Some(v) => v.checked_add(d as usize),
                            None => None,
                        };
                        match folded {
                            Some(v) => {
                                self.size_acc = v;
                            },
                            None => {
                                return Err(DecodeError::ChunkSizeOverflow);
                            },
                        }
                        self.size_digits = self.size_digits.saturating_add(1);
                    }
                },
                State::Payload => {
                    let available = bytes.len() - i;
                    let take = if self.remaining < available {
                        self.remaining
                    } else {
                        available
                    };
                    if take > 0 {
                        let run = chunk.substring_ascii(i, i + take);
                        proof {
                            assert(run@ =~= rest.take(take as int));
                            assert(rest.skip(take as int) =~= chunk@.skip(i + take));
                            lemma_absorb_first::<S>(
                                on_data.model(),
                                run@,
                                scan(
                                    Phase::after_run(self.remaining as nat, take as nat),
                                    rest.skip(take as int),
                                ).runs,
                            );
                        }
                        on_data.on_data(run);
                        i += take;
                        self.remaining -= take;
                    }
                    if self.remaining == 0 {
                        self.start_expect_crlf(AfterExpect::Size);
                    }
                },
                State::ExpectCrlf => {
                    let expected = if self.expect_index == 0 {
                        CR
                    } else {
                        LF
                    };
                    let b = bytes[i];
                    i += 1;
                    if b != expected {
                        return Err(DecodeError::ExpectedCrlf);
                    }
                    if self.expect_index == 0 {
                        self.expect_index = 1;
                    } else {
                        self.expect_index = 0;
                        match self.after_expect {
                            AfterExpect::Done => {
                                self.state = State::Done;
                                assert(scan(Phase::Done, rest.skip(1)) == Outcome::idle(
                                    Phase::Done,
                                ));
                                return Ok(());
                            },
                            AfterExpect::Size => {
                                self.state = State::Size;
                            },
                        }
                    }
                },
                State::Done => {
                    return Ok(());
                },
            }
        }
        Ok(())
    }

    fn start_expect_crlf(&mut self, next: AfterExpect)
        requires
            old(self).size_acc == 0,
            old(self).size_digits == 0,
            !old(self).saw_cr,
        ensures
            final(self)@ == (Phase::ExpectCrlf { saw_cr: false, last: next is Done }),
            final(self).state is ExpectCrlf,
            final(self).expect_index == 0,
            final(self).after_expect == next,
            final(self).remaining == old(self).remaining,
            final(self).size_acc == old(self).size_acc,
            final(self).size_digits == old(self).size_digits,
            final(self).saw_cr == old(self).saw_cr,
    {
        self.state = State::ExpectCrlf;
        self.expect_index = 0;
        self.after_expect = next;
    }
}

impl Default for ChunkedDecoder {
    fn default() -> (decoder: Self)
        ensures
            decoder@ == Phase::start(),
    {
        Self::new()
    }
}

/// A decoder that keeps the payload it decodes: a [`ChunkedDecoder`] and the
/// string that it hands its runs to.
#[derive(Debug)]
pub struct ChunkedCollectingDecoder {
    decoder: ChunkedDecoder,
    result: String,
}

impl ChunkedCollectingDecoder {
    /// Where the decoder stands in the stream.
    pub closed spec fn phase(&self) -> Phase {
        self.decoder@
    }

    /// The payload decoded so far.
    pub closed spec fn collected(&self) -> Seq<char> {
        self.result@
    }

    /// A decoder at the start of a stream, with no payload yet.
    pub fn new() -> (decoder: Self)
        ensures
            decoder.phase() == Phase::start(),
            decoder.collected() == Seq::<char>::empty(),
    {
        Self::default()
    }

    /// Feeds the next fragment of the stream and appends the payload that it
    /// holds to the payload collected so far.
    ///
    /// The result and the phase are those of [`feed`], as for
    /// [`ChunkedDecoder::decode_chunk`].
    pub fn decode_chunk(&mut self, chunk: &str) -> (result: Result<(), DecodeError>)
        ensures
            result == feed(old(self).phase(), chunk@).result,
            final(self).phase() == feed(old(self).phase(), chunk@).phase,
            final(self).collected() == old(self).collected() + feed(
                old(self).phase(),
                chunk@,
            ).payload(),
            old(self).phase() is Done ==> result is Ok && final(self).phase() is Done
                && final(self).collected() == old(self).collected(),
            !(old(self).phase() is Done) && !is_ascii_chars(chunk@) ==> result == Err::<
                (),
                DecodeError,
            >(DecodeError::NonAsciiInput) && final(self).phase() == old(self).phase()
                && final(self).collected() == old(self).collected(),
    {
        proof {
            lemma_string_absorbs_payload(self.result@, feed(self.decoder@, chunk@).runs);
        }
        self.decoder.decode_chunk(chunk, &mut self.result)
    }

    /// Whether the closing marker of the stream has been read.
    pub fn is_done(&self) -> (done: bool)
        ensures
            done == (self.phase() is Done),
    {
        self.decoder.is_done()
    }

    /// Checks, once all input has been fed, that the stream ended with its
    /// closing marker: `NotFinished` tells that it was cut short.
    pub fn finalize(&self) -> (result: Result<(), DecodeError>)
        ensures
            result == if self.phase() is Done {
                Ok::<(), DecodeError>(())
            } else {
                Err::<(), DecodeError>(DecodeError::NotFinished)
            },
    {
        self.decoder.finalize()
    }

    /// The payload decoded so far. It can be read at any time; after an error
    /// it holds what was decoded before the error.
    pub fn result(&self) -> (text: &str)
        ensures
            text@ == self.collected(),
    {
        self.result.as_str()
    }
}

impl Default for ChunkedCollectingDecoder {
    fn default() -> (decoder: Self)
        ensures
            decoder.phase() == Phase::start(),
            decoder.collected() == Seq::<char>::empty(),
    {
        Self { decoder: ChunkedDecoder::new(), result: String::new() }
    }
}

/// Another name for [`ChunkedCollectingDecoder`].
pub type CollectingDecoder = ChunkedCollectingDecoder;

/// Another name for [`ChunkedCollectingDecoder`].
pub type Decoder = ChunkedCollectingDecoder;

} // verus!
