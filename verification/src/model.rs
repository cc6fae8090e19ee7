//! The decoder as a mathematical state machine over sequences of characters.
//!
//! Everything here is specification: [`step`] is the transition taken on one
//! character, [`scan`] runs it over a whole fragment and collects the payload
//! runs, and [`feed`] is what one call of the decoder amounts to.

use vstd::prelude::*;
use vstd::utf8::is_ascii_chars;
use crate::error::DecodeError;

verus! {

/// Where a decoder stands between two characters of the stream.
pub enum Phase {
    /// Inside a size line. `value` is the number read from the digits so far,
    /// `has_digits` tells whether there was any digit, and `saw_cr` whether
    /// the carriage return that ends the line has been read.
    Size { value: nat, has_digits: bool, saw_cr: bool },
    /// Inside a payload of which `remaining` characters are still owed.
    Payload { remaining: nat },
    /// Inside the line ending that follows a payload (`last` is false) or the
    /// closing size line (`last` is true). `saw_cr` tells whether its carriage
    /// return has been read.
    ExpectCrlf { saw_cr: bool, last: bool },
    /// Past the closing marker.
    Done,
}

impl Phase {
    /// The phase of a decoder that has read nothing.
    pub open spec fn start() -> Phase {
        Phase::Size { value: 0, has_digits: false, saw_cr: false }
    }

    /// The phase in which the line ending after a payload is awaited.
    pub open spec fn after_payload() -> Phase {
        Phase::ExpectCrlf { saw_cr: false, last: false }
    }

    /// The phase entered when a size line that reads `n` is complete.
    pub open spec fn after_size(n: nat) -> Phase {
        if n == 0 {
            Phase::ExpectCrlf { saw_cr: false, last: true }
        } else {
            Phase::Payload { remaining: n }
        }
    }

    /// The phase reached from a payload that owed `remaining` characters once
    /// `taken` of them, at most `remaining`, have been consumed.
    pub open spec fn after_run(remaining: nat, taken: nat) -> Phase {
        if taken >= remaining {
            Phase::after_payload()
        } else {
            Phase::Payload { remaining: (remaining - taken) as nat }
        }
    }
}

/// The value of a hexadecimal digit, in either case; `None` for any other
/// character.
pub open spec fn hex_digit(c: char) -> Option<nat> {
    if '0' <= c <= '9' {
        Some((c as nat - '0' as nat) as nat)
    } else if 'a' <= c <= 'f' {
        Some((c as nat - 'a' as nat + 10) as nat)
    } else if 'A' <= c <= 'F' {
        Some((c as nat - 'A' as nat + 10) as nat)
    } else {
        None
    }
}

/// What one character does to a decoder.
pub enum Step {
    /// The character was consumed and the decoder is now in this phase.
    Advance(Phase),
    /// The character was refused with this error, and the decoder was left in
    /// this phase.
    Reject(DecodeError, Phase),
}

/// The transition on `c` of a decoder that awaits a line ending, as
/// [`Phase::ExpectCrlf`] describes it.
pub open spec fn line_ending_step(saw_cr: bool, last: bool, c: char) -> Step {
    if !saw_cr {
        if c == '\r' {
            Step::Advance(Phase::ExpectCrlf { saw_cr: true, last })
        } else {
            Step::Reject(DecodeError::ExpectedCrlf, Phase::ExpectCrlf { saw_cr, last })
        }
    } else if c == '\n' {
        Step::Advance(
            if last {
                Phase::Done
            } else {
                Phase::start()
            },
        )
    } else {
        Step::Reject(DecodeError::ExpectedCrlf, Phase::ExpectCrlf { saw_cr, last })
    }
}

/// The transition on `c` of a decoder inside a size line, as [`Phase::Size`]
/// describes it.
pub open spec fn size_line_step(value: nat, has_digits: bool, saw_cr: bool, c: char) -> Step {
    if saw_cr {
        if c != '\n' {
            Step::Reject(
                DecodeError::ExpectedLfAfterCrInSizeLine,
                Phase::Size { value, has_digits, saw_cr },
            )
        } else if !has_digits {
            Step::Reject(
                DecodeError::EmptyChunkSize,
                Phase::Size { value, has_digits, saw_cr: false },
            )
        } else {
            Step::Advance(Phase::after_size(value))
        }
    } else if c == '\r' {
        Step::Advance(Phase::Size { value, has_digits, saw_cr: true })
    } else {
        match hex_digit(c) {
            None => Step::Reject(
                DecodeError::InvalidChunkSize,
                Phase::Size { value, has_digits, saw_cr },
            ),
            Some(d) => {
                if value * 16 + d > usize::MAX {
                    Step::Reject(
                        DecodeError::ChunkSizeOverflow,
                        Phase::Size { value, has_digits, saw_cr },
                    )
                } else {
                    Step::Advance(
                        Phase::Size { value: value * 16 + d, has_digits: true, saw_cr: false },
                    )
                }
            },
        }
    }
}

/// The transition of a decoder in `phase` on the character `c`.
///
/// A payload takes any character as its own while some are owed; once none is
/// owed, the character has to open the line ending that follows the payload.
pub open spec fn step(phase: Phase, c: char) -> Step {
    match phase {
        Phase::Size { value, has_digits, saw_cr } => size_line_step(value, has_digits, saw_cr, c),
        Phase::Payload { remaining } => {
            if remaining == 0 {
                line_ending_step(false, false, c)
            } else {
                Step::Advance(Phase::after_run(remaining, 1))
            }
        },
        Phase::ExpectCrlf { saw_cr, last } => line_ending_step(saw_cr, last, c),
        Phase::Done => Step::Advance(Phase::Done),
    }
}

/// What a decoder has done with some input: the phase it is left in, the
/// payload runs it has handed out, in order, and whether it accepted the
/// input.
pub struct Outcome {
    pub phase: Phase,
    pub runs: Seq<Seq<char>>,
    pub result: Result<(), DecodeError>,
}

impl Outcome {
    /// The outcome of doing nothing in `phase`.
    pub open spec fn idle(phase: Phase) -> Outcome {
        Outcome { phase, runs: Seq::empty(), result: Ok(()) }
    }

    /// The outcome of refusing the input with `error`, the decoder left in
    /// `phase`.
    pub open spec fn refused(error: DecodeError, phase: Phase) -> Outcome {
        Outcome { phase, runs: Seq::empty(), result: Err(error) }
    }

    /// This outcome, preceded by the handing out of `run`.
    pub open spec fn after_run(self, run: Seq<char>) -> Outcome {
        Outcome { phase: self.phase, runs: seq![run] + self.runs, result: self.result }
    }

    /// All the payload handed out, as one sequence.
    pub open spec fn payload(self) -> Seq<char> {
        self.runs.flatten()
    }

    /// This outcome followed by `next`, which is left out if this one ended
    /// in an error.
    pub open spec fn followed_by(self, next: Outcome) -> Outcome {
        if self.result is Err {
            self
        } else {
            Outcome { phase: next.phase, runs: self.runs + next.runs, result: next.result }
        }
    }

    /// Whether two outcomes differ at most in where the payload is cut into
    /// runs.
    pub open spec fn same_effect(self, other: Outcome) -> bool {
        &&& self.phase == other.phase
        &&& self.result == other.result
        &&& self.payload() == other.payload()
    }
}

/// Runs a decoder in `phase` over `input`, character by character, up to the
/// end of the input, the closing marker or the first character it refuses.
///
/// Inside a payload, all the characters that the input holds of it are
/// consumed at once and form one run: a run is never empty, and two runs of
/// one fragment are separated by framing.
pub open spec fn scan(phase: Phase, input: Seq<char>) -> Outcome
    decreases input.len(),
{
    if input.len() == 0 {
        Outcome::idle(phase)
    } else {
        match phase {
            Phase::Done => Outcome::idle(phase),
            Phase::Payload { remaining } if remaining > 0 => {
                let taken = if remaining <= input.len() {
                    remaining
                } else {
                    input.len()
                };
                scan(Phase::after_run(remaining, taken), input.skip(taken as int)).after_run(
                    input.take(taken as int),
                )
            },
            _ => match step(phase, input[0]) {
                Step::Advance(next) => scan(next, input.skip(1)),
                Step::Reject(error, left) => Outcome::refused(error, left),
            },
        }
    }
}

/// What one call of the decoder in `phase` on `fragment` amounts to.
///
/// A decoder past the closing marker ignores the fragment, whatever it holds.
/// Otherwise a fragment with a character outside ASCII is refused as a whole,
/// before anything is consumed or handed out.
pub open spec fn feed(phase: Phase, fragment: Seq<char>) -> Outcome {
    if phase is Done {
        Outcome::idle(phase)
    } else if !is_ascii_chars(fragment) {
        Outcome::refused(DecodeError::NonAsciiInput, phase)
    } else {
        scan(phase, fragment)
    }
}

/// What feeding `fragments` in order to a decoder in `phase` amounts to, the
/// caller stopping at the first error.
pub open spec fn feed_all(phase: Phase, fragments: Seq<Seq<char>>) -> Outcome
    decreases fragments.len(),
{
    if fragments.len() == 0 {
        Outcome::idle(phase)
    } else {
        let first = feed(phase, fragments.first());
        first.followed_by(feed_all(first.phase, fragments.drop_first()))
    }
}

} // verus!
