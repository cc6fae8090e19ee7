//! What holds of the decoder whatever it is fed: that the cuts between
//! fragments do not matter, that a stream decodes to the payload it was made
//! from, and that nothing happens past the closing marker.

use vstd::prelude::*;
use vstd::seq_lib::lemma_flatten_concat;
use vstd::utf8::{is_ascii_chars, is_ascii_chars_concat};
use crate::framing::{
    crlf, digit_char, encode, hex_digits, is_size_line, is_stream, payloads, size_value,
    size_value_from, stream, Chunk,
};
use crate::model::{feed, feed_all, hex_digit, scan, step, Outcome, Phase, Step};

verus! {

/// The payload of an outcome that is preceded by a run starts with that run.
pub proof fn lemma_payload_after_run(outcome: Outcome, run: Seq<char>)
    ensures
        outcome.after_run(run).payload() == run + outcome.payload(),
{
    let runs = seq![run] + outcome.runs;
    assert(runs.first() == run);
    assert(runs.drop_first() =~= outcome.runs);
}

/// Scanning an input in two parts has the effect of scanning it whole: the
/// same phase, the same result and the same payload.
pub proof fn lemma_scan_split(phase: Phase, a: Seq<char>, b: Seq<char>)
    ensures
        scan(phase, a + b).same_effect(
            scan(phase, a).followed_by(scan(scan(phase, a).phase, b)),
        ),
    decreases a.len(),
{
    let whole = scan(phase, a + b);
    let first = scan(phase, a);
    let second = scan(first.phase, b);
    let empty = Seq::<Seq<char>>::empty();
    if a.len() == 0 {
        assert(a + b =~= b);
        assert(first.runs + second.runs =~= second.runs);
    } else if phase is Done {
        assert(first.runs + second.runs =~= empty);
    } else if phase is Payload && phase->remaining > 0 {
        let remaining = phase->remaining;
        if remaining <= a.len() {
            let next = Phase::after_run(remaining, remaining);
            let inner_first = scan(next, a.skip(remaining as int));
            let inner_second = scan(inner_first.phase, b);
            lemma_scan_split(next, a.skip(remaining as int), b);
            assert((a + b).take(remaining as int) =~= a.take(remaining as int));
            assert((a + b).skip(remaining as int) =~= a.skip(remaining as int) + b);
            let inner_whole = scan(next, a.skip(remaining as int) + b);
            let run = a.take(remaining as int);
            assert(whole == inner_whole.after_run(run));
            assert(first == inner_first.after_run(run));
            lemma_payload_after_run(inner_whole, run);
            lemma_payload_after_run(inner_first, run);
            lemma_flatten_concat(inner_first.runs, inner_second.runs);
            lemma_flatten_concat(first.runs, second.runs);
            assert(run + (inner_first.payload() + inner_second.payload()) =~= (run
                + inner_first.payload()) + inner_second.payload());
        } else {
            let owed = (remaining - a.len()) as nat;
            assert(a.take(a.len() as int) =~= a);
            assert(a.skip(a.len() as int) =~= Seq::<char>::empty());
            assert(first == Outcome::idle(Phase::Payload { remaining: owed }).after_run(a));
            lemma_payload_after_run(Outcome::idle(Phase::Payload { remaining: owed }), a);
            assert(empty.flatten() =~= Seq::<char>::empty());
            assert(first.payload() =~= a);
            lemma_flatten_concat(first.runs, second.runs);
            if b.len() == 0 {
                assert(a + b =~= a);
                assert(second.runs =~= empty);
                assert(first.runs + second.runs =~= first.runs);
            } else {
                let taken_b = if owed <= b.len() {
                    owed
                } else {
                    b.len()
                };
                let taken = a.len() + taken_b;
                let next = Phase::after_run(owed, taken_b);
                assert(next == Phase::after_run(remaining, taken));
                let tail = scan(next, b.skip(taken_b as int));
                assert((a + b).skip(taken as int) =~= b.skip(taken_b as int));
                assert((a + b).take(taken as int) =~= a + b.take(taken_b as int));
                assert(second == tail.after_run(b.take(taken_b as int)));
                assert(whole == tail.after_run(a + b.take(taken_b as int)));
                lemma_payload_after_run(tail, b.take(taken_b as int));
                lemma_payload_after_run(tail, a + b.take(taken_b as int));
                assert((a + b.take(taken_b as int)) + tail.payload() =~= a + (b.take(
                    taken_b as int,
                ) + tail.payload()));
            }
        }
    } else {
        assert((a + b)[0] == a[0]);
        assert((a + b).skip(1) =~= a.skip(1) + b);
        match step(phase, a[0]) {
            Step::Advance(next) => {
                lemma_scan_split(next, a.skip(1), b);
            },
            Step::Reject(error, left) => {},
        }
    }
}

/// Following an outcome by either of two outcomes of the same effect gives
/// outcomes of the same effect.
pub proof fn lemma_followed_by_same_effect(first: Outcome, x: Outcome, y: Outcome)
    requires
        x.same_effect(y),
    ensures
        first.followed_by(x).same_effect(first.followed_by(y)),
{
    lemma_flatten_concat(first.runs, x.runs);
    lemma_flatten_concat(first.runs, y.runs);
}

/// Feeding an ASCII input in two fragments has the effect of feeding it in
/// one.
pub proof fn lemma_feed_split(phase: Phase, a: Seq<char>, b: Seq<char>)
    requires
        is_ascii_chars(a + b),
    ensures
        feed(phase, a + b).same_effect(feed(phase, a).followed_by(feed(feed(phase, a).phase, b))),
{
    is_ascii_chars_concat(a + b, a, b);
    lemma_scan_split(phase, a, b);
}

/// Fragmentation invariance: however an ASCII input is cut into fragments,
/// feeding the fragments in order leaves the decoder in the phase, gives the
/// result and hands out the payload that feeding the whole input at once
/// does.
pub proof fn lemma_fragmentation_invariance(phase: Phase, fragments: Seq<Seq<char>>)
    requires
        is_ascii_chars(fragments.flatten()),
    ensures
        feed_all(phase, fragments).same_effect(feed(phase, fragments.flatten())),
    decreases fragments.len(),
{
    if fragments.len() == 0 {
    } else {
        let head = fragments.first();
        let tail = fragments.drop_first();
        let first = feed(phase, head);
        is_ascii_chars_concat(fragments.flatten(), head, tail.flatten());
        lemma_fragmentation_invariance(first.phase, tail);
        lemma_followed_by_same_effect(
            first,
            feed_all(first.phase, tail),
            feed(first.phase, tail.flatten()),
        );
        lemma_feed_split(phase, head, tail.flatten());
    }
}

/// The value of a character in a size line: that of the digit, zero for any
/// other character.
pub open spec fn digit_value(c: char) -> nat {
    match hex_digit(c) {
        Some(d) => d,
        None => 0,
    }
}

/// Digits can be read from the left: the first one is folded into the
/// starting value, and the others follow.
pub proof fn lemma_size_value_from_first(start: nat, digits: Seq<char>)
    requires
        digits.len() > 0,
    ensures
        size_value_from(start, digits) == size_value_from(
            start * 16 + digit_value(digits.first()),
            digits.drop_first(),
        ),
    decreases digits.len(),
{
    if digits.len() == 1 {
        assert(digits.drop_last() =~= Seq::<char>::empty());
        assert(digits.drop_first() =~= Seq::<char>::empty());
        assert(size_value_from(start, digits.drop_last()) == start);
    } else {
        lemma_size_value_from_first(start, digits.drop_last());
        assert(digits.drop_last().drop_first() =~= digits.drop_first().drop_last());
        assert(digits.drop_last().first() == digits.first());
        assert(digits.drop_first().last() == digits.last());
    }
}

/// Reading more digits never gives less.
pub proof fn lemma_size_value_from_grows(start: nat, digits: Seq<char>)
    ensures
        size_value_from(start, digits) >= start,
    decreases digits.len(),
{
    if digits.len() > 0 {
        lemma_size_value_from_grows(start, digits.drop_last());
    }
}

/// A decoder inside a size line reads hexadecimal digits up to their value,
/// as long as that value fits in `usize`.
pub proof fn lemma_scan_size_digits(
    value: nat,
    has_digits: bool,
    digits: Seq<char>,
    rest: Seq<char>,
)
    requires
        forall|i: int| 0 <= i < digits.len() ==> (#[trigger] hex_digit(digits[i])) is Some,
        size_value_from(value, digits) <= usize::MAX,
    ensures
        scan(Phase::Size { value, has_digits, saw_cr: false }, digits + rest) == scan(
            Phase::Size {
                value: size_value_from(value, digits),
                has_digits: has_digits || digits.len() > 0,
                saw_cr: false,
            },
            rest,
        ),
    decreases digits.len(),
{
    if digits.len() == 0 {
        assert(digits + rest =~= rest);
    } else {
        let c = digits.first();
        let folded = value * 16 + digit_value(c);
        assert(hex_digit(digits[0]) is Some);
        assert((digits + rest)[0] == c);
        assert((digits + rest).skip(1) =~= digits.drop_first() + rest);
        lemma_size_value_from_first(value, digits);
        lemma_size_value_from_grows(folded, digits.drop_first());
        assert forall|i: int| 0 <= i < digits.drop_first().len() implies (#[trigger] hex_digit(
            digits.drop_first()[i],
        )) is Some by {
            assert(digits.drop_first()[i] == digits[i + 1]);
        }
        lemma_scan_size_digits(folded, true, digits.drop_first(), rest);
    }
}

/// A decoder that awaits a line ending reads one, and goes on with what
/// follows it.
pub proof fn lemma_scan_crlf(last: bool, rest: Seq<char>)
    ensures
        scan(Phase::ExpectCrlf { saw_cr: false, last }, crlf() + rest) == scan(
            if last {
                Phase::Done
            } else {
                Phase::start()
            },
            rest,
        ),
{
    let input = crlf() + rest;
    assert(input[0] == '\r');
    assert(input.skip(1)[0] == '\n');
    assert(input.skip(1).skip(1) =~= rest);
    reveal_with_fuel(scan, 3);
}

/// A decoder at the start of a size line reads a well-formed chunk whole: it
/// hands out the payload as one run and goes on with what follows the chunk,
/// or, if the chunk has no payload, it is done.
pub proof fn lemma_scan_chunk(chunk: Chunk, rest: Seq<char>)
    requires
        chunk.well_formed(),
    ensures
        scan(Phase::start(), chunk.wire() + rest) == if chunk.payload.len() == 0 {
            Outcome::idle(Phase::Done)
        } else {
            scan(Phase::start(), rest).after_run(chunk.payload)
        },
{
    let n = chunk.payload.len();
    let after_digits = crlf() + chunk.payload + crlf() + rest;
    let after_size = chunk.payload + crlf() + rest;
    let after_payload = crlf() + rest;
    assert(chunk.wire() + rest =~= chunk.size + after_digits);
    lemma_scan_size_digits(0, false, chunk.size, after_digits);
    let line_end = Phase::Size { value: n, has_digits: true, saw_cr: false };
    assert(scan(Phase::start(), chunk.wire() + rest) == scan(line_end, after_digits));
    assert(scan(line_end, after_digits) == scan(Phase::after_size(n), after_size)) by {
        assert(after_digits[0] == '\r');
        assert(after_digits.skip(1)[0] == '\n');
        assert(after_digits.skip(1).skip(1) =~= after_size);
        reveal_with_fuel(scan, 3);
    }
    if n == 0 {
        assert(after_size =~= crlf() + rest);
        lemma_scan_crlf(true, rest);
    } else {
        assert(after_size.take(n as int) =~= chunk.payload);
        assert(after_size.skip(n as int) =~= after_payload);
        assert(scan(Phase::after_size(n), after_size) == scan(
            Phase::after_payload(),
            after_payload,
        ).after_run(chunk.payload));
        lemma_scan_crlf(false, rest);
    }
}

/// The characters of a stream are ASCII.
pub proof fn lemma_stream_is_ascii(chunks: Seq<Chunk>)
    requires
        forall|i: int| 0 <= i < chunks.len() ==> (#[trigger] chunks[i]).well_formed(),
    ensures
        is_ascii_chars(stream(chunks)),
    decreases chunks.len(),
{
    if chunks.len() > 0 {
        let chunk = chunks.first();
        assert(chunk.well_formed());
        assert forall|i: int| 0 <= i < chunks.drop_first().len() implies (
        #[trigger] chunks.drop_first()[i]).well_formed() by {
            assert(chunks.drop_first()[i] == chunks[i + 1]);
        }
        lemma_stream_is_ascii(chunks.drop_first());
        assert forall|i: int| 0 <= i < chunk.size.len() implies '\0' <= (
        #[trigger] chunk.size[i]) <= '\u{7f}' by {
            assert(hex_digit(chunk.size[i]) is Some);
        }
        assert(is_ascii_chars(chunk.size));
        assert(is_ascii_chars(crlf()));
        assert(is_ascii_chars(chunk.wire()));
        assert(is_ascii_chars(chunk.wire() + stream(chunks.drop_first())));
    }
}

/// Round trip, for a decoder that scans: a stream read in one piece from the
/// start leaves the decoder done, with no error, and the runs handed out are
/// the payloads of its chunks, one run for each chunk that has a payload.
pub proof fn lemma_scan_stream(chunks: Seq<Chunk>)
    requires
        is_stream(chunks),
    ensures
        scan(Phase::start(), stream(chunks)) == (Outcome {
            phase: Phase::Done,
            runs: payloads(chunks).drop_last(),
            result: Ok(()),
        }),
    decreases chunks.len(),
{
    let chunk = chunks.first();
    let others = chunks.drop_first();
    assert(chunk.well_formed());
    lemma_scan_chunk(chunk, stream(others));
    if chunks.len() == 1 {
        assert(payloads(chunks).drop_last() =~= Seq::<Seq<char>>::empty());
    } else {
        assert(is_stream(others)) by {
            assert forall|i: int| 0 <= i < others.len() implies (#[trigger] others[i]).well_formed()
                && (others[i].payload.len() == 0 <==> i == others.len() - 1) by {
                assert(others[i] == chunks[i + 1]);
            }
        }
        lemma_scan_stream(others);
        assert(chunk == chunks[0]);
        assert(chunk.payload.len() > 0);
        assert(payloads(chunks).drop_last() =~= seq![chunk.payload] + payloads(
            others,
        ).drop_last());
    }
}

/// The digits that a number is written with denote that number.
pub proof fn lemma_hex_digits_denote(n: nat)
    ensures
        is_size_line(hex_digits(n)),
        size_value(hex_digits(n)) == n,
    decreases n,
{
    let last = digit_char(n % 16);
    assert(hex_digit(last) == Some(n % 16));
    if n < 16 {
        assert(hex_digits(n).drop_last() =~= Seq::<char>::empty());
        assert(size_value_from(0, hex_digits(n).drop_last()) == 0);
    } else {
        lemma_hex_digits_denote(n / 16);
        assert(hex_digits(n).drop_last() =~= hex_digits(n / 16));
        assert(hex_digits(n).last() == last);
        assert forall|i: int| 0 <= i < hex_digits(n).len() implies (#[trigger] hex_digit(
            hex_digits(n)[i],
        )) is Some by {
            if i < hex_digits(n / 16).len() {
                assert(hex_digits(n)[i] == hex_digits(n / 16)[i]);
            }
        }
    }
}

/// Parts that are ASCII, not empty and no longer than `usize::MAX` are
/// encoded as a stream, whose payloads are the parts and the empty payload
/// of the closing chunk.
pub proof fn lemma_encode_is_stream(parts: Seq<Seq<char>>)
    requires
        forall|i: int|
            0 <= i < parts.len() ==> 0 < (#[trigger] parts[i]).len() <= usize::MAX
                && is_ascii_chars(parts[i]),
    ensures
        is_stream(encode(parts)),
        payloads(encode(parts)) == parts.push(Seq::empty()),
{
    let chunks = encode(parts);
    assert forall|i: int| 0 <= i < chunks.len() implies (#[trigger] chunks[i]).well_formed() && (
    chunks[i].payload.len() == 0 <==> i == chunks.len() - 1) by {
        lemma_hex_digits_denote(chunks[i].payload.len());
        if i < parts.len() {
            assert(chunks[i].payload == parts[i]);
        }
    }
    assert(payloads(chunks) =~= parts.push(Seq::empty()));
}

/// Round trip: a stream fed in one piece to a decoder at the start is
/// accepted and leaves the decoder done; the runs handed out are the
/// payloads of the chunks, one run for each chunk that has a payload, and so
/// the payload handed out is the payload that the stream carries.
pub proof fn lemma_round_trip(chunks: Seq<Chunk>)
    requires
        is_stream(chunks),
    ensures
        feed(Phase::start(), stream(chunks)) == (Outcome {
            phase: Phase::Done,
            runs: payloads(chunks).drop_last(),
            result: Ok(()),
        }),
        feed(Phase::start(), stream(chunks)).payload() == payloads(chunks).flatten(),
{
    lemma_stream_is_ascii(chunks);
    lemma_scan_stream(chunks);
    let all = payloads(chunks);
    assert(all.last() == chunks[chunks.len() - 1].payload);
    assert(all.last() =~= Seq::<char>::empty());
    assert(all =~= all.drop_last() + seq![all.last()]);
    lemma_flatten_concat(all.drop_last(), seq![all.last()]);
    seq![all.last()].lemma_flatten_one_element();
    assert(all.drop_last().flatten() + Seq::<char>::empty() =~= all.drop_last().flatten());
}

/// Round trip, from the payload: parts that are ASCII, not empty and no
/// longer than `usize::MAX`, written as chunks with their sizes in lower-case
/// hexadecimal and closed by the chunk of size zero, decode to the very
/// parts, one run for each, and the decoder is done.
pub proof fn lemma_round_trip_of_parts(parts: Seq<Seq<char>>)
    requires
        forall|i: int|
            0 <= i < parts.len() ==> 0 < (#[trigger] parts[i]).len() <= usize::MAX
                && is_ascii_chars(parts[i]),
    ensures
        feed(Phase::start(), stream(encode(parts))) == (Outcome {
            phase: Phase::Done,
            runs: parts,
            result: Ok(()),
        }),
{
    lemma_encode_is_stream(parts);
    lemma_round_trip(encode(parts));
    assert(parts.push(Seq::empty()).drop_last() =~= parts);
}

/// Fragmentation invariance of a stream: however a stream is cut into
/// fragments, a decoder at the start that is fed the fragments in order
/// accepts them all and ends up done, so that `finalize` succeeds, and the
/// runs handed out make up, one after the other, the payload that the stream
/// carries.
pub proof fn lemma_fragmented_stream(chunks: Seq<Chunk>, fragments: Seq<Seq<char>>)
    requires
        is_stream(chunks),
        fragments.flatten() == stream(chunks),
    ensures
        feed_all(Phase::start(), fragments).result is Ok,
        feed_all(Phase::start(), fragments).phase is Done,
        feed_all(Phase::start(), fragments).payload() == payloads(chunks).flatten(),
{
    lemma_stream_is_ascii(chunks);
    lemma_round_trip(chunks);
    lemma_fragmentation_invariance(Phase::start(), fragments);
}

/// Past the closing marker nothing happens: whatever is fed, in however many
/// fragments, is accepted, nothing is handed out, and the decoder stays
/// done.
pub proof fn lemma_done_is_final(fragments: Seq<Seq<char>>)
    ensures
        feed_all(Phase::Done, fragments) == Outcome::idle(Phase::Done),
    decreases fragments.len(),
{
    if fragments.len() > 0 {
        lemma_done_is_final(fragments.drop_first());
        assert(Seq::<Seq<char>>::empty() + Seq::<Seq<char>>::empty() =~= Seq::<Seq<char>>::empty());
    }
}

/// Whether a decoder may pass from `from` to `to` on one character: the
/// phases follow each other as size line, payload, line ending, and then the
/// next size line or the end; a payload only shrinks; the end is never left.
pub open spec fn follows(from: Phase, to: Phase) -> bool {
    match from {
        Phase::Size { .. } => to is Size || (to matches Phase::Payload { remaining }
            && remaining > 0) || to == (Phase::ExpectCrlf { saw_cr: false, last: true }),
        Phase::Payload { remaining: owed } => (to matches Phase::Payload { remaining }
            && remaining < owed) || (to matches Phase::ExpectCrlf { last, .. } && !last),
        Phase::ExpectCrlf { saw_cr, last } => to == (Phase::ExpectCrlf { saw_cr: true, last })
            || to == if last {
            Phase::Done
        } else {
            Phase::start()
        },
        Phase::Done => to is Done,
    }
}

/// Every character that a decoder consumes moves it along the cycle of
/// phases.
pub proof fn lemma_step_follows_cycle(phase: Phase, c: char)
    ensures
        step(phase, c) matches Step::Advance(next) ==> follows(phase, next),
{
}

/// No run that a scan hands out is empty.
pub proof fn lemma_runs_are_not_empty(phase: Phase, input: Seq<char>)
    ensures
        forall|i: int|
            0 <= i < scan(phase, input).runs.len() ==> (#[trigger] scan(phase, input).runs[i]).len()
                > 0,
    decreases input.len(),
{
    if input.len() == 0 || phase is Done {
    } else if phase is Payload && phase->remaining > 0 {
        let remaining = phase->remaining;
        let taken = if remaining <= input.len() {
            remaining
        } else {
            input.len()
        };
        lemma_runs_are_not_empty(Phase::after_run(remaining, taken), input.skip(taken as int));
    } else {
        match step(phase, input[0]) {
            Step::Advance(next) => {
                lemma_runs_are_not_empty(next, input.skip(1));
            },
            Step::Reject(error, left) => {},
        }
    }
}

} // verus!
