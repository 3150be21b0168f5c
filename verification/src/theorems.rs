//! What holds of every run of the read-parse loop.

use crate::buffer::{lemma_grown_is_larger, BufferState};
use crate::grammar::{is_grammar, verdict_of, Verdict};
use crate::read::{
    may_end_as, run, state_after, step_of, turn, Ending, Failure, Run, Step, Turn,
};
use crate::semantic::SemanticError;
use crate::stream::{
    available, lemma_read_conserves, lemma_read_takes_available, next_chunk,
    StreamState,
};
use nom::IResult;
use vstd::prelude::*;

verus! {

/// Whether `language` never claims to have left more bytes unconsumed than
/// it was given.
pub open spec fn leaves_a_tail<O>(language: spec_fn(Seq<u8>) -> Verdict<O>) -> bool {
    forall|input: Seq<u8>|
        (#[trigger] language(input)) matches Verdict::Done { rest_len, .. } ==> rest_len
            <= input.len()
}

/// Whether `language` recognises the first `message_len` bytes of `bytes`
/// as one message with the value `value`, the way a streaming grammar
/// does: every shorter beginning of `bytes` is incomplete, and every
/// beginning that holds the message is done, with all that follows the
/// message as its rest.
pub open spec fn recognises<O>(
    language: spec_fn(Seq<u8>) -> Verdict<O>,
    bytes: Seq<u8>,
    message_len: nat,
    value: O,
) -> bool {
    &&& message_len <= bytes.len()
    &&& forall|k: int|
        0 <= k <= bytes.len() ==> #[trigger] language(bytes.take(k)) == if k < message_len {
            Verdict::Incomplete
        } else {
            Verdict::Done { rest_len: (k - message_len) as nat, value }
        }
}

/// One read of the loop, taken apart: the buffer made ready for it and
/// the window it asks for.
proof fn lemma_read_has_room(state: BufferState, max_len: nat)
    requires
        state.fits(),
        max_len <= usize::MAX,
        state.filled.len() < max_len,
    ensures
        ({
            let ready = state_after(Verdict::<()>::Incomplete, state, max_len);
            let window = ready.window((max_len - state.filled.len()) as nat);
            &&& ready.fits()
            &&& ready.filled == state.filled
            &&& 0 < window <= max_len - state.filled.len()
            &&& window <= ready.free
        }),
{
    lemma_grown_is_larger(state);
}

/// Below the limit, a grammar that asks for more data is given it: the
/// turn reads, and only the closing of the stream can end the run there.
///
/// The read asks for no more than the limit leaves, and for at least one
/// byte. Where the stream has bytes to deliver, the turn leads to another
/// one with those bytes in the buffer; where it has none, the run ends
/// with the end of the stream or, with part of a message buffered, with
/// an unexpected end.
pub proof fn theorem_below_the_limit_a_turn_reads<O>(
    state: BufferState,
    stream: StreamState,
    max_len: nat,
)
    requires
        state.fits(),
        max_len <= usize::MAX,
        state.filled.len() < max_len,
    ensures
        step_of(Verdict::<O>::Incomplete, state, max_len) == (Step::<O>::NeedRead {
            limit: (max_len - state.filled.len()) as nat,
        }),
        ({
            let ready = state_after(Verdict::<O>::Incomplete, state, max_len);
            let window = ready.window((max_len - state.filled.len()) as nat);
            let chunk = next_chunk(stream.pending, window);
            let filled = ready.appended(chunk);
            let rest = stream.after_read(window);
            &&& ready.filled == state.filled
            &&& 0 < window <= max_len - state.filled.len()
            &&& chunk.len() > 0 <==> available(stream.pending).len() > 0
            &&& turn(Verdict::<O>::Incomplete, state, stream, max_len) == if chunk.len() > 0 {
                Turn::<O>::Again { buffer: filled, stream: rest }
            } else {
                Turn::<O>::Ended(
                    Run {
                        ending: if state.filled.len() == 0 {
                            Ending::<O>::EndOfStream
                        } else {
                            Ending::<O>::Failed(Failure::UnexpectedEof)
                        },
                        buffer: filled,
                        stream: rest,
                    },
                )
            }
            &&& chunk.len() == 0 ==> filled.filled == state.filled
        }),
{
    lemma_read_has_room(state, max_len);
    let ready = state_after(Verdict::<O>::Incomplete, state, max_len);
    assert(ready == state_after(Verdict::<()>::Incomplete, state, max_len));
    let window = ready.window((max_len - state.filled.len()) as nat);
    lemma_read_takes_available(stream.pending, window);
    let chunk = next_chunk(stream.pending, window);
    if chunk.len() == 0 {
        assert(state.filled + chunk =~= state.filled);
    }
}

/// No byte is lost or duplicated, however the bytes are split across
/// reads.
///
/// Let the buffered bytes, followed by the bytes that the stream can
/// deliver before it closes, begin with one message of the grammar, no
/// longer than the buffer may become. Then the run ends with that
/// message's value, whatever the segments of the stream are. The bytes
/// that the reads delivered, put behind those buffered at the start and
/// with the message taken off the front, are exactly what the buffer
/// holds at the end, and the stream still holds every byte that was not
/// read.
pub proof fn theorem_chunking_is_invisible<O>(
    language: spec_fn(Seq<u8>) -> Verdict<O>,
    state: BufferState,
    stream: StreamState,
    max_len: nat,
    message_len: nat,
    value: O,
)
    requires
        state.fits(),
        max_len <= usize::MAX,
        message_len <= max_len,
        recognises(language, state.filled + available(stream.pending), message_len, value),
    ensures
        ({
            let outcome = run(language, state, stream, max_len);
            let all = state.filled + stream.pending.flatten();
            let unread = outcome.stream.pending.flatten();
            let delivered = all.take(all.len() - unread.len());
            &&& outcome.ending == Ending::Parsed { value }
            &&& unread.len() <= stream.pending.flatten().len()
            &&& all == delivered + unread
            &&& message_len <= delivered.len()
            &&& outcome.buffer.filled == delivered.skip(message_len as int)
        }),
    decreases stream.pending.flatten().len(),
{
    let bytes = state.filled + available(stream.pending);
    let all = state.filled + stream.pending.flatten();
    let len = state.filled.len();
    assert(bytes.take(len as int) =~= state.filled);
    if len >= message_len {
        let outcome = run(language, state, stream, max_len);
        assert(outcome.buffer.filled =~= state.filled.skip(message_len as int));
        assert(all.take(len as int) =~= state.filled);
        assert(all =~= all.take(len as int) + stream.pending.flatten());
    } else {
        lemma_read_has_room(state, max_len);
        let ready = state_after(Verdict::<O>::Incomplete, state, max_len);
        assert(ready == state_after(Verdict::<()>::Incomplete, state, max_len));
        let window = ready.window((max_len - len) as nat);
        let chunk = next_chunk(stream.pending, window);
        let filled = ready.appended(chunk);
        let rest = stream.after_read(window);
        lemma_read_conserves(stream.pending, window);
        lemma_read_takes_available(stream.pending, window);
        assert(filled.filled + available(rest.pending) =~= bytes);
        assert(filled.filled + rest.pending.flatten() =~= all);
        theorem_chunking_is_invisible(language, filled, rest, max_len, message_len, value);
    }
}

/// Whether a run that ended as `outcome` conserved the bytes it started
/// with: what the buffer and the stream hold at the end, the buffer
/// first, is what they held at the start, but for the message that a
/// successful parse took off the front. A run that ends without a
/// message has consumed nothing.
pub open spec fn conserves<O>(state: BufferState, stream: StreamState, outcome: Run<O>) -> bool {
    let all = state.filled + stream.pending.flatten();
    let left = outcome.buffer.filled + outcome.stream.pending.flatten();
    &&& left.len() <= all.len()
    &&& left == all.skip(all.len() - left.len())
    &&& !(outcome.ending is Parsed) ==> left == all
}

/// Whether a run that ended as `outcome` kept the buffer within bounds:
/// the buffer holds no more than `max_len` bytes, or no more than it held
/// at the start if that was more.
pub open spec fn bounded<O>(state: BufferState, outcome: Run<O>, max_len: nat) -> bool {
    outcome.buffer.filled.len() <= if state.filled.len() <= max_len {
        max_len
    } else {
        state.filled.len()
    }
}

/// One turn conserves the bytes and keeps the bounds, whether it ends the
/// run or leads to another turn.
proof fn lemma_turn_keeps_bytes_and_bounds<O>(
    verdict: Verdict<O>,
    state: BufferState,
    stream: StreamState,
    max_len: nat,
)
    requires
        verdict matches Verdict::Done { rest_len, .. } ==> rest_len <= state.filled.len(),
    ensures
        match turn(verdict, state, stream, max_len) {
            Turn::Ended(outcome) => conserves(state, stream, outcome) && bounded(
                state,
                outcome,
                max_len,
            ),
            Turn::Again { buffer, stream: rest } => {
                &&& buffer.filled + rest.pending.flatten() == state.filled
                    + stream.pending.flatten()
                &&& buffer.filled.len() <= max_len
                &&& rest.pending.flatten().len() < stream.pending.flatten().len()
            },
        },
{
    let all = state.filled + stream.pending.flatten();
    let ready = state_after(verdict, state, max_len);
    match step_of(verdict, state, max_len) {
        Step::Parsed { value } => {
            let left = ready.filled + stream.pending.flatten();
            assert(left =~= all.skip(all.len() - left.len()));
        },
        Step::Failed(failure) => {
            assert(all =~= all.skip(0));
        },
        Step::NeedRead { limit } => {
            let window = ready.window(limit);
            let chunk = next_chunk(stream.pending, window);
            let filled = ready.appended(chunk);
            let rest = stream.after_read(window);
            lemma_read_conserves(stream.pending, window);
            assert(filled.filled + rest.pending.flatten() =~= all);
            assert(all =~= all.skip(0));
        },
    }
}

/// Bytes are conserved, and the buffer stays within its limit, in every
/// run of a grammar.
///
/// What the buffer and the stream hold at the end of a run, the buffer
/// first, is what they held at its start, but for the message that a
/// successful parse took off the front; a run that ends without a message
/// has consumed nothing. At the end the buffer holds no more than
/// `max_len` bytes, or no more than it held at the start if that was
/// more.
pub proof fn theorem_bytes_are_conserved<O>(
    language: spec_fn(Seq<u8>) -> Verdict<O>,
    state: BufferState,
    stream: StreamState,
    max_len: nat,
)
    requires
        leaves_a_tail(language),
    ensures
        conserves(state, stream, run(language, state, stream, max_len)),
        bounded(state, run(language, state, stream, max_len), max_len),
    decreases stream.pending.flatten().len(),
{
    lemma_turn_keeps_bytes_and_bounds(language(state.filled), state, stream, max_len);
    match turn(language(state.filled), state, stream, max_len) {
        Turn::Ended(outcome) => {},
        Turn::Again { buffer, stream: rest } => {
            theorem_bytes_are_conserved(language, buffer, rest, max_len);
        },
    }
}

/// Bytes are conserved, and the buffer stays within its limit, whatever
/// the parser answers.
///
/// This is the same statement for every way in which a run can end when
/// its turns go by the answers of `parser`: it asks of the parser only
/// that the rests it returns are tails of its inputs, not that it
/// computes a grammar.
pub proof fn theorem_every_parser_conserves_bytes<P, O>(
    parser: P,
    state: BufferState,
    stream: StreamState,
    max_len: nat,
    outcome: Run<O>,
) where P: Fn(&[u8]) -> IResult<&[u8], O>
    requires
        is_grammar(parser),
        may_end_as(parser, state, stream, max_len, outcome),
    ensures
        conserves(state, stream, outcome),
        bounded(state, outcome, max_len),
    decreases stream.pending.flatten().len(),
{
    let (input, answer) = choose|input: &[u8], answer: IResult<&[u8], O>|
        {
            &&& input@ == state.filled
            &&& #[trigger] call_ensures(parser, (input,), answer)
            &&& match turn(verdict_of(answer), state, stream, max_len) {
                Turn::Ended(ended) => outcome == ended,
                Turn::Again { buffer, stream: rest } => {
                    &&& rest.pending.flatten().len() < stream.pending.flatten().len()
                    &&& may_end_as(parser, buffer, rest, max_len, outcome)
                },
            }
        };
    lemma_turn_keeps_bytes_and_bounds(verdict_of(answer), state, stream, max_len);
    match turn(verdict_of(answer), state, stream, max_len) {
        Turn::Ended(ended) => {},
        Turn::Again { buffer, stream: rest } => {
            theorem_every_parser_conserves_bytes(parser, buffer, rest, max_len, outcome);
        },
    }
}

/// Backpressure: a grammar that asks for more data on every input is cut
/// off at the limit, and only there.
///
/// Count the bytes buffered at the start and those that the stream can
/// deliver before it closes. If they reach `max_len`, the run ends with
/// the buffer-limit failure: the buffer then holds exactly `max_len`
/// bytes (or what it held, if that was already as much), every byte
/// beyond them is still in the stream, every read brought at least one
/// byte, and a buffer that was full at the start saw no read at all. If
/// they stay below `max_len`, the limit is never reported: the run takes
/// all of them in and ends with the end of the stream.
pub proof fn theorem_backpressure<O>(
    language: spec_fn(Seq<u8>) -> Verdict<O>,
    state: BufferState,
    stream: StreamState,
    max_len: nat,
)
    requires
        state.fits(),
        max_len <= usize::MAX,
        forall|input: Seq<u8>| #[trigger] language(input) == Verdict::<O>::Incomplete,
    ensures
        ({
            let outcome = run(language, state, stream, max_len);
            let have = state.filled.len() + available(stream.pending).len();
            let limit_reached = Ending::<O>::Failed(
                Failure::Semantic(SemanticError::BufferLimitReachedWhileParsing),
            );
            &&& outcome.ending == limit_reached <==> have >= max_len
            &&& have >= max_len ==> {
                &&& outcome.buffer.filled.len() == if state.filled.len() <= max_len {
                    max_len
                } else {
                    state.filled.len()
                }
                &&& outcome.buffer.filled + outcome.stream.pending.flatten() == state.filled
                    + stream.pending.flatten()
                &&& state.filled.len() >= max_len ==> outcome.stream == stream
                &&& state.filled.len() < max_len ==> outcome.stream.windows.len()
                    - stream.windows.len() <= max_len - state.filled.len()
            }
            &&& have < max_len ==> {
                &&& outcome.ending == if have == 0 {
                    Ending::<O>::EndOfStream
                } else {
                    Ending::<O>::Failed(Failure::UnexpectedEof)
                }
                &&& outcome.buffer.filled == state.filled + available(stream.pending)
            }
        }),
    decreases stream.pending.flatten().len(),
{
    let len = state.filled.len();
    let all = state.filled + stream.pending.flatten();
    assert(language(state.filled) == Verdict::<O>::Incomplete);
    if len >= max_len {
        assert(all =~= state.filled + stream.pending.flatten());
    } else {
        lemma_read_has_room(state, max_len);
        let ready = state_after(Verdict::<O>::Incomplete, state, max_len);
        assert(ready == state_after(Verdict::<()>::Incomplete, state, max_len));
        let window = ready.window((max_len - len) as nat);
        let chunk = next_chunk(stream.pending, window);
        let filled = ready.appended(chunk);
        let rest = stream.after_read(window);
        lemma_read_conserves(stream.pending, window);
        lemma_read_takes_available(stream.pending, window);
        if chunk.len() == 0 {
            assert(filled.filled =~= state.filled + available(stream.pending));
        } else {
            theorem_backpressure(language, filled, rest, max_len);
            let outcome = run(language, filled, rest, max_len);
            assert(filled.filled + available(rest.pending) =~= state.filled + available(
                stream.pending,
            ));
            assert(filled.filled + rest.pending.flatten() =~= all);
        }
    }
}

/// A stream that closes ends the run: cleanly where nothing is buffered,
/// with a failure where part of a message is.
///
/// Let the grammar ask for more data on the buffered bytes, the buffer be
/// below its limit, and the stream have nothing to deliver. Then the run
/// issues one read and ends: with the end of the stream if the buffer is
/// empty, with an unexpected end otherwise. The buffered bytes stay as
/// they were.
pub proof fn theorem_closed_stream_ends_the_run<O>(
    language: spec_fn(Seq<u8>) -> Verdict<O>,
    state: BufferState,
    stream: StreamState,
    max_len: nat,
)
    requires
        state.fits(),
        max_len <= usize::MAX,
        language(state.filled) == Verdict::<O>::Incomplete,
        state.filled.len() < max_len,
        available(stream.pending).len() == 0,
    ensures
        ({
            let outcome = run(language, state, stream, max_len);
            &&& outcome.ending == if state.filled.len() == 0 {
                Ending::<O>::EndOfStream
            } else {
                Ending::<O>::Failed(Failure::UnexpectedEof)
            }
            &&& outcome.buffer.filled == state.filled
            &&& outcome.stream.windows.len() == stream.windows.len() + 1
        }),
{
    lemma_read_has_room(state, max_len);
    let ready = state_after(Verdict::<O>::Incomplete, state, max_len);
    assert(ready == state_after(Verdict::<()>::Incomplete, state, max_len));
    let window = ready.window((max_len - state.filled.len()) as nat);
    lemma_read_takes_available(stream.pending, window);
    let chunk = next_chunk(stream.pending, window);
    assert(ready.appended(chunk).filled =~= state.filled);
}

/// A message that is already buffered is parsed without a read.
///
/// Where the grammar recognises a whole message in the buffered bytes,
/// the run ends at once with its value, the buffer is trimmed to the rest
/// that the grammar left, and the stream is as it was: no read was
/// issued, and no byte of it was taken.
pub proof fn theorem_buffered_message_needs_no_read<O>(
    language: spec_fn(Seq<u8>) -> Verdict<O>,
    state: BufferState,
    stream: StreamState,
    max_len: nat,
    rest_len: nat,
    value: O,
)
    requires
        language(state.filled) == (Verdict::Done { rest_len, value }),
    ensures
        run(language, state, stream, max_len) == (Run {
            ending: Ending::Parsed { value },
            buffer: state.kept(rest_len),
            stream,
        }),
{
}

/// Pipelining: two messages that arrived together are parsed by two runs,
/// the second of which finds its message where the first left it.
///
/// Let the buffer hold a first message, a second one and `tail` behind
/// them. The first run ends with the first value and leaves the second
/// message and `tail` in the buffer; a second run from there ends with
/// the second value and leaves `tail`. Neither touches the stream.
pub proof fn theorem_pipelined_messages<O>(
    language: spec_fn(Seq<u8>) -> Verdict<O>,
    state: BufferState,
    stream: StreamState,
    max_len: nat,
    first: Seq<u8>,
    second: Seq<u8>,
    tail: Seq<u8>,
    first_value: O,
    second_value: O,
)
    requires
        state.filled == first + second + tail,
        language(first + second + tail) == (Verdict::Done {
            rest_len: second.len() + tail.len(),
            value: first_value,
        }),
        language(second + tail) == (Verdict::Done { rest_len: tail.len(), value: second_value }),
    ensures
        ({
            let one = run(language, state, stream, max_len);
            let two = run(language, one.buffer, one.stream, max_len);
            &&& one.ending == Ending::Parsed { value: first_value }
            &&& one.buffer.filled == second + tail
            &&& one.stream == stream
            &&& two.ending == Ending::Parsed { value: second_value }
            &&& two.buffer.filled == tail
            &&& two.stream == stream
        }),
{
    let one = run(language, state, stream, max_len);
    assert(one.buffer.filled =~= second + tail);
    let two = run(language, one.buffer, one.stream, max_len);
    assert(two.buffer.filled =~= tail);
}

} // verus!
