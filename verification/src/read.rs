//! The incremental read-parse loop.
//!
//! Each turn asks the grammar about the filled bytes. A whole message ends
//! the loop at once, with the buffer trimmed to what the message left
//! behind. A rejection ends it with the grammar's diagnostics. A request
//! for more data ends it when the buffer already holds as much as one
//! message may; otherwise it leads to one read, bounded so that the buffer
//! never outgrows that maximum, and to another turn.

use crate::buffer::{BufferState, ReceiveBuffer};
use crate::grammar::{
    conforms, is_grammar, outcome_of, verdict_of, ParseFailure, ParseOutcome, Rejection, Verdict,
};
use crate::semantic::SemanticError;
use crate::stream::{lemma_read_conserves, next_chunk, MemoryStream, StreamState};
use nom::IResult;
use vstd::prelude::*;

verus! {

/// Why the loop gave up, as mathematics.
pub enum Failure {
    /// A protocol-level failure, for which a canned reply exists.
    Semantic(SemanticError),
    /// The peer closed the stream in the middle of a message.
    UnexpectedEof,
    /// The grammar rejected the buffered bytes.
    Parsing(Rejection),
}

/// Why the loop gave up.
#[derive(Debug, PartialEq, Eq)]
pub enum ReadError {
    /// A protocol-level failure; the caller sends its canned reply and
    /// closes the connection.
    Semantic(SemanticError),
    /// The peer closed the stream in the middle of a message; no reply can
    /// safely be sent.
    UnexpectedEof,
    /// The grammar rejected the buffered bytes; its diagnostics come along.
    Parsing(ParseFailure),
}

impl View for ReadError {
    type V = Failure;

    open spec fn view(&self) -> Failure {
        match *self {
            ReadError::Semantic(kind) => Failure::Semantic(kind),
            ReadError::UnexpectedEof => Failure::UnexpectedEof,
            ReadError::Parsing(failure) => Failure::Parsing(failure@),
        }
    }
}

/// What one turn of the loop decides, as mathematics.
pub enum Step<O> {
    /// A whole message was parsed.
    Parsed { value: O },
    /// One read of at most `limit` bytes, and of no more than the buffer
    /// has room for, has to come before the next turn.
    NeedRead { limit: nat },
    /// The loop is over without a message.
    Failed(Failure),
}

/// What one turn of the loop decides.
#[derive(Debug, PartialEq, Eq)]
pub enum Progress<O> {
    /// A whole message was parsed, and the buffer holds what follows it.
    Parsed(O),
    /// The buffer has room; read into it no more than `limit` bytes and no
    /// more than its free capacity holds, then have the read judged and
    /// take the next turn.
    NeedRead { limit: usize },
    /// The loop is over without a message.
    Failed(ReadError),
}

impl<O> View for Progress<O> {
    type V = Step<O>;

    open spec fn view(&self) -> Step<O> {
        match *self {
            Progress::Parsed(value) => Step::Parsed { value },
            Progress::NeedRead { limit } => Step::NeedRead { limit: limit as nat },
            Progress::Failed(error) => Step::Failed(error@),
        }
    }
}

/// The decision of one turn, given the grammar's verdict on the filled
/// bytes.
pub open spec fn step_of<O>(verdict: Verdict<O>, state: BufferState, max_len: nat) -> Step<O> {
    match verdict {
        Verdict::Done { rest_len, value } => Step::Parsed { value },
        Verdict::Incomplete => if state.filled.len() >= max_len {
            Step::Failed(Failure::Semantic(SemanticError::BufferLimitReachedWhileParsing))
        } else {
            Step::NeedRead { limit: (max_len - state.filled.len()) as nat }
        },
        Verdict::Malformed(rejection) => Step::Failed(Failure::Parsing(rejection)),
    }
}

/// The buffer after one turn: trimmed to the rest after a whole message,
/// grown before a read if it had no free capacity, untouched otherwise.
pub open spec fn state_after<O>(
    verdict: Verdict<O>,
    state: BufferState,
    max_len: nat,
) -> BufferState {
    match verdict {
        Verdict::Done { rest_len, value } => state.kept(rest_len),
        Verdict::Incomplete => if state.filled.len() < max_len && state.free == 0 {
            state.grown()
        } else {
            state
        },
        Verdict::Malformed(_) => state,
    }
}

/// Takes one turn of the loop on a verdict that the caller obtained from
/// its grammar for the filled bytes of `buf`.
pub fn advance_with<O>(
    outcome: ParseOutcome<O>,
    buf: &mut ReceiveBuffer,
    max_len: usize,
) -> (progress: Progress<O>)
    requires
        outcome matches ParseOutcome::Done { rest_len, .. } ==> rest_len <= old(buf)@.filled.len(),
    ensures
        progress@ == step_of(outcome@, old(buf)@, max_len as nat),
        final(buf)@ == state_after(outcome@, old(buf)@, max_len as nat),
{
    match outcome {
        ParseOutcome::Done { rest_len, value } => {
            buf.keep(rest_len);
            Progress::Parsed(value)
        },
        ParseOutcome::Incomplete => {
            let len: usize = buf.len();
            if len >= max_len {
                return Progress::Failed(
                    ReadError::Semantic(SemanticError::BufferLimitReachedWhileParsing),
                );
            }
            if buf.cap() == 0 {
                buf.grow();
            }
            Progress::NeedRead { limit: max_len - len }
        },
        ParseOutcome::Malformed(failure) => Progress::Failed(ReadError::Parsing(failure)),
    }
}

/// Takes one turn of the loop: asks `parser` about the filled bytes of
/// `buf` and acts on its answer.
///
/// The turn is the one that `step_of` and `state_after` describe for an
/// answer that `parser` gives on exactly the filled bytes. After a whole
/// message the buffer holds the very rest that `parser` returned. Where
/// `parser` computes a mathematical grammar, the turn is the one for the
/// grammar's verdict on the filled bytes.
pub fn advance<P, O>(
    parser: &P,
    buf: &mut ReceiveBuffer,
    max_len: usize,
) -> (progress: Progress<O>) where P: Fn(&[u8]) -> IResult<&[u8], O>
    requires
        is_grammar(*parser),
    ensures
        exists|input: &[u8], answer: IResult<&[u8], O>|
            {
                &&& input@ == old(buf)@.filled
                &&& #[trigger] call_ensures(*parser, (input,), answer)
                &&& progress@ == step_of(verdict_of(answer), old(buf)@, max_len as nat)
                &&& final(buf)@ == state_after(verdict_of(answer), old(buf)@, max_len as nat)
                &&& answer matches Ok((rest, _)) ==> final(buf)@.filled == rest@
            },
        forall|language: spec_fn(Seq<u8>) -> Verdict<O>| #[trigger]
            conforms(*parser, language) ==> {
                let verdict = language(old(buf)@.filled);
                &&& progress@ == step_of(verdict, old(buf)@, max_len as nat)
                &&& final(buf)@ == state_after(verdict, old(buf)@, max_len as nat)
            },
{
    let input = buf.filled();
    let answer = parser(input);
    let outcome = outcome_of(answer);
    let progress = advance_with(outcome, buf, max_len);
    proof {
        assert(call_ensures(*parser, (input,), answer));
    }
    progress
}

/// What a finished read means for the loop.
#[derive(Clone, Copy, Debug, PartialEq, Eq, Structural)]
pub enum ReadStatus {
    /// Bytes arrived; take the next turn.
    More,
    /// Nothing arrived and nothing was buffered: the stream ended between
    /// two messages.
    EndOfStream,
    /// Nothing arrived while part of a message was buffered.
    UnexpectedEof,
}

/// The meaning of a read that brought `n` bytes and left `filled` bytes in
/// the buffer.
pub open spec fn status_of(n: nat, filled: nat) -> ReadStatus {
    if n != 0 {
        ReadStatus::More
    } else if filled == 0 {
        ReadStatus::EndOfStream
    } else {
        ReadStatus::UnexpectedEof
    }
}

/// Judges a finished read: `n` is the number of bytes it brought, `buf`
/// the buffer it appended them to.
pub fn after_read(n: usize, buf: &ReceiveBuffer) -> (status: ReadStatus)
    ensures
        status == status_of(n as nat, buf@.filled.len()),
{
    if n != 0 {
        ReadStatus::More
    } else if buf.is_empty() {
        ReadStatus::EndOfStream
    } else {
        ReadStatus::UnexpectedEof
    }
}

/// How a whole run of the loop ends, as mathematics.
pub enum Ending<O> {
    /// A whole message was parsed.
    Parsed { value: O },
    /// The stream ended cleanly, with no part of a message pending.
    EndOfStream,
    /// The loop gave up.
    Failed(Failure),
}

/// A finished run of the loop: how it ended, and what it left in the
/// buffer and in the stream.
pub struct Run<O> {
    /// How the run ended.
    pub ending: Ending<O>,
    /// The buffer at the end: after a message, what followed it.
    pub buffer: BufferState,
    /// The stream at the end: what was not read, and the reads issued.
    pub stream: StreamState,
}

/// What one whole turn of the loop leads to: the end of the run, or
/// another turn on a fuller buffer.
pub enum Turn<O> {
    /// The run is over.
    Ended(Run<O>),
    /// A read brought bytes; the next turn starts from here.
    Again { buffer: BufferState, stream: StreamState },
}

/// One whole turn of the loop on the grammar's verdict `verdict` for the
/// filled bytes: the decision, and where it asks for one, the read and
/// what the read means.
pub open spec fn turn<O>(
    verdict: Verdict<O>,
    state: BufferState,
    stream: StreamState,
    max_len: nat,
) -> Turn<O> {
    let ready = state_after(verdict, state, max_len);
    match step_of(verdict, state, max_len) {
        Step::Parsed { value } => Turn::Ended(
            Run { ending: Ending::Parsed { value }, buffer: ready, stream },
        ),
        Step::Failed(failure) => Turn::Ended(
            Run { ending: Ending::Failed(failure), buffer: ready, stream },
        ),
        Step::NeedRead { limit } => {
            let window = ready.window(limit);
            let chunk = next_chunk(stream.pending, window);
            let filled = ready.appended(chunk);
            let rest = stream.after_read(window);
            match status_of(chunk.len(), filled.filled.len()) {
                ReadStatus::More => Turn::Again { buffer: filled, stream: rest },
                ReadStatus::EndOfStream => Turn::Ended(
                    Run { ending: Ending::EndOfStream, buffer: filled, stream: rest },
                ),
                ReadStatus::UnexpectedEof => Turn::Ended(
                    Run {
                        ending: Ending::Failed(Failure::UnexpectedEof),
                        buffer: filled,
                        stream: rest,
                    },
                ),
            }
        },
    }
}

/// A turn that leads to another has taken at least one byte out of the
/// stream.
pub proof fn lemma_turn_consumes<O>(
    verdict: Verdict<O>,
    state: BufferState,
    stream: StreamState,
    max_len: nat,
)
    ensures
        turn(verdict, state, stream, max_len) matches Turn::Again { stream: rest, .. }
            ==> rest.pending.flatten().len() < stream.pending.flatten().len(),
{
    if let Step::NeedRead { limit } = step_of(verdict, state, max_len) {
        let ready = state_after(verdict, state, max_len);
        lemma_read_conserves(stream.pending, ready.window(limit));
    }
}

/// The run of the loop for the grammar `language`, from a buffer in
/// `state` and a stream in `stream`, with `max_len` as the most that the
/// buffer may hold for one message: turn after turn, until one ends it.
pub open spec fn run<O>(
    language: spec_fn(Seq<u8>) -> Verdict<O>,
    state: BufferState,
    stream: StreamState,
    max_len: nat,
) -> Run<O>
    decreases stream.pending.flatten().len(),
{
    match turn(language(state.filled), state, stream, max_len) {
        Turn::Ended(outcome) => outcome,
        Turn::Again { buffer, stream: rest } => {
            proof {
                lemma_turn_consumes(language(state.filled), state, stream, max_len);
            }
            run(language, buffer, rest, max_len)
        },
    }
}

/// Whether a run from `state` and `stream` can end as `outcome` when each
/// turn goes by an answer that `parser` may give on the filled bytes.
pub open spec fn may_end_as<P, O>(
    parser: P,
    state: BufferState,
    stream: StreamState,
    max_len: nat,
    outcome: Run<O>,
) -> bool where P: Fn(&[u8]) -> IResult<&[u8], O>
    decreases stream.pending.flatten().len(),
{
    exists|input: &[u8], answer: IResult<&[u8], O>|
        {
            &&& input@ == state.filled
            &&& #[trigger] call_ensures(parser, (input,), answer)
            &&& match turn(verdict_of(answer), state, stream, max_len) {
                Turn::Ended(ended) => outcome == ended,
                Turn::Again { buffer, stream: rest } => {
                    &&& rest.pending.flatten().len() < stream.pending.flatten().len()
                    &&& may_end_as(parser, buffer, rest, max_len, outcome)
                },
            }
        }
}

/// A parser that computes a grammar leaves one way for a run to end: the
/// run of that grammar.
pub proof fn lemma_run_of_conforming_parser<P, O>(
    parser: P,
    language: spec_fn(Seq<u8>) -> Verdict<O>,
    state: BufferState,
    stream: StreamState,
    max_len: nat,
    outcome: Run<O>,
) where P: Fn(&[u8]) -> IResult<&[u8], O>
    requires
        conforms(parser, language),
        may_end_as(parser, state, stream, max_len, outcome),
    ensures
        outcome == run(language, state, stream, max_len),
    decreases stream.pending.flatten().len(),
{
    let (input, answer) = choose|input: &[u8], answer: IResult<&[u8], O>|
        {
            &&& input@ == state.filled
            &&& #[trigger] call_ensures(parser, (input,), answer)
            &&& match turn(verdict_of(answer), state, stream, max_len) {
                Turn::Ended(ended) => outcome == ended,
                Turn::Again { buffer, stream: rest } => {
                    &&& rest.pending.flatten().len() < stream.pending.flatten().len()
                    &&& may_end_as(parser, buffer, rest, max_len, outcome)
                },
            }
        };
    assert(verdict_of(answer) == language(state.filled));
    match turn(verdict_of(answer), state, stream, max_len) {
        Turn::Ended(ended) => {},
        Turn::Again { buffer, stream: rest } => {
            lemma_run_of_conforming_parser(parser, language, buffer, rest, max_len, outcome);
        },
    }
}

/// Whether `outcome` is what a caller sees in `result` and in the stream
/// as it is left: the same ending, the same stream, and after a message
/// the same buffer.
pub open spec fn shows<O>(
    outcome: Run<O>,
    result: Result<Option<(ReceiveBuffer, O)>, ReadError>,
    stream: StreamState,
) -> bool {
    &&& outcome.stream == stream
    &&& match result {
        Ok(Some((kept, value))) => outcome.ending == (Ending::Parsed { value }) && outcome.buffer
            == kept@,
        Ok(None) => outcome.ending == Ending::<O>::EndOfStream,
        Err(error) => outcome.ending == Ending::<O>::Failed(error@),
    }
}

/// Reads from `stream` into `buf` until `parser` recognises one whole
/// message, and returns the message with the buffer, trimmed to the bytes
/// that follow it. Returns `None` where the stream ends with nothing
/// buffered.
///
/// What comes back is the end of a run in which every turn went by an
/// answer of `parser` on the bytes filled at that turn. Where `parser`
/// computes a mathematical grammar, that is the run of the grammar.
pub fn read_and_parse<P, O>(
    parser: P,
    stream: &mut MemoryStream,
    buf: ReceiveBuffer,
    max_len: usize,
) -> (result: Result<Option<(ReceiveBuffer, O)>, ReadError>) where
    P: Fn(&[u8]) -> IResult<&[u8], O>,
    requires
        is_grammar(parser),
    ensures
        exists|outcome: Run<O>|
            {
                &&& #[trigger] may_end_as(parser, buf@, old(stream)@, max_len as nat, outcome)
                &&& shows(outcome, result, final(stream)@)
            },
        forall|language: spec_fn(Seq<u8>) -> Verdict<O>| #[trigger]
            conforms(parser, language) ==> shows(
                run(language, buf@, old(stream)@, max_len as nat),
                result,
                final(stream)@,
            ),
{
    let mut held = buf;
    loop
        invariant
            is_grammar(parser),
            forall|outcome: Run<O>| #[trigger]
                may_end_as(parser, held@, stream@, max_len as nat, outcome) ==> may_end_as(
                    parser,
                    buf@,
                    old(stream)@,
                    max_len as nat,
                    outcome,
                ),
        decreases stream@.pending.flatten().len(),
    {
        let ghost before = held@;
        let ghost pending = stream@;
        let progress = advance(&parser, &mut held, max_len);
        let ghost (input, answer) = choose|input: &[u8], answer: IResult<&[u8], O>|
            {
                &&& input@ == before.filled
                &&& #[trigger] call_ensures(parser, (input,), answer)
                &&& progress@ == step_of(verdict_of(answer), before, max_len as nat)
                &&& held@ == state_after(verdict_of(answer), before, max_len as nat)
                &&& answer matches Ok((rest, _)) ==> held@.filled == rest@
            };
        proof {
            lemma_turn_consumes(verdict_of(answer), before, pending, max_len as nat);
        }
        let result = match progress {
            Progress::Parsed(value) => Ok(Some((held, value))),
            Progress::Failed(error) => Err(error),
            Progress::NeedRead { limit } => {
                let n = held.read_into(limit, stream);
                match after_read(n, &held) {
                    ReadStatus::More => {
                        proof {
                            assert(turn(verdict_of(answer), before, pending, max_len as nat) == (
                            Turn::<O>::Again { buffer: held@, stream: stream@ }));
                            assert forall|outcome: Run<O>| #[trigger]
                                may_end_as(
                                    parser,
                                    held@,
                                    stream@,
                                    max_len as nat,
                                    outcome,
                                ) implies may_end_as(
                                parser,
                                before,
                                pending,
                                max_len as nat,
                                outcome,
                            ) by {
                                assert(call_ensures(parser, (input,), answer));
                            }
                        }
                        continue ;
                    },
                    ReadStatus::EndOfStream => Ok(None),
                    ReadStatus::UnexpectedEof => Err(ReadError::UnexpectedEof),
                }
            },
        };
        proof {
            let ended = choose|ended: Run<O>|
                turn(verdict_of(answer), before, pending, max_len as nat) == Turn::Ended(ended);
            assert(turn(verdict_of(answer), before, pending, max_len as nat) == Turn::Ended(
                ended,
            ));
            assert(shows(ended, result, stream@));
            assert(may_end_as(parser, before, pending, max_len as nat, ended)) by {
                assert(call_ensures(parser, (input,), answer));
            }
            assert forall|language: spec_fn(Seq<u8>) -> Verdict<O>| #[trigger]
                conforms(parser, language) implies shows(
                run(language, buf@, old(stream)@, max_len as nat),
                result,
                stream@,
            ) by {
                lemma_run_of_conforming_parser(
                    parser,
                    language,
                    buf@,
                    old(stream)@,
                    max_len as nat,
                    ended,
                );
            }
        }
        return result;
    }
}

} // verus!
