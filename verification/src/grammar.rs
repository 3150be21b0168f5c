//! The injected grammar: what a parser may answer, and what the read loop
//! needs it to promise.
//!
//! A grammar is any function from the buffered bytes to a `nom` result over
//! byte slices. Success carries the unconsumed rest of the input and the
//! parsed value; an error is either a request for more data or a rejection.

use nom::IResult;
use vstd::prelude::*;
use vstd::slice::slice_to_vec;

verus! {

/// `nom::Needed`, which says how much more input a parser asked for. The
/// type is declared without its contents: values of it are carried, never
/// read or built.
#[verifier::external_type_specification]
#[verifier::external_body]
pub struct ExNeeded(nom::Needed);

/// `nom::error::ErrorKind`, the code that names the parser which rejected
/// the input. The type is declared without its contents: a code is handed
/// on to the caller as it came.
#[verifier::external_type_specification]
#[verifier::external_body]
pub struct ExErrorKind(nom::error::ErrorKind);

/// `nom::error::Error`, the default error of a `nom` parser. The type is
/// declared as `nom` defines it, a struct of two public fields: `input`,
/// the input at the point of rejection, and `code`.
#[verifier::external_type_specification]
#[verifier::reject_recursive_types(I)]
pub struct ExError<I>(nom::error::Error<I>);

/// `nom::Err`, the error side of a `nom` result. The type is declared as
/// `nom` defines it, an enum of three variants: `Incomplete` with what is
/// needed, and `Error` and `Failure` with the parser's error.
#[verifier::external_type_specification]
#[verifier::reject_recursive_types(E)]
pub struct ExErr<E>(nom::Err<E>);

/// Why a grammar rejected an input, as mathematics.
pub struct Rejection {
    /// The bytes at which the grammar gave up.
    pub input: Seq<u8>,
    /// The code of the parser that rejected them.
    pub code: nom::error::ErrorKind,
    /// Whether the rejection was reported as unrecoverable.
    pub fatal: bool,
}

/// What a grammar says of one input.
pub enum Verdict<O> {
    /// One whole message was recognised; the last `rest_len` bytes of the
    /// input were not consumed.
    Done { rest_len: nat, value: O },
    /// The input is the beginning of a message that has not ended yet.
    Incomplete,
    /// The input cannot begin any message.
    Malformed(Rejection),
}

/// The verdict that a `nom` result stands for: success with the length of
/// its rest, `Incomplete` as it is, `Error` as a recoverable rejection and
/// `Failure` as an unrecoverable one.
pub open spec fn verdict_of<O>(result: IResult<&[u8], O>) -> Verdict<O> {
    match result {
        Ok((rest, value)) => Verdict::Done { rest_len: rest@.len(), value },
        Err(nom::Err::Incomplete(_)) => Verdict::Incomplete,
        Err(nom::Err::Error(e)) => Verdict::Malformed(
            Rejection { input: e.input@, code: e.code, fatal: false },
        ),
        Err(nom::Err::Failure(e)) => Verdict::Malformed(
            Rejection { input: e.input@, code: e.code, fatal: true },
        ),
    }
}

/// Whether `parser` can be called on every input and, when it succeeds,
/// returns as its rest the tail of the very input it was given.
pub open spec fn is_grammar<P, O>(parser: P) -> bool where P: Fn(&[u8]) -> IResult<&[u8], O> {
    &&& forall|input: &[u8]| #[trigger] call_requires(parser, (input,))
    &&& forall|input: &[u8], result: IResult<&[u8], O>| #[trigger]
        call_ensures(parser, (input,), result) ==> match result {
            Ok((rest, _)) => rest@.len() <= input@.len() && rest@ == input@.skip(
                input@.len() - rest@.len(),
            ),
            Err(_) => true,
        }
}

/// Whether `parser` computes the mathematical grammar `language`: on every
/// input its result stands for the verdict that `language` gives.
pub open spec fn conforms<P, O>(
    parser: P,
    language: spec_fn(Seq<u8>) -> Verdict<O>,
) -> bool where P: Fn(&[u8]) -> IResult<&[u8], O> {
    forall|input: &[u8], result: IResult<&[u8], O>| #[trigger]
        call_ensures(parser, (input,), result) ==> verdict_of(result) == language(input@)
}

/// The diagnostic context of a rejection.
#[derive(Debug, PartialEq, Eq)]
pub struct ParseFailure {
    /// The offending input: the bytes at which the grammar gave up.
    pub input: Vec<u8>,
    /// The code of the parser that rejected them.
    pub code: nom::error::ErrorKind,
    /// Whether the grammar reported the rejection as unrecoverable.
    pub fatal: bool,
}

impl View for ParseFailure {
    type V = Rejection;

    open spec fn view(&self) -> Rejection {
        Rejection { input: self.input@, code: self.code, fatal: self.fatal }
    }
}

/// One answer of a grammar, detached from the input it was computed on.
#[derive(Debug, PartialEq, Eq)]
pub enum ParseOutcome<O> {
    /// One whole message was recognised; the last `rest_len` bytes of the
    /// input were not consumed.
    Done { rest_len: usize, value: O },
    /// More data is needed.
    Incomplete,
    /// The input was rejected.
    Malformed(ParseFailure),
}

impl<O> View for ParseOutcome<O> {
    type V = Verdict<O>;

    open spec fn view(&self) -> Verdict<O> {
        match *self {
            ParseOutcome::Done { rest_len, value } => Verdict::Done {
                rest_len: rest_len as nat,
                value,
            },
            ParseOutcome::Incomplete => Verdict::Incomplete,
            ParseOutcome::Malformed(failure) => Verdict::Malformed(failure@),
        }
    }
}

/// Detaches a grammar's result from its input: the rest becomes its length,
/// and a rejection keeps a copy of the offending bytes.
pub fn outcome_of<O>(result: IResult<&[u8], O>) -> (outcome: ParseOutcome<O>)
    ensures
        outcome@ == verdict_of(result),
{
    match result {
        Ok((rest, value)) => ParseOutcome::Done { rest_len: rest.len(), value },
        Err(nom::Err::Incomplete(_)) => ParseOutcome::Incomplete,
        Err(nom::Err::Error(e)) => ParseOutcome::Malformed(
            ParseFailure { input: slice_to_vec(e.input), code: e.code, fatal: false },
        ),
        Err(nom::Err::Failure(e)) => ParseOutcome::Malformed(
            ParseFailure { input: slice_to_vec(e.input), code: e.code, fatal: true },
        ),
    }
}

} // verus!
