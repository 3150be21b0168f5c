//! Protocol-level failures and the canned replies that announce them.

use vstd::prelude::*;

verus! {

/// The bytes of an ASCII text, one byte for each character.
pub open spec fn ascii_bytes(text: Seq<char>) -> Seq<u8> {
    Seq::new(text.len(), |i: int| text[i] as u8)
}

/// Whether `bytes` is a response made of a status line and nothing else:
/// the protocol version, a three-digit status, a reason phrase without line
/// breaks, the end of that line, and the blank line that closes an empty
/// header section.
pub open spec fn is_bare_response(bytes: Seq<u8>) -> bool {
    &&& bytes.len() >= 17
    &&& bytes.take(9) == ascii_bytes("HTTP/1.1 "@)
    &&& forall|i: int| 9 <= i < 12 ==> 0x30 <= #[trigger] bytes[i] <= 0x39
    &&& bytes[12] == 0x20
    &&& bytes.skip(bytes.len() - 4) == seq![0x0du8, 0x0au8, 0x0du8, 0x0au8]
    &&& forall|i: int|
        0 <= i < bytes.len() - 4 ==> #[trigger] bytes[i] != 0x0d && bytes[i] != 0x0a
}

/// A protocol-level failure, as opposed to a transport-level one.
///
/// The set is closed. Each kind carries nothing beyond itself and maps to
/// one fixed reply, so a new kind never touches the read loop.
#[derive(Clone, Copy, Debug, PartialEq, Eq, Structural)]
pub enum SemanticError {
    /// The receive buffer reached its limit while a message was still
    /// incomplete.
    BufferLimitReachedWhileParsing,
}

impl SemanticError {
    /// The reply that tells the peer about this failure.
    pub open spec fn http_response(self) -> Seq<u8> {
        match self {
            SemanticError::BufferLimitReachedWhileParsing => ascii_bytes(
                "HTTP/1.1 431 Request Header Fields Too Large\r\n\r\n"@,
            ),
        }
    }

    /// The one-line description of this failure.
    pub open spec fn description(self) -> Seq<char> {
        match self {
            SemanticError::BufferLimitReachedWhileParsing => "buffering limit reached while parsing"@,
        }
    }

    /// Returns the canned reply for this failure, to be sent before the
    /// connection is closed.
    pub fn as_http_response(&self) -> (response: &'static [u8])
        ensures
            response@ == self.http_response(),
    {
        match self {
            SemanticError::BufferLimitReachedWhileParsing => {
                let text: &'static str = "HTTP/1.1 431 Request Header Fields Too Large\r\n\r\n";
                proof {
                    reveal_strlit("HTTP/1.1 431 Request Header Fields Too Large\r\n\r\n");
                    vstd::string::is_ascii_spec_bytes(text);
                }
                text.as_bytes()
            },
        }
    }

    /// Returns the description of this failure as text.
    pub fn message(&self) -> (text: &'static str)
        ensures
            text@ == self.description(),
    {
        match self {
            SemanticError::BufferLimitReachedWhileParsing => "buffering limit reached while parsing",
        }
    }
}

/// Every canned reply is a bare response: a status line followed by the
/// blank line that ends an empty header section.
pub proof fn lemma_response_is_bare(kind: SemanticError)
    ensures
        is_bare_response(kind.http_response()),
{
    reveal_strlit("HTTP/1.1 431 Request Header Fields Too Large\r\n\r\n");
    reveal_strlit("HTTP/1.1 ");
    let bytes = kind.http_response();
    assert(bytes.len() == 48);
    assert(bytes.take(9) =~= ascii_bytes("HTTP/1.1 "@));
    assert(bytes.skip(bytes.len() - 4) =~= seq![0x0du8, 0x0au8, 0x0du8, 0x0au8]);
}

/// The reply identifies the failure: two kinds with the same reply are the
/// same kind.
pub proof fn lemma_response_identifies_kind(a: SemanticError, b: SemanticError)
    requires
        a.http_response() == b.http_response(),
    ensures
        a == b,
{
}

} // verus!
