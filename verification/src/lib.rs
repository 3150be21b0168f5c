//! The read/parse/write core of a byte-stream protocol endpoint.
//!
//! A caller owns a connection and a reusable [`ReceiveBuffer`]. It asks
//! [`advance`] whether the buffered bytes already hold one whole message
//! of an injected grammar; while they do not, it reads more bytes, has
//! [`after_read`] judge the read, and asks again, never buffering more
//! than a fixed maximum. A response leaves as a [`PieceList`]:
//! [`begin_write`] takes it apart for one gathered write, and
//! [`finish_write`] settles the write and hands the list back empty.
//!
//! Nothing in here touches a socket. [`read_and_parse`] and
//! [`write_all_list`] run the two operations from end to end against the
//! in-memory endpoints [`MemoryStream`] and [`MemorySink`]; a caller with
//! a real connection takes the same steps around its own reads and
//! writes.
//!
//! The module [`theorems`] states what holds of every run of the read
//! loop: that no byte is lost or repeated however the reads are cut, that
//! the buffer stays within its limit, how a closing stream ends a run,
//! and that messages which arrived together are parsed one after the
//! other without further reads.

pub mod buffer;
pub mod grammar;
pub mod pieces;
pub mod read;
pub mod segments;
pub mod semantic;
pub mod sink;
pub mod stream;
pub mod theorems;
pub mod write;

pub use buffer::ReceiveBuffer;
pub use grammar::{outcome_of, ParseFailure, ParseOutcome};
pub use pieces::PieceList;
pub use read::{
    advance, advance_with, after_read, read_and_parse, Progress, ReadError, ReadStatus,
};
pub use semantic::SemanticError;
pub use sink::MemorySink;
pub use stream::MemoryStream;
pub use write::{begin_write, finish_write, write_all_list, PendingWrite, WriteError};
