//! The vectored write helper: one gathered write for a whole fragment
//! list, and the list handed back empty for the next response.

use crate::pieces::PieceList;
use crate::segments::segment_views;
use crate::sink::{accepted, MemorySink};
use vstd::prelude::*;

verus! {

/// Why a write did not go through.
#[derive(Clone, Copy, Debug, PartialEq, Eq, Structural)]
pub enum WriteError {
    /// The endpoint took fewer bytes than the list holds. Nothing is
    /// retried: the response is cut off, and the connection is of no
    /// further use.
    ShortWrite { written: usize, expected: usize },
}

/// A fragment list taken apart for one gathered write.
#[derive(Debug)]
pub struct PendingWrite {
    /// The fragments, in the order in which they go out.
    pub pieces: Vec<Vec<u8>>,
    /// The number of bytes in all fragments together.
    pub len: usize,
    /// The number of fragments.
    pub num_chunks: usize,
}

/// Takes `list` apart for one gathered write, counting its bytes and its
/// fragments before anything is written.
pub fn begin_write(list: PieceList) -> (pending: PendingWrite)
    ensures
        segment_views(pending.pieces@) == list@,
        pending.len == list@.flatten().len(),
        pending.num_chunks == list@.len(),
{
    let len = list.len();
    let num_chunks = list.num_pieces();
    let pieces = list.into_vec();
    PendingWrite { pieces, len, num_chunks }
}

/// Settles a gathered write that took `written` of `expected` bytes:
/// a full write gives back the fragment list, emptied and ready for the
/// next response, built on the storage of `drained`; a short one is an
/// error.
pub fn finish_write(
    written: usize,
    expected: usize,
    drained: Vec<Vec<u8>>,
) -> (settled: Result<PieceList, WriteError>)
    ensures
        settled is Ok <==> written >= expected,
        settled matches Ok(list) ==> list@ == Seq::<Seq<u8>>::empty(),
        settled matches Err(error) ==> error == (WriteError::ShortWrite { written, expected }),
{
    if written < expected {
        return Err(WriteError::ShortWrite { written, expected });
    }
    let mut drained = drained;
    drained.clear();
    proof {
        assert(segment_views(drained@) =~= Seq::<Seq<u8>>::empty());
    }
    let list = PieceList::from_vec(drained);
    Ok(list.unwrap())
}

/// Writes all fragments of `list` to `sink` in one gathered write and
/// returns the list, emptied, for reuse.
///
/// The write succeeds exactly where the sink has room for every byte of
/// the list. Either way the sink has seen one write, and holds the bytes
/// of the fragments, in their order, as far as it had room.
pub fn write_all_list(
    sink: &mut MemorySink,
    list: PieceList,
) -> (settled: Result<PieceList, WriteError>)
    ensures
        final(sink)@ == old(sink)@.after_write(list@),
        settled is Ok <==> list@.flatten().len() <= old(sink)@.room,
        settled matches Ok(emptied) ==> emptied@ == Seq::<Seq<u8>>::empty(),
        settled matches Err(error) ==> error == (WriteError::ShortWrite {
            written: accepted(old(sink)@.room, list@.flatten().len()) as usize,
            expected: list@.flatten().len() as usize,
        }),
{
    let pending = begin_write(list);
    let (written, drained) = sink.writev(pending.pieces);
    finish_write(written, pending.len, drained)
}

} // verus!
