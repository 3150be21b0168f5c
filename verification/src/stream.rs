//! An in-memory read endpoint: a connection whose arrivals are laid down in
//! advance, segment by segment.
//!
//! A read takes bytes from the segment at the front, never more than the
//! window it asked for; what does not fit stays for the next read. An empty
//! segment answers one read with zero bytes, as a closing peer does, and so
//! does every read once the segments are used up.

use crate::segments::segment_views;
use vstd::prelude::*;
use vstd::slice::{slice_subrange, slice_to_vec};

verus! {

/// The bytes that one read of at most `window` bytes delivers.
pub open spec fn next_chunk(pending: Seq<Seq<u8>>, window: nat) -> Seq<u8> {
    if pending.len() == 0 {
        Seq::empty()
    } else if pending[0].len() <= window {
        pending[0]
    } else {
        pending[0].take(window as int)
    }
}

/// The segments that are left after one read of at most `window` bytes.
pub open spec fn after_chunk(pending: Seq<Seq<u8>>, window: nat) -> Seq<Seq<u8>> {
    if pending.len() == 0 {
        pending
    } else if pending[0].len() <= window {
        pending.drop_first()
    } else {
        pending.update(0, pending[0].skip(window as int))
    }
}

/// The bytes that reads can still deliver before one of them comes back
/// empty: the segments in front of the first empty one, joined.
pub open spec fn available(pending: Seq<Seq<u8>>) -> Seq<u8>
    decreases pending.len(),
{
    if pending.len() == 0 || pending[0].len() == 0 {
        Seq::empty()
    } else {
        pending[0] + available(pending.drop_first())
    }
}

/// A read hands over bytes from the front of what is pending and leaves
/// the rest in place: nothing is lost, repeated or reordered.
pub proof fn lemma_read_conserves(pending: Seq<Seq<u8>>, window: nat)
    ensures
        next_chunk(pending, window).len() <= window,
        next_chunk(pending, window) + after_chunk(pending, window).flatten()
            == pending.flatten(),
{
    let chunk = next_chunk(pending, window);
    let rest = after_chunk(pending, window);
    if pending.len() == 0 {
        assert(chunk + rest.flatten() =~= pending.flatten());
    } else if pending[0].len() <= window {
        assert(chunk + rest.flatten() =~= pending.flatten());
    } else {
        assert(rest.drop_first() =~= pending.drop_first());
        assert(rest.first() == pending[0].skip(window as int));
        assert(pending[0].take(window as int) + pending[0].skip(window as int) =~= pending[0]);
        assert(chunk + rest.flatten() =~= pending.flatten());
    }
}

/// A read that brings bytes takes them from the front of what is
/// available; a read with room for at least one byte comes back empty only
/// when nothing is available.
pub proof fn lemma_read_takes_available(pending: Seq<Seq<u8>>, window: nat)
    requires
        window > 0,
    ensures
        next_chunk(pending, window).len() == 0 <==> available(pending).len() == 0,
        next_chunk(pending, window).len() > 0 ==> next_chunk(pending, window) + available(
            after_chunk(pending, window),
        ) == available(pending),
{
    let chunk = next_chunk(pending, window);
    let rest = after_chunk(pending, window);
    if pending.len() == 0 || pending[0].len() == 0 {
    } else if pending[0].len() <= window {
    } else {
        assert(rest.drop_first() =~= pending.drop_first());
        assert(rest[0] == pending[0].skip(window as int));
        assert(pending[0].take(window as int) + pending[0].skip(window as int) =~= pending[0]);
        assert(chunk + available(rest) =~= available(pending));
    }
}

/// What an in-memory stream holds, as mathematics.
pub struct StreamState {
    /// The segments not yet read, the next one first.
    pub pending: Seq<Seq<u8>>,
    /// The window of every read issued so far, oldest first.
    pub windows: Seq<nat>,
}

impl StreamState {
    /// The state after one read of at most `window` bytes.
    pub open spec fn after_read(self, window: nat) -> StreamState {
        StreamState {
            pending: after_chunk(self.pending, window),
            windows: self.windows.push(window),
        }
    }
}

/// A read endpoint that replays prepared segments and records every read.
#[derive(Debug)]
pub struct MemoryStream {
    segments: Vec<Vec<u8>>,
    index: usize,
    offset: usize,
    log: Vec<usize>,
}

impl View for MemoryStream {
    type V = StreamState;

    closed spec fn view(&self) -> StreamState {
        StreamState {
            pending: Seq::new(
                (self.segments@.len() - self.index) as nat,
                |i: int|
                    if i == 0 {
                        self.segments@[self.index as int]@.skip(self.offset as int)
                    } else {
                        self.segments@[self.index + i]@
                    },
            ),
            windows: Seq::new(self.log@.len(), |i: int| self.log@[i] as nat),
        }
    }
}

impl MemoryStream {
    #[verifier::type_invariant]
    spec fn positioned(&self) -> bool {
        &&& self.index <= self.segments@.len()
        &&& self.index == self.segments@.len() ==> self.offset == 0
        &&& self.index < self.segments@.len() ==> self.offset == 0 || self.offset
            < self.segments@[self.index as int]@.len()
    }

    /// A stream that will deliver `segments` in order and has seen no read.
    pub fn new(segments: Vec<Vec<u8>>) -> (stream: MemoryStream)
        ensures
            stream@ == (StreamState {
                pending: segment_views(segments@),
                windows: Seq::empty(),
            }),
    {
        let stream = MemoryStream { segments, index: 0, offset: 0, log: Vec::new() };
        proof {
            assert(stream@.pending =~~= segment_views(segments@));
            assert(stream@.windows =~= Seq::empty());
        }
        stream
    }

    /// The number of reads issued so far.
    pub fn read_count(&self) -> (n: usize)
        ensures
            n == self@.windows.len(),
    {
        self.log.len()
    }

    /// The number of segments not yet read to their end.
    pub fn segments_left(&self) -> (n: usize)
        ensures
            n == self@.pending.len(),
    {
        proof {
            use_type_invariant(self);
        }
        self.segments.len() - self.index
    }

    /// Reads at most `window` bytes from the segment at the front.
    pub fn read(&mut self, window: usize) -> (chunk: Vec<u8>)
        ensures
            chunk@ == next_chunk(old(self)@.pending, window as nat),
            final(self)@ == old(self)@.after_read(window as nat),
    {
        proof {
            use_type_invariant(&*self);
        }
        let mut log: Vec<usize> = Vec::new();
        core::mem::swap(&mut self.log, &mut log);
        log.push(window);
        self.log = log;
        proof {
            assert(self@.windows =~= old(self)@.windows.push(window as nat));
        }
        if self.index >= self.segments.len() {
            proof {
                assert(self@.pending =~= old(self)@.pending);
            }
            return Vec::new();
        }
        let segment = self.segments[self.index].as_slice();
        let left: usize = segment.len() - self.offset;
        if left <= window {
            let chunk = slice_to_vec(slice_subrange(segment, self.offset, segment.len()));
            self.offset = 0;
            self.index = self.index + 1;
            proof {
                assert(chunk@ =~= old(self)@.pending[0]);
                assert(self@.pending =~~= old(self)@.pending.drop_first());
            }
            chunk
        } else {
            let chunk = slice_to_vec(slice_subrange(segment, self.offset, self.offset + window));
            self.offset = self.offset + window;
            proof {
                assert(chunk@ =~= old(self)@.pending[0].take(window as int));
                assert(self@.pending =~~= old(self)@.pending.update(
                    0,
                    old(self)@.pending[0].skip(window as int),
                ));
            }
            chunk
        }
    }
}

} // verus!
