//! An in-memory write endpoint: it keeps every byte it accepts, and it can
//! be given limited room, so that a write comes up short.

use crate::segments::{lemma_join_of_prefix, segment_views};
use vstd::prelude::*;
use vstd::slice::slice_subrange;

verus! {

/// How many of `offered` bytes a sink with `room` bytes of room accepts.
pub open spec fn accepted(room: nat, offered: nat) -> nat {
    if offered <= room {
        offered
    } else {
        room
    }
}

/// What an in-memory sink holds, as mathematics.
pub struct SinkState {
    /// Every byte accepted so far, in the order of arrival.
    pub written: Seq<u8>,
    /// How many more bytes the sink accepts.
    pub room: nat,
    /// The number of fragments of every gathered write so far, oldest
    /// first.
    pub writes: Seq<nat>,
}

impl SinkState {
    /// The state after one gathered write of `pieces`: the bytes of the
    /// fragments arrive in the order of the fragments, as far as there is
    /// room.
    pub open spec fn after_write(self, pieces: Seq<Seq<u8>>) -> SinkState {
        let n = accepted(self.room, pieces.flatten().len());
        SinkState {
            written: self.written + pieces.flatten().take(n as int),
            room: (self.room - n) as nat,
            writes: self.writes.push(pieces.len()),
        }
    }
}

/// A write endpoint that keeps what it is given.
#[derive(Debug)]
pub struct MemorySink {
    written: Vec<u8>,
    room: usize,
    log: Vec<usize>,
}

impl View for MemorySink {
    type V = SinkState;

    closed spec fn view(&self) -> SinkState {
        SinkState {
            written: self.written@,
            room: self.room as nat,
            writes: Seq::new(self.log@.len(), |i: int| self.log@[i] as nat),
        }
    }
}

impl MemorySink {
    /// An empty sink that accepts `room` bytes and no more.
    pub fn with_room(room: usize) -> (sink: MemorySink)
        ensures
            sink@ == (SinkState { written: Seq::empty(), room: room as nat, writes: Seq::empty() }),
    {
        let sink = MemorySink { written: Vec::new(), room, log: Vec::new() };
        proof {
            assert(sink@.writes =~= Seq::empty());
        }
        sink
    }

    /// The bytes accepted so far.
    pub fn written(&self) -> (bytes: &[u8])
        ensures
            bytes@ == self@.written,
    {
        self.written.as_slice()
    }

    /// The number of gathered writes issued so far.
    pub fn write_count(&self) -> (n: usize)
        ensures
            n == self@.writes.len(),
    {
        self.log.len()
    }

    /// Performs one gathered write of `pieces`, in their order, and
    /// returns the number of bytes accepted together with the fragments,
    /// which are handed back as they came.
    pub fn writev(&mut self, pieces: Vec<Vec<u8>>) -> (done: (usize, Vec<Vec<u8>>))
        ensures
            done.0 == accepted(old(self)@.room, segment_views(pieces@).flatten().len()),
            done.1 == pieces,
            final(self)@ == old(self)@.after_write(segment_views(pieces@)),
    {
        let ghost views = segment_views(pieces@);
        let ghost joined = views.flatten();
        let ghost start = self@;
        self.log.push(pieces.len());
        proof {
            assert(self@.writes =~= start.writes.push(views.len()));
            assert(views.take(0) =~= Seq::<Seq<u8>>::empty());
            assert(self@.written =~= start.written + joined.take(0));
        }
        let mut n: usize = 0;
        let mut i: usize = 0;
        while i < pieces.len()
            invariant
                i <= pieces.len(),
                views == segment_views(pieces@),
                joined == views.flatten(),
                n == accepted(start.room, views.take(i as int).flatten().len()),
                self@.written == start.written + joined.take(n as int),
                start.room <= usize::MAX,
                n + self.room == start.room,
                self@.room == start.room - n,
                self@.writes == start.writes.push(views.len()),
            decreases pieces.len() - i,
        {
            proof {
                lemma_join_of_prefix(views, i as int);
                lemma_join_of_prefix(views, i + 1);
            }
            let piece = pieces[i].as_slice();
            let k: usize = if piece.len() <= self.room {
                piece.len()
            } else {
                self.room
            };
            let ghost before = self.written@;
            self.written.extend_from_slice(slice_subrange(piece, 0, k));
            self.room = self.room - k;
            proof {
                let so_far = views.take(i as int).flatten();
                let next = views.take(i + 1).flatten();
                assert(next == so_far + piece@);
                assert(self.written@ =~= before + piece@.take(k as int));
                assert(joined.take(n + k) =~= joined.take(n as int) + piece@.take(k as int)) by {
                    assert(next == joined.take(next.len() as int));
                    assert(so_far == joined.take(so_far.len() as int));
                    if k > 0 {
                        assert(n == so_far.len());
                        assert forall|j: int| 0 <= j < n + k implies joined.take(n + k)[j] == (
                        joined.take(n as int) + piece@.take(k as int))[j] by {
                            assert(joined[j] == next[j]);
                        }
                    }
                }
            }
            n = n + k;
            i = i + 1;
        }
        proof {
            lemma_join_of_prefix(views, i as int);
        }
        (n, pieces)
    }
}

} // verus!
