//! The growable receive buffer: a filled prefix of received bytes that no
//! parse has consumed yet, and free capacity for the next read.

use crate::stream::{next_chunk, MemoryStream};
use vstd::prelude::*;
use vstd::slice::slice_subrange;

verus! {

/// The free capacity that growing gives to a buffer that has none at all.
pub const INITIAL_CAPACITY: usize = 4096;

/// What a receive buffer holds, as mathematics.
pub struct BufferState {
    /// The bytes received and not yet consumed, oldest first.
    pub filled: Seq<u8>,
    /// How many more bytes the buffer takes before it has to grow.
    pub free: nat,
}

impl BufferState {
    /// Filled bytes and free capacity together.
    pub open spec fn capacity(self) -> nat {
        self.filled.len() + self.free
    }

    /// Whether the whole capacity can be counted by the machine.
    pub open spec fn fits(self) -> bool {
        self.capacity() <= usize::MAX
    }

    /// The state after a parse that left the last `rest_len` filled bytes
    /// unconsumed: exactly those bytes stay, the free capacity is untouched.
    pub open spec fn kept(self, rest_len: nat) -> BufferState
        recommends
            rest_len <= self.filled.len(),
    {
        BufferState { filled: self.filled.skip(self.filled.len() - rest_len), free: self.free }
    }

    /// The whole capacity after growing: a first allotment for a buffer
    /// without any, twice the present one otherwise, and never more than
    /// the machine can count.
    pub open spec fn grown_capacity(self) -> nat {
        if self.capacity() == 0 {
            INITIAL_CAPACITY as nat
        } else if 2 * self.capacity() > usize::MAX {
            usize::MAX as nat
        } else {
            2 * self.capacity()
        }
    }

    /// The state after growing: the same bytes, more room behind them.
    pub open spec fn grown(self) -> BufferState
        recommends
            self.fits(),
    {
        BufferState {
            filled: self.filled,
            free: (self.grown_capacity() - self.filled.len()) as nat,
        }
    }

    /// The most that one read may append when it is told to stop at
    /// `limit` bytes: the limit or the free capacity, whichever is less.
    pub open spec fn window(self, limit: nat) -> nat {
        if limit <= self.free {
            limit
        } else {
            self.free
        }
    }

    /// The state after `chunk` arrived behind the filled bytes.
    pub open spec fn appended(self, chunk: Seq<u8>) -> BufferState
        recommends
            chunk.len() <= self.free,
    {
        BufferState { filled: self.filled + chunk, free: (self.free - chunk.len()) as nat }
    }
}

/// Growing never shrinks the free capacity, and enlarges it wherever the
/// machine can count further.
pub proof fn lemma_grown_is_larger(state: BufferState)
    requires
        state.fits(),
    ensures
        state.grown().fits(),
        state.grown().free >= state.free,
        state.capacity() < usize::MAX ==> state.grown().free > state.free,
{
}

/// A receive buffer that owns its bytes.
///
/// It is created once, filled by reads, trimmed by each successful parse,
/// and reused for the next message. Trimming moves no byte: the storage
/// stays, and the filled bytes begin further into it.
#[derive(Debug)]
pub struct ReceiveBuffer {
    data: Vec<u8>,
    start: usize,
    free: usize,
}

impl View for ReceiveBuffer {
    type V = BufferState;

    closed spec fn view(&self) -> BufferState {
        BufferState { filled: self.data@.skip(self.start as int), free: self.free as nat }
    }
}

impl ReceiveBuffer {
    #[verifier::type_invariant]
    spec fn counted(&self) -> bool {
        &&& self.start <= self.data@.len()
        &&& self.data@.len() - self.start + self.free <= usize::MAX
    }

    /// An empty buffer without any capacity.
    pub fn new() -> (buf: ReceiveBuffer)
        ensures
            buf@ == (BufferState { filled: Seq::empty(), free: 0 }),
    {
        ReceiveBuffer::with_capacity(0)
    }

    /// An empty buffer with `capacity` bytes of free capacity.
    pub fn with_capacity(capacity: usize) -> (buf: ReceiveBuffer)
        ensures
            buf@ == (BufferState { filled: Seq::empty(), free: capacity as nat }),
    {
        let buf = ReceiveBuffer { data: Vec::new(), start: 0, free: capacity };
        proof {
            assert(buf@.filled =~= Seq::empty());
        }
        buf
    }

    /// The number of filled bytes.
    pub fn len(&self) -> (n: usize)
        ensures
            n == self@.filled.len(),
            self@.fits(),
    {
        proof {
            use_type_invariant(self);
        }
        self.data.len() - self.start
    }

    /// Whether no byte is filled.
    pub fn is_empty(&self) -> (empty: bool)
        ensures
            empty <==> self@.filled.len() == 0,
    {
        proof {
            use_type_invariant(self);
        }
        self.data.len() == self.start
    }

    /// The free capacity: how many bytes the next read may append.
    pub fn cap(&self) -> (n: usize)
        ensures
            n == self@.free,
            self@.fits(),
    {
        proof {
            use_type_invariant(self);
        }
        self.free
    }

    /// The filled bytes, without copying them.
    pub fn filled(&self) -> (bytes: &[u8])
        ensures
            bytes@ == self@.filled,
    {
        proof {
            use_type_invariant(self);
        }
        slice_subrange(self.data.as_slice(), self.start, self.data.len())
    }

    /// Takes the buffer apart, leaving an empty one without capacity in
    /// its place.
    fn take(&mut self) -> (parts: (Vec<u8>, usize, usize))
        ensures
            parts.1 <= parts.0@.len(),
            parts.0@.len() - parts.1 + parts.2 <= usize::MAX,
            old(self)@ == (BufferState {
                filled: parts.0@.skip(parts.1 as int),
                free: parts.2 as nat,
            }),
            final(self)@ == (BufferState { filled: Seq::empty(), free: 0 }),
    {
        proof {
            use_type_invariant(&*self);
        }
        let mut taken = ReceiveBuffer::new();
        core::mem::swap(self, &mut taken);
        (taken.data, taken.start, taken.free)
    }

    /// Trims the filled bytes to their last `rest_len`, dropping what a
    /// parse consumed in front of them.
    pub fn keep(&mut self, rest_len: usize)
        requires
            rest_len <= old(self)@.filled.len(),
        ensures
            final(self)@ == old(self)@.kept(rest_len as nat),
    {
        let (mut data, start, free) = self.take();
        let from: usize = if rest_len == 0 {
            data.clear();
            0
        } else {
            data.len() - rest_len
        };
        proof {
            assert(data@.skip(from as int) =~= old(self)@.kept(rest_len as nat).filled);
        }
        *self = ReceiveBuffer { data, start: from, free };
    }

    /// Enlarges the free capacity; the filled bytes stay as they are.
    pub fn grow(&mut self)
        ensures
            final(self)@ == old(self)@.grown(),
    {
        let (mut data, start, free) = self.take();
        if start > 0 {
            data = data.split_off(start);
        }
        let len: usize = data.len();
        let capacity: usize = len + free;
        let enlarged: usize = if capacity == 0 {
            INITIAL_CAPACITY
        } else if capacity > usize::MAX / 2 {
            usize::MAX
        } else {
            2 * capacity
        };
        proof {
            assert(data@.skip(0) =~= old(self)@.filled);
        }
        *self = ReceiveBuffer { data, start: 0, free: enlarged - len };
    }

    /// Appends `bytes` behind the filled bytes if the free capacity holds
    /// them all, and says whether it did. A slice that is too long leaves
    /// the buffer as it was.
    pub fn put(&mut self, bytes: &[u8]) -> (stored: bool)
        ensures
            stored <==> bytes@.len() <= old(self)@.free,
            stored ==> final(self)@ == old(self)@.appended(bytes@),
            !stored ==> final(self)@ == old(self)@,
    {
        if bytes.len() > self.cap() {
            return false;
        }
        let (mut data, start, free) = self.take();
        data.extend_from_slice(bytes);
        proof {
            assert(data@.skip(start as int) =~= old(self)@.filled + bytes@);
        }
        *self = ReceiveBuffer { data, start, free: free - bytes.len() };
        true
    }

    /// Performs one read from `source`, appending at most `limit` bytes and
    /// never more than the free capacity holds. Returns how many bytes
    /// arrived; none arrive where the source has nothing to give or the
    /// buffer no room.
    pub fn read_into(&mut self, limit: usize, source: &mut MemoryStream) -> (n: usize)
        ensures
            n == next_chunk(old(source)@.pending, old(self)@.window(limit as nat)).len(),
            final(self)@ == old(self)@.appended(
                next_chunk(old(source)@.pending, old(self)@.window(limit as nat)),
            ),
            final(source)@ == old(source)@.after_read(old(self)@.window(limit as nat)),
    {
        proof {
            use_type_invariant(&*self);
        }
        let window: usize = if limit <= self.free {
            limit
        } else {
            self.free
        };
        let chunk = source.read(window);
        let stored = self.put(chunk.as_slice());
        assert(stored);
        chunk.len()
    }
}

} // verus!
