//! The outgoing fragment list: the pieces of one response, in the order in
//! which they go out.

use crate::segments::{lemma_join_of_prefix, segment_views};
use vstd::prelude::*;

verus! {

/// An ordered list of fragments that together make up one response.
///
/// The list owns its fragments until they are written. It always knows
/// how many bytes they hold in all.
#[derive(Debug)]
pub struct PieceList {
    pieces: Vec<Vec<u8>>,
    total: usize,
}

impl View for PieceList {
    type V = Seq<Seq<u8>>;

    closed spec fn view(&self) -> Seq<Seq<u8>> {
        segment_views(self.pieces@)
    }
}

impl PieceList {
    #[verifier::type_invariant]
    spec fn counted(&self) -> bool {
        self.total == segment_views(self.pieces@).flatten().len()
    }

    /// A list without fragments.
    pub fn new() -> (list: PieceList)
        ensures
            list@ == Seq::<Seq<u8>>::empty(),
    {
        let list = PieceList { pieces: Vec::new(), total: 0 };
        proof {
            assert(list@ =~= Seq::<Seq<u8>>::empty());
        }
        list
    }

    /// The number of bytes in all fragments together.
    pub fn len(&self) -> (n: usize)
        ensures
            n == self@.flatten().len(),
    {
        proof {
            use_type_invariant(self);
        }
        self.total
    }

    /// The number of fragments, empty ones included.
    pub fn num_pieces(&self) -> (n: usize)
        ensures
            n == self@.len(),
    {
        self.pieces.len()
    }

    /// Whether the list has no fragment at all.
    pub fn is_empty(&self) -> (empty: bool)
        ensures
            empty <==> self@.len() == 0,
    {
        self.pieces.len() == 0
    }

    /// Puts `piece` behind the fragments of the list. A piece that would
    /// take the byte count beyond what the machine can count is handed
    /// back, and the list stays as it was.
    pub fn push_back(&mut self, piece: Vec<u8>) -> (pushed: Result<(), Vec<u8>>)
        ensures
            pushed is Ok <==> old(self)@.flatten().len() + piece@.len() <= usize::MAX,
            pushed is Ok ==> final(self)@ == old(self)@.push(piece@),
            pushed matches Err(back) ==> back == piece && final(self)@ == old(self)@,
    {
        proof {
            use_type_invariant(&*self);
        }
        let added: usize = piece.len();
        if added > usize::MAX - self.total {
            return Err(piece);
        }
        let mut taken = PieceList::new();
        core::mem::swap(self, &mut taken);
        let mut pieces = taken.pieces;
        let total: usize = taken.total;
        pieces.push(piece);
        proof {
            assert(segment_views(pieces@) =~= old(self)@.push(piece@));
            old(self)@.lemma_flatten_push(piece@);
        }
        *self = PieceList { pieces, total: total + added };
        Ok(())
    }

    /// Removes every fragment; the storage of the list stays for the
    /// next response.
    pub fn clear(&mut self)
        ensures
            final(self)@ == Seq::<Seq<u8>>::empty(),
    {
        let mut taken = PieceList::new();
        core::mem::swap(self, &mut taken);
        let mut pieces = taken.pieces;
        pieces.clear();
        proof {
            assert(segment_views(pieces@) =~= Seq::<Seq<u8>>::empty());
        }
        *self = PieceList { pieces, total: 0 };
    }

    /// Hands out the fragments, in order, for one gathered write.
    pub fn into_vec(self) -> (pieces: Vec<Vec<u8>>)
        ensures
            segment_views(pieces@) == self@,
    {
        self.pieces
    }

    /// Makes a list of the fragments in `pieces`, in their order. There is
    /// no such list where they hold more bytes than the machine can count.
    pub fn from_vec(pieces: Vec<Vec<u8>>) -> (made: Option<PieceList>)
        ensures
            made is Some <==> segment_views(pieces@).flatten().len() <= usize::MAX,
            made matches Some(list) ==> list@ == segment_views(pieces@),
    {
        let ghost views = segment_views(pieces@);
        let mut total: usize = 0;
        let mut i: usize = 0;
        proof {
            assert(views.take(0) =~= Seq::<Seq<u8>>::empty());
        }
        while i < pieces.len()
            invariant
                i <= pieces.len(),
                views == segment_views(pieces@),
                total == views.take(i as int).flatten().len(),
            decreases pieces.len() - i,
        {
            proof {
                lemma_join_of_prefix(views, i as int);
                lemma_join_of_prefix(views, i + 1);
            }
            let added: usize = pieces[i].len();
            if added > usize::MAX - total {
                return None;
            }
            total = total + added;
            i = i + 1;
        }
        proof {
            lemma_join_of_prefix(views, i as int);
        }
        Some(PieceList { pieces, total })
    }
}

} // verus!
