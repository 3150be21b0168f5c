//! Sequences of byte segments, and what joining them in order gives.

use vstd::prelude::*;
use vstd::seq_lib::lemma_flatten_concat;

verus! {

/// The contents of each vector of `segments`, in order.
pub open spec fn segment_views(segments: Seq<Vec<u8>>) -> Seq<Seq<u8>> {
    Seq::new(segments.len(), |i: int| segments[i]@)
}

/// Joining the first `n` segments gives the beginning of the whole join,
/// and one segment more puts that segment behind it.
pub proof fn lemma_join_of_prefix(segments: Seq<Seq<u8>>, n: int)
    requires
        0 <= n <= segments.len(),
    ensures
        segments.take(n).flatten().len() <= segments.flatten().len(),
        segments.take(n).flatten() == segments.flatten().take(
            segments.take(n).flatten().len() as int,
        ),
        n < segments.len() ==> segments.take(n + 1).flatten() == segments.take(n).flatten()
            + segments[n],
        segments.take(segments.len() as int) == segments,
{
    lemma_flatten_concat(segments.take(n), segments.skip(n));
    assert(segments.take(n) + segments.skip(n) =~= segments);
    assert(segments.take(n).flatten() =~= segments.flatten().take(
        segments.take(n).flatten().len() as int,
    ));
    if n < segments.len() {
        assert(segments.take(n + 1) =~= segments.take(n).push(segments[n]));
        segments.take(n).lemma_flatten_push(segments[n]);
    }
    assert(segments.take(segments.len() as int) =~= segments);
}

} // verus!
