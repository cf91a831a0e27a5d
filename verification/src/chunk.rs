//! What this library assumes of `bytes::Bytes`, the immutable reference-counted
//! buffer that every stream here is made of.
//!
//! Nothing in this file is proved: each contract restates what the `bytes`
//! crate documents for the function it names.

use bytes::Bytes;
use vstd::prelude::*;

verus! {

/// `bytes::Bytes`, known to the verifier by name only: what a buffer holds
/// is told by `chunk_data`.
#[verifier::external_type_specification]
#[verifier::external_body]
pub struct ExBytes(bytes::Bytes);

/// The bytes that a buffer holds, in order.
pub uninterp spec fn chunk_data(b: Bytes) -> Seq<u8>;

/// `Bytes::len`: the number of bytes held.
pub assume_specification[ Bytes::len ](b: &Bytes) -> (n: usize)
    ensures
        n == chunk_data(*b).len(),
;

/// `Bytes::slice`: a buffer holding the bytes at `begin..end` of `b`. It
/// panics unless `begin <= end <= b.len()`, which `requires` rules out.
pub assume_specification[ Bytes::slice ](b: &Bytes, begin: usize, end: usize) -> (part: Bytes)
    requires
        begin <= end <= chunk_data(*b).len(),
    ensures
        chunk_data(part) == chunk_data(*b).subrange(begin as int, end as int),
;

/// `Bytes::slice_from`: a buffer holding the bytes of `b` from `begin` on. It
/// panics unless `begin <= b.len()`, which `requires` rules out.
pub assume_specification[ Bytes::slice_from ](b: &Bytes, begin: usize) -> (part: Bytes)
    requires
        begin <= chunk_data(*b).len(),
    ensures
        chunk_data(part) == chunk_data(*b).subrange(begin as int, chunk_data(*b).len() as int),
;

/// `Bytes::clone`: another handle on the same bytes.
pub assume_specification[ <Bytes as Clone>::clone ](b: &Bytes) -> (copy: Bytes)
    ensures
        chunk_data(copy) == chunk_data(*b),
;

/// `Bytes::as_ref`: the bytes held, as a slice.
pub assume_specification[ <Bytes as AsRef<[u8]>>::as_ref ](b: &Bytes) -> (s: &[u8])
    ensures
        s@ == chunk_data(*b),
;

/// `Bytes::from(Vec<u8>)`: a buffer holding the bytes of the vector.
pub assume_specification[ <Bytes as From<Vec<u8>>>::from ](src: Vec<u8>) -> (b: Bytes)
    ensures
        chunk_data(b) == src@,
;

/// The bytes that a sequence of buffers holds, one buffer after the other.
pub open spec fn chunks_data(chunks: Seq<Bytes>) -> Seq<u8>
    decreases chunks.len(),
{
    if chunks.len() == 0 {
        Seq::empty()
    } else {
        chunks_data(chunks.drop_last()) + chunk_data(chunks.last())
    }
}

/// The bytes of each buffer of a sequence, buffer by buffer.
pub open spec fn chunk_views(chunks: Seq<Bytes>) -> Seq<Seq<u8>> {
    chunks.map_values(|b: Bytes| chunk_data(b))
}

/// One more buffer at the end adds its bytes at the end.
pub proof fn lemma_chunks_data_push(chunks: Seq<Bytes>, last: Bytes)
    ensures
        chunks_data(chunks.push(last)) == chunks_data(chunks) + chunk_data(last),
{
    assert(chunks.push(last).drop_last() =~= chunks);
}

/// The bytes of two sequences of buffers, one after the other, are the
/// bytes of the first followed by the bytes of the second.
pub proof fn lemma_chunks_data_concat(front: Seq<Bytes>, back: Seq<Bytes>)
    ensures
        chunks_data(front + back) == chunks_data(front) + chunks_data(back),
    decreases back.len(),
{
    if back.len() == 0 {
        assert(front + back =~= front);
    } else {
        lemma_chunks_data_concat(front, back.drop_last());
        assert((front + back).drop_last() =~= front + back.drop_last());
        assert((front + back).last() == back.last());
    }
}

/// A single buffer holds its own bytes.
pub proof fn lemma_chunks_data_one(only: Bytes)
    ensures
        chunks_data(seq![only]) == chunk_data(only),
{
    assert(seq![only].drop_last() =~= Seq::<Bytes>::empty());
    assert(chunks_data(seq![only].drop_last()) =~= Seq::<u8>::empty());
}

} // verus!
