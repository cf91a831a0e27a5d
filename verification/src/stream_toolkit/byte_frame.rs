//! A frame of bytes: some buffers in order, with their total length.

use super::helpers::VecStream;
use crate::chunk::{
    chunk_data, chunks_data, lemma_chunks_data_concat, lemma_chunks_data_one,
    lemma_chunks_data_push,
};
use bytes::Bytes;
use vstd::prelude::*;
use vstd::std_specs::convert::FromSpecImpl;

verus! {

/// A frame of bytes, made of buffers that are kept as they came, and the
/// number of bytes in all of them.
pub struct ByteFrame {
    pub vec: Vec<Bytes>,
    pub length: usize,
}

impl View for ByteFrame {
    type V = Seq<u8>;

    /// The bytes of the frame, buffer after buffer.
    open spec fn view(&self) -> Seq<u8> {
        chunks_data(self.vec@)
    }
}

impl ByteFrame {
    /// `length` is the number of bytes in the buffers.
    pub open spec fn wf(self) -> bool {
        self.length == chunks_data(self.vec@).len()
    }

    /// A frame of the given buffers, whose lengths add up to `length`.
    pub fn new(vec: Vec<Bytes>, length: usize) -> (frame: ByteFrame)
        requires
            length == chunks_data(vec@).len(),
        ensures
            frame.vec == vec,
            frame.length == length,
            frame.wf(),
    {
        ByteFrame { vec, length }
    }

    /// The bytes of the frame in one buffer. A frame of one buffer hands out
    /// that buffer; any other frame is copied.
    pub fn pack(&self) -> (packed: Bytes)
        ensures
            chunk_data(packed) == self@,
    {
        if self.vec.len() == 1 {
            proof {
                assert(self.vec@ =~= seq![self.vec@[0]]);
                lemma_chunks_data_one(self.vec@[0]);
            }
            return self.vec[0].clone();
        }
        let mut rv: Vec<u8> = Vec::new();
        let mut i: usize = 0;
        while i < self.vec.len()
            invariant
                i <= self.vec.len(),
                rv@ == chunks_data(self.vec@.take(i as int)),
            decreases self.vec.len() - i,
        {
            proof {
                assert(self.vec@.take(i as int + 1) =~= self.vec@.take(i as int).push(
                    self.vec@[i as int],
                ));
                lemma_chunks_data_push(self.vec@.take(i as int), self.vec@[i as int]);
            }
            rv.extend_from_slice(self.vec[i].as_ref());
            i += 1;
        }
        assert(self.vec@.take(i as int) =~= self.vec@);
        Bytes::from(rv)
    }
}

/// The buffers of some frames, frame after frame.
pub open spec fn frames_buffers(frames: Seq<ByteFrame>) -> Seq<Bytes>
    decreases frames.len(),
{
    if frames.len() == 0 {
        Seq::empty()
    } else {
        frames_buffers(frames.drop_last()) + frames.last().vec@
    }
}

impl ByteFrame {
    /// A frame of the given buffers. Their lengths must add up to a number
    /// that fits the machine.
    pub fn from_chunks(v: Vec<Bytes>) -> (frame: ByteFrame)
        requires
            chunks_data(v@).len() <= usize::MAX,
        ensures
            frame.vec == v,
            frame.wf(),
    {
        let mut length: usize = 0;
        let mut i: usize = 0;
        assert(v@.take(0) =~= Seq::<Bytes>::empty());
        while i < v.len()
            invariant
                i <= v.len(),
                length == chunks_data(v@.take(i as int)).len(),
                chunks_data(v@).len() <= usize::MAX,
            decreases v.len() - i,
        {
            proof {
                assert(v@.take(i + 1) =~= v@.take(i as int).push(v@[i as int]));
                lemma_chunks_data_push(v@.take(i as int), v@[i as int]);
                assert(v@ =~= v@.take(i + 1) + v@.skip(i + 1));
                lemma_chunks_data_concat(v@.take(i + 1), v@.skip(i + 1));
            }
            length += v[i].len();
            i += 1;
        }
        assert(v@.take(i as int) =~= v@);
        ByteFrame::new(v, length)
    }

    /// The buffers of a stream of frames, as one stream, without copying
    /// any of them.
    pub fn flatten_stream(s: VecStream<ByteFrame>) -> (flat: VecStream<Bytes>)
        ensures
            flat@ == frames_buffers(s@),
    {
        let mut frames = s;
        let mut flat: VecStream<Bytes> = VecStream::empty();
        let ghost mut done: Seq<ByteFrame> = Seq::empty();
        proof {
            assert(done + frames@ =~= s@);
        }
        loop
            invariant
                done + frames@ == s@,
                flat@ == frames_buffers(done),
            ensures
                flat@ == frames_buffers(s@),
            decreases frames@.len(),
        {
            match frames.items.pop_front() {
                None => {
                    assert(done + frames@ =~= done);
                    break ;
                },
                Some(frame) => {
                    proof {
                        assert(done.push(frame) + frames@ =~= done + (seq![frame] + frames@));
                        assert(done.push(frame).drop_last() =~= done);
                        done = done.push(frame);
                    }
                    let mut chunks = super::helpers::stream_of_vec(frame.vec);
                    let ghost start = flat@;
                    let ghost whole = chunks@;
                    assert(flat@ + chunks@ =~= start + whole);
                    loop
                        invariant
                            flat@ + chunks@ == start + whole,
                        ensures
                            flat@ == start + whole,
                        decreases chunks@.len(),
                    {
                        match chunks.items.pop_front() {
                            Some(chunk) => {
                                proof {
                                    assert(flat@.push(chunk) + chunks@ =~= flat@ + (seq![chunk]
                                        + chunks@));
                                }
                                flat.push(chunk);
                            },
                            None => {
                                assert(flat@ + chunks@ =~= flat@);
                                break ;
                            },
                        }
                    }
                },
            }
        }
        flat
    }
}

impl From<Bytes> for ByteFrame {
    /// A frame of one buffer.
    fn from(b: Bytes) -> (frame: ByteFrame)
        ensures
            frame.wf(),
            frame.vec@ == seq![b],
    {
        let length = b.len();
        proof {
            lemma_chunks_data_one(b);
        }
        let mut vec: Vec<Bytes> = Vec::new();
        vec.push(b);
        assert(vec@ =~= seq![b]);
        ByteFrame::new(vec, length)
    }
}

impl FromSpecImpl<Bytes> for ByteFrame {
    open spec fn obeys_from_spec() -> bool {
        false
    }

    open spec fn from_spec(b: Bytes) -> ByteFrame {
        arbitrary()
    }
}

} // verus!
