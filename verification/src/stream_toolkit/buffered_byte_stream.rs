//! Regrouping a stream of buffers into frames of a wanted size.

use super::byte_frame::ByteFrame;
use super::helpers::VecStream;
use super::polled::Polled;
use super::readable_byte_stream::{
    drained, lemma_drained_enough, lemma_drained_split, lemma_whole_chunks_bound,
    whole_chunks_for, ReadMode, ReadableByteStream, ReadableByteStreamFuture,
};
use crate::chunk::{
    chunk_data, chunk_views, chunks_data, lemma_chunks_data_concat, lemma_chunks_data_push,
};
use bytes::Bytes;
use vstd::prelude::*;

verus! {

/// A stream of frames made from a stream of buffers. Each frame holds
/// `block_size` bytes: exactly, if the stream was made to be exact, so that
/// buffers are split where they must be; at least, if not, so that no
/// buffer is split. The last frame holds what is left. A frame of no bytes
/// is never handed out: it stands for the end.
pub struct BufferedByteStream<S> {
    pub future: Option<ReadableByteStreamFuture<S>>,
    pub block_size: usize,
    pub mode: ReadMode,
}

/// The bytes of some frames, frame after frame.
pub open spec fn frames_data(frames: Seq<ByteFrame>) -> Seq<u8>
    decreases frames.len(),
{
    if frames.len() == 0 {
        Seq::empty()
    } else {
        frames_data(frames.drop_last()) + frames.last()@
    }
}

/// The frames that an exact stream makes of `data`: blocks of `block`
/// bytes, and a last one of what is left.
pub open spec fn exact_frames(data: Seq<u8>, block: int) -> Seq<Seq<u8>>
    decreases data.len(),
{
    if data.len() == 0 || block <= 0 {
        Seq::empty()
    } else if data.len() <= block {
        seq![data]
    } else {
        seq![data.take(block)] + exact_frames(data.skip(block), block)
    }
}

/// The frames that a stream that is not exact makes of `chunks`: each
/// frame takes whole buffers, as few as hold `block` bytes, and the last
/// one takes what is left. Buffers without bytes at the very end make no
/// frame.
pub open spec fn lazy_frames(chunks: Seq<Bytes>, block: int) -> Seq<Seq<Bytes>>
    decreases chunks.len(),
{
    let k = whole_chunks_for(chunks, block) as int;
    if k <= 0 || k > chunks.len() || chunks_data(chunks.take(k)).len() == 0 {
        Seq::empty()
    } else {
        seq![chunks.take(k)] + lazy_frames(chunks.skip(k), block)
    }
}

/// The frames are those that reads of `block` bytes in `mode` make, one
/// read after the other: `states` holds the buffers before the first read
/// and those that each read left, which the next read takes up. None of
/// the frames is empty.
pub open spec fn regrouped(
    states: Seq<Seq<Bytes>>,
    block: usize,
    mode: ReadMode,
    frames: Seq<ByteFrame>,
) -> bool {
    &&& states.len() == frames.len() + 1
    &&& forall|i: int|
        0 <= i < frames.len() ==> drained(states[i], block, mode, #[trigger] frames[i], states[i + 1])
            && frames[i].length > 0
}

/// The bytes of each frame.
pub open spec fn frames_views(frames: Seq<ByteFrame>) -> Seq<Seq<u8>> {
    frames.map_values(|f: ByteFrame| f@)
}

/// The buffers of each frame.
pub open spec fn frames_chunks(frames: Seq<ByteFrame>) -> Seq<Seq<Bytes>> {
    frames.map_values(|f: ByteFrame| f.vec@)
}

impl<S> BufferedByteStream<S> {
    /// The read that is under way asks for one block in the stream's mode,
    /// and the mode is one that cannot fail.
    pub open spec fn wf(self) -> bool {
        &&& self.block_size > 0
        &&& self.mode != ReadMode::Exact
        &&& self.future matches Some(future) ==> {
            &&& future.wf()
            &&& future.stream is Some
            &&& future.count == self.block_size
            &&& future.mode == self.mode
        }
    }

    /// A stream of frames of `block_size` bytes from the buffers of `s`.
    pub fn new(s: S, block_size: usize, exact: bool) -> (stream: Self)
        requires
            block_size > 0,
        ensures
            stream.wf(),
            stream.block_size == block_size,
            stream.mode == if exact {
                ReadMode::AtMost
            } else {
                ReadMode::Lazy
            },
            stream.future matches Some(future) && future.stream == Some(s) && future.saved@
                == Seq::<Bytes>::empty(),
    {
        let mode = if exact {
            ReadMode::AtMost
        } else {
            ReadMode::Lazy
        };
        BufferedByteStream {
            future: Some(ReadableByteStream::new(s).read(block_size, mode)),
            block_size,
            mode,
        }
    }

    /// A poll that took the read out of `self.future` and polled it. A
    /// read that is not ready goes back as it is. A frame starts the read
    /// of the next one, and goes out unless it is empty, which ends the
    /// stream. After an error no read is left to poll.
    pub fn read_polled<ErrorT>(
        &mut self,
        future: ReadableByteStreamFuture<S>,
        polled: Polled<(ByteFrame, ReadableByteStream<S>), ErrorT>,
    ) -> (out: Polled<Option<ByteFrame>, ErrorT>)
        requires
            old(self).block_size > 0,
            old(self).mode != ReadMode::Exact,
            polled matches Polled::Ready((_, rest)) ==> rest.wf(),
        ensures
            final(self).block_size == old(self).block_size,
            final(self).mode == old(self).mode,
            match polled {
                Polled::Failed(e) => out == Polled::<Option<ByteFrame>, ErrorT>::Failed(e)
                    && final(self).future == old(self).future,
                Polled::NotReady => out == Polled::<Option<ByteFrame>, ErrorT>::NotReady
                    && final(self).future == Some(future),
                Polled::Ready((frame, rest)) => {
                    &&& out == Polled::<Option<ByteFrame>, ErrorT>::Ready(
                        if frame.length == 0 {
                            None
                        } else {
                            Some(frame)
                        },
                    )
                    &&& final(self).future matches Some(next)
                    &&& next.wf()
                    &&& next.stream == Some(rest.stream)
                    &&& next.saved@ == rest.saved@
                    &&& next.count == old(self).block_size
                    &&& next.mode == old(self).mode
                },
            },
    {
        match polled {
            Polled::Failed(e) => Polled::Failed(e),
            Polled::NotReady => {
                self.future = Some(future);
                Polled::NotReady
            },
            Polled::Ready((frame, stream)) => {
                self.future = Some(stream.read(self.block_size, self.mode));
                if frame.length == 0 {
                    Polled::Ready(None)
                } else {
                    Polled::Ready(Some(frame))
                }
            },
        }
    }
}

/// Buffers that hold no bytes make no frame.
pub proof fn lemma_lazy_frames_of_nothing(chunks: Seq<Bytes>, block: int)
    requires
        chunks_data(chunks).len() == 0,
    ensures
        lazy_frames(chunks, block) == Seq::<Seq<Bytes>>::empty(),
{
    let k = whole_chunks_for(chunks, block) as int;
    if 0 < k <= chunks.len() {
        assert(chunks =~= chunks.take(k) + chunks.skip(k));
        lemma_chunks_data_concat(chunks.take(k), chunks.skip(k));
    }
}

impl BufferedByteStream<VecStream<Bytes>> {
    /// All the buffers that are left to regroup.
    pub open spec fn chunks(self) -> Seq<Bytes> {
        self.future->0.chunks()
    }

    /// All the bytes that are left to regroup.
    pub open spec fn remaining(self) -> Seq<u8> {
        chunks_data(self.chunks())
    }

    /// The next frame, or `None` when no bytes are left.
    pub fn poll(&mut self) -> (item: Option<ByteFrame>)
        requires
            old(self).wf(),
            old(self).future is Some,
            old(self).remaining().len() <= usize::MAX,
        ensures
            final(self).wf(),
            final(self).future is Some,
            final(self).block_size == old(self).block_size,
            final(self).mode == old(self).mode,
            item is None <==> old(self).remaining().len() == 0,
            item is None ==> final(self).remaining().len() == 0,
            item matches Some(frame) ==> frame.length > 0 && drained(
                old(self).chunks(),
                old(self).block_size,
                old(self).mode,
                frame,
                final(self).chunks(),
            ),
    {
        let future = self.future.take().unwrap();
        let ghost before = future.chunks();
        match future.wait() {
            Ok((frame, rest)) => {
                proof {
                    lemma_drained_enough(before, self.block_size, self.mode, frame, rest.chunks());
                    lemma_drained_split(before, self.block_size, self.mode, frame, rest.chunks());
                }
                self.future = Some(rest.read(self.block_size, self.mode));
                if frame.length == 0 {
                    None
                } else {
                    Some(frame)
                }
            },
            Err(_) => vstd::pervasive::unreached(),
        }
    }

    /// All the frames that the stream hands out, first to last.
    pub fn collect(self) -> (frames: Vec<ByteFrame>)
        requires
            self.wf(),
            self.future is Some,
            self.remaining().len() <= usize::MAX,
        ensures
            exists|states: Seq<Seq<Bytes>>|
                {
                    &&& #[trigger] regrouped(states, self.block_size, self.mode, frames@)
                    &&& states[0] == self.chunks()
                    &&& chunks_data(states.last()).len() == 0
                },
            self.mode == ReadMode::AtMost ==> frames_views(frames@) == exact_frames(
                self.remaining(),
                self.block_size as int,
            ),
            self.mode == ReadMode::Lazy ==> frames_chunks(frames@) == lazy_frames(
                self.chunks(),
                self.block_size as int,
            ),
            frames_data(frames@) == self.remaining(),
            forall|i: int|
                0 <= i < frames@.len() ==> (#[trigger] frames@[i]).wf() && frames@[i].length > 0,
            forall|i: int|
                0 <= i < frames@.len() - 1 ==> (#[trigger] frames@[i]).length >= self.block_size,
            self.mode == ReadMode::AtMost ==> forall|i: int|
                0 <= i < frames@.len() ==> (#[trigger] frames@[i]).length <= self.block_size,
    {
        let mut stream = self;
        let mut frames: Vec<ByteFrame> = Vec::new();
        let ghost mut states: Seq<Seq<Bytes>> = seq![self.chunks()];
        proof {
            assert(frames_data(frames@) + stream.remaining() =~= self.remaining());
            assert(frames_views(frames@) + exact_frames(
                stream.remaining(),
                self.block_size as int,
            ) =~= exact_frames(self.remaining(), self.block_size as int));
            assert(frames_chunks(frames@) + lazy_frames(stream.chunks(), self.block_size as int)
                =~= lazy_frames(self.chunks(), self.block_size as int));
        }
        loop
            invariant_except_break
                states.last() == stream.chunks(),
            invariant
                regrouped(states, self.block_size, self.mode, frames@),
                states[0] == self.chunks(),
                stream.wf(),
                self.mode == ReadMode::AtMost ==> frames_views(frames@) + exact_frames(
                    stream.remaining(),
                    self.block_size as int,
                ) == exact_frames(self.remaining(), self.block_size as int),
                self.mode == ReadMode::Lazy ==> frames_chunks(frames@) + lazy_frames(
                    stream.chunks(),
                    self.block_size as int,
                ) == lazy_frames(self.chunks(), self.block_size as int),
                stream.future is Some,
                stream.block_size == self.block_size,
                stream.mode == self.mode,
                stream.remaining().len() <= usize::MAX,
                frames_data(frames@) + stream.remaining() == self.remaining(),
                forall|i: int|
                    0 <= i < frames@.len() ==> (#[trigger] frames@[i]).wf() && frames@[i].length
                        > 0,
                forall|i: int|
                    0 <= i < frames@.len() ==> (#[trigger] frames@[i]).length >= self.block_size
                        || (i == frames@.len() - 1 && stream.remaining().len() == 0),
                self.mode == ReadMode::AtMost ==> forall|i: int|
                    0 <= i < frames@.len() ==> (#[trigger] frames@[i]).length <= self.block_size,
            ensures
                exists|states: Seq<Seq<Bytes>>|
                    {
                        &&& #[trigger] regrouped(states, self.block_size, self.mode, frames@)
                        &&& states[0] == self.chunks()
                        &&& chunks_data(states.last()).len() == 0
                    },
                self.mode == ReadMode::AtMost ==> frames_views(frames@) == exact_frames(
                    self.remaining(),
                    self.block_size as int,
                ),
                self.mode == ReadMode::Lazy ==> frames_chunks(frames@) == lazy_frames(
                    self.chunks(),
                    self.block_size as int,
                ),
                frames_data(frames@) == self.remaining(),
                forall|i: int|
                    0 <= i < frames@.len() ==> (#[trigger] frames@[i]).wf() && frames@[i].length
                        > 0,
                forall|i: int|
                    0 <= i < frames@.len() - 1 ==> (#[trigger] frames@[i]).length
                        >= self.block_size,
                self.mode == ReadMode::AtMost ==> forall|i: int|
                    0 <= i < frames@.len() ==> (#[trigger] frames@[i]).length <= self.block_size,
            decreases stream.remaining().len(),
        {
            let ghost before = stream.chunks();
            let ghost done = frames@;
            match stream.poll() {
                Some(frame) => {
                    proof {
                        lemma_drained_split(
                            before,
                            self.block_size,
                            self.mode,
                            frame,
                            stream.chunks(),
                        );
                        lemma_drained_enough(
                            before,
                            self.block_size,
                            self.mode,
                            frame,
                            stream.chunks(),
                        );
                        assert(done.push(frame).drop_last() =~= done);
                        let longer = states.push(stream.chunks());
                        assert forall|i: int| 0 <= i < done.push(frame).len() implies drained(
                            longer[i],
                            self.block_size,
                            self.mode,
                            #[trigger] done.push(frame)[i],
                            longer[i + 1],
                        ) && done.push(frame)[i].length > 0 by {
                            if i < done.len() {
                                assert(done.push(frame)[i] == done[i]);
                            }
                        }
                        states = longer;
                        assert((frames_data(done) + frame@) + stream.remaining() =~= frames_data(
                            done,
                        ) + (frame@ + stream.remaining()));
                        let block = self.block_size as int;
                        if self.mode == ReadMode::AtMost {
                            let data = chunks_data(before);
                            if data.len() <= block {
                                assert(frame@ =~= data);
                                assert(exact_frames(stream.remaining(), block) =~= Seq::<
                                    Seq<u8>,
                                >::empty());
                            }
                            assert(frames_views(done.push(frame)) =~= frames_views(done) + seq![
                                frame@,
                            ]);
                            assert((frames_views(done) + seq![frame@]) + exact_frames(
                                stream.remaining(),
                                block,
                            ) =~= frames_views(done) + (seq![frame@] + exact_frames(
                                stream.remaining(),
                                block,
                            )));
                        } else {
                            lemma_whole_chunks_bound(before, block);
                            assert(frames_chunks(done.push(frame)) =~= frames_chunks(done) + seq![
                                frame.vec@,
                            ]);
                            assert((frames_chunks(done) + seq![frame.vec@]) + lazy_frames(
                                stream.chunks(),
                                block,
                            ) =~= frames_chunks(done) + (seq![frame.vec@] + lazy_frames(
                                stream.chunks(),
                                block,
                            )));
                        }
                    }
                    frames.push(frame);
                },
                None => {
                    proof {
                        let block = self.block_size as int;
                        assert(frames_data(frames@) + stream.remaining() =~= frames_data(frames@));
                        assert(frames_views(frames@) + Seq::<Seq<u8>>::empty() =~= frames_views(
                            frames@,
                        ));
                        assert(frames_chunks(frames@) + Seq::<Seq<Bytes>>::empty()
                            =~= frames_chunks(frames@));
                        lemma_lazy_frames_of_nothing(stream.chunks(), block);
                        lemma_lazy_frames_of_nothing(before, block);
                        assert(states.last() == before);
                    }
                    break ;
                },
            }
        }
        frames
    }

    /// The frames of the stream, each packed into one buffer.
    pub fn pack(self) -> (packed: VecStream<Bytes>)
        requires
            self.wf(),
            self.future is Some,
            self.remaining().len() <= usize::MAX,
        ensures
            self.mode == ReadMode::AtMost ==> chunk_views(packed@) == exact_frames(
                self.remaining(),
                self.block_size as int,
            ),
            self.mode == ReadMode::Lazy ==> chunk_views(packed@) == lazy_frames(
                self.chunks(),
                self.block_size as int,
            ).map_values(|frame: Seq<Bytes>| chunks_data(frame)),
            chunks_data(packed@) == self.remaining(),
            forall|i: int| 0 <= i < packed@.len() ==> chunk_data(#[trigger] packed@[i]).len() > 0,
            forall|i: int|
                0 <= i < packed@.len() - 1 ==> chunk_data(#[trigger] packed@[i]).len()
                    >= self.block_size,
            self.mode == ReadMode::AtMost ==> forall|i: int|
                0 <= i < packed@.len() ==> chunk_data(#[trigger] packed@[i]).len()
                    <= self.block_size,
    {
        let frames = self.collect();
        let mut packed: VecStream<Bytes> = VecStream::empty();
        let mut i: usize = 0;
        proof {
            assert(frames@.take(0) =~= Seq::<ByteFrame>::empty());
            assert(chunks_data(packed@) =~= frames_data(frames@.take(0)));
        }
        while i < frames.len()
            invariant
                i <= frames.len(),
                packed@.len() == i,
                chunks_data(packed@) == frames_data(frames@.take(i as int)),
                forall|j: int| 0 <= j < frames@.len() ==> (#[trigger] frames@[j]).wf(),
                forall|j: int|
                    0 <= j < i ==> chunk_data(#[trigger] packed@[j]).len() == frames@[j].length,
                forall|j: int| 0 <= j < i ==> chunk_data(#[trigger] packed@[j]) == frames@[j]@,
            decreases frames.len() - i,
        {
            let b = frames[i].pack();
            proof {
                assert(frames@.take(i + 1).drop_last() =~= frames@.take(i as int));
                lemma_chunks_data_push(packed@, b);
            }
            packed.push(b);
            i += 1;
        }
        assert(frames@.take(i as int) =~= frames@);
        proof {
            if self.mode == ReadMode::AtMost {
                assert(chunk_views(packed@) =~= frames_views(frames@));
            } else {
                assert(chunk_views(packed@) =~= frames_chunks(frames@).map_values(
                    |frame: Seq<Bytes>| chunks_data(frame),
                ));
            }
        }
        packed
    }
}

} // verus!
