//! Reading counted frames from a stream of buffers without copying them.
//!
//! A [`ReadableByteStream`] holds a source and the buffers that were taken
//! from it and not yet handed out. A read moves both into a
//! [`ReadableByteStreamFuture`], which takes in buffers from the source until
//! it can hand out a frame and a new `ReadableByteStream` for the rest.

use super::byte_frame::ByteFrame;
use super::helpers::VecStream;
use super::polled::Polled;
use crate::chunk::{
    chunk_data, chunks_data, lemma_chunks_data_concat, lemma_chunks_data_one,
    lemma_chunks_data_push,
};
use crate::error::Error;
use bytes::Bytes;
use std::collections::VecDeque;
use vstd::prelude::*;
use vstd::std_specs::convert::FromSpecImpl;

verus! {

/// How much a read may hand out.
#[derive(Clone, Copy, Debug, PartialEq, Eq, Structural)]
pub enum ReadMode {
    /// Exactly the number of bytes asked for. If the stream ends before
    /// that, the read fails.
    Exact,
    /// No more than the number of bytes asked for; fewer if the stream ends
    /// before that.
    AtMost,
    /// At least the number of bytes asked for, if the stream has them, and
    /// more where a buffer would otherwise be split.
    Lazy,
}

/// Why a read failed.
pub enum ReadError<ErrorT> {
    /// The stream ended before an exact read had its bytes.
    UnexpectedEof,
    /// The source failed with this error.
    Source(ErrorT),
}

/// How many whole buffers, from the front of `chunks`, it takes to hold
/// `count` bytes: as few as will do, and all of them if they do not.
pub open spec fn whole_chunks_for(chunks: Seq<Bytes>, count: int) -> nat
    decreases chunks.len(),
{
    if chunks.len() == 0 || count <= 0 {
        0
    } else {
        1 + whole_chunks_for(chunks.drop_first(), count - chunk_data(chunks[0]).len())
    }
}

/// What a read of `count` bytes in `mode` makes of the buffers `before`: the
/// frame that goes out and the buffers `after` that stay.
///
/// The bytes of the frame followed by those that stay are the bytes that
/// were there. The read touches whole buffers from the front, as few as
/// hold `count` bytes. If they hold no more than that, or if the read is
/// lazy, they make the frame as they are. Otherwise the last of them is
/// split where the frame has `count` bytes: the part in front of the split
/// ends the frame, and the part behind it stays, in front of the buffers
/// that were not touched.
pub open spec fn drained(
    before: Seq<Bytes>,
    count: usize,
    mode: ReadMode,
    frame: ByteFrame,
    after: Seq<Bytes>,
) -> bool {
    let touched = whole_chunks_for(before, count as int) as int;
    &&& frame.wf()
    &&& frame@ + chunks_data(after) == chunks_data(before)
    &&& mode != ReadMode::Lazy ==> frame.length == if count <= chunks_data(before).len() {
        count as int
    } else {
        chunks_data(before).len() as int
    }
    &&& if mode == ReadMode::Lazy || chunks_data(before.take(touched)).len() <= count {
        &&& frame.vec@ == before.take(touched)
        &&& after == before.skip(touched)
    } else {
        let room = count - chunks_data(before.take(touched - 1)).len();
        &&& touched >= 1
        &&& frame.vec@.len() == touched
        &&& frame.vec@.take(touched - 1) == before.take(touched - 1)
        &&& chunk_data(frame.vec@[touched - 1]) == chunk_data(before[touched - 1]).take(room)
        &&& after.len() == before.len() - touched + 1
        &&& chunk_data(after[0]) == chunk_data(before[touched - 1]).skip(room)
        &&& after.skip(1) == before.skip(touched)
    }
}

/// The saved buffers are no more than a read of `count` bytes needs: at
/// most one of them, or so few bytes in all but the last that the last is
/// needed too. A read that starts with at most one saved buffer keeps it so
/// while it takes in buffers, because it takes in no more once it has its
/// bytes.
pub open spec fn no_spare(saved: Seq<Bytes>, count: usize) -> bool {
    saved.len() <= 1 || chunks_data(saved.drop_last()).len() < count
}

/// A read and the stream of what it leaves give the whole stream back: the
/// bytes of the frame, followed by the bytes that are left, are the bytes
/// that were there, whatever the count and the mode of the read.
pub proof fn lemma_read_then_rest_is_the_stream(
    before: Seq<Bytes>,
    count: usize,
    mode: ReadMode,
    frame: ByteFrame,
    after: Seq<Bytes>,
)
    requires
        drained(before, count, mode, frame, after),
    ensures
        frame@ + chunks_data(after) == chunks_data(before),
{
}

/// The frame that a read hands out holds the first bytes that were there,
/// and what stays holds the others.
pub proof fn lemma_drained_split(
    before: Seq<Bytes>,
    count: usize,
    mode: ReadMode,
    frame: ByteFrame,
    after: Seq<Bytes>,
)
    requires
        drained(before, count, mode, frame, after),
    ensures
        frame.length <= chunks_data(before).len(),
        frame@ == chunks_data(before).take(frame.length as int),
        chunks_data(after) == chunks_data(before).skip(frame.length as int),
{
    let whole = chunks_data(before);
    assert(whole.len() == frame@.len() + chunks_data(after).len());
    assert(frame@ =~= whole.take(frame.length as int));
    assert(chunks_data(after) =~= whole.skip(frame.length as int));
}

/// Whole buffers are counted until they hold `count` bytes, or until there
/// are no more.
pub proof fn lemma_whole_chunks_reach(chunks: Seq<Bytes>, count: int)
    ensures
        whole_chunks_for(chunks, count) <= chunks.len(),
        chunks_data(chunks.take(whole_chunks_for(chunks, count) as int)).len() >= count
            || whole_chunks_for(chunks, count) == chunks.len(),
    decreases chunks.len(),
{
    if chunks.len() != 0 && count > 0 {
        let rest = chunks.drop_first();
        let less = count - chunk_data(chunks[0]).len();
        lemma_whole_chunks_reach(rest, less);
        let k = whole_chunks_for(rest, less) as int;
        assert(chunks.take(k + 1) =~= seq![chunks[0]] + rest.take(k));
        lemma_chunks_data_concat(seq![chunks[0]], rest.take(k));
        lemma_chunks_data_one(chunks[0]);
    } else {
        assert(chunks.take(0) =~= Seq::<Bytes>::empty());
    }
}

/// A read hands out as many bytes as it asks for, unless there are fewer:
/// then it hands out all of them.
pub proof fn lemma_drained_enough(
    before: Seq<Bytes>,
    count: usize,
    mode: ReadMode,
    frame: ByteFrame,
    after: Seq<Bytes>,
)
    requires
        drained(before, count, mode, frame, after),
    ensures
        frame.length >= count || frame.length == chunks_data(before).len(),
        frame.length < count ==> chunks_data(after).len() == 0,
{
    lemma_drained_split(before, count, mode, frame, after);
    if mode == ReadMode::Lazy {
        lemma_whole_chunks_reach(before, count as int);
        let k = whole_chunks_for(before, count as int) as int;
        if k == before.len() {
            assert(before.take(k) =~= before);
        }
    }
}

/// No more buffers are counted than there are.
pub proof fn lemma_whole_chunks_bound(chunks: Seq<Bytes>, count: int)
    ensures
        whole_chunks_for(chunks, count) <= chunks.len(),
    decreases chunks.len(),
{
    if chunks.len() != 0 && count > 0 {
        lemma_whole_chunks_bound(chunks.drop_first(), count - chunk_data(chunks[0]).len());
    }
}

/// Buffers behind those that already hold `count` bytes are not counted.
pub proof fn lemma_whole_chunks_prefix(front: Seq<Bytes>, back: Seq<Bytes>, count: int)
    requires
        chunks_data(front).len() >= count,
    ensures
        whole_chunks_for(front + back, count) == whole_chunks_for(front, count),
    decreases front.len(),
{
    if count > 0 {
        assert(front.len() > 0);
        let first = front[0];
        assert(front =~= seq![first] + front.drop_first());
        lemma_chunks_data_concat(seq![first], front.drop_first());
        lemma_chunks_data_one(first);
        assert((front + back).drop_first() =~= front.drop_first() + back);
        lemma_whole_chunks_prefix(front.drop_first(), back, count - chunk_data(first).len());
    }
}

/// The first buffer's bytes come first.
proof fn lemma_chunks_data_first(chunks: Seq<Bytes>)
    requires
        chunks.len() > 0,
    ensures
        chunks_data(chunks) == chunk_data(chunks[0]) + chunks_data(chunks.drop_first()),
{
    assert(chunks =~= seq![chunks[0]] + chunks.drop_first());
    lemma_chunks_data_concat(seq![chunks[0]], chunks.drop_first());
    lemma_chunks_data_one(chunks[0]);
}

/// A source of buffers, with the buffers that were taken from it and not
/// yet handed out.
pub struct ReadableByteStream<S> {
    pub stream: S,
    pub saved: VecDeque<Bytes>,
    pub saved_count: usize,
}

/// A read that is under way.
pub struct ReadableByteStreamFuture<S> {
    pub stream: Option<S>,
    pub count: usize,
    pub mode: ReadMode,
    pub saved: VecDeque<Bytes>,
    pub saved_count: usize,
}

/// What a poll of a read comes to once the source has been polled.
pub enum ReadTurn<S, ErrorT> {
    /// A buffer was taken in: the poll goes round again.
    Again,
    /// The poll returns this.
    Return(Polled<(ByteFrame, ReadableByteStream<S>), ReadError<ErrorT>>),
}

impl<S> ReadableByteStream<S> {
    /// The count of saved bytes is right.
    pub open spec fn wf(self) -> bool {
        self.saved_count == chunks_data(self.saved@).len()
    }

    /// The bytes that were taken from the source and not yet handed out.
    pub open spec fn saved_data(self) -> Seq<u8> {
        chunks_data(self.saved@)
    }

    /// A reader on `stream`, with nothing taken from it yet.
    pub fn new(stream: S) -> (reader: Self)
        ensures
            reader.stream == stream,
            reader.saved@ == Seq::<Bytes>::empty(),
            reader.wf(),
    {
        ReadableByteStream { stream, saved: VecDeque::new(), saved_count: 0 }
    }

    /// Starts a read of `count` bytes in `mode`.
    pub fn read(self, count: usize, mode: ReadMode) -> (future: ReadableByteStreamFuture<S>)
        requires
            self.wf(),
        ensures
            future.wf(),
            future.stream == Some(self.stream),
            future.saved@ == self.saved@,
            future.count == count,
            future.mode == mode,
    {
        ReadableByteStreamFuture {
            stream: Some(self.stream),
            count,
            mode,
            saved: self.saved,
            saved_count: self.saved_count,
        }
    }

    /// Starts a read of exactly `count` bytes, which fails if the stream
    /// ends before them.
    pub fn read_exact(self, count: usize) -> (future: ReadableByteStreamFuture<S>)
        requires
            self.wf(),
        ensures
            future.wf(),
            future.stream == Some(self.stream),
            future.saved@ == self.saved@,
            future.count == count,
            future.mode == ReadMode::Exact,
    {
        self.read(count, ReadMode::Exact)
    }

    /// Starts a read of `count` bytes, or of all that are left if the
    /// stream ends before them.
    pub fn read_at_most(self, count: usize) -> (future: ReadableByteStreamFuture<S>)
        requires
            self.wf(),
        ensures
            future.wf(),
            future.stream == Some(self.stream),
            future.saved@ == self.saved@,
            future.count == count,
            future.mode == ReadMode::AtMost,
    {
        self.read(count, ReadMode::AtMost)
    }

    /// Puts a frame back in front of what is saved, so that the next read
    /// starts with its bytes.
    pub fn unread(&mut self, frame: ByteFrame)
        requires
            old(self).wf(),
            frame.wf(),
            old(self).saved_data().len() + frame@.len() <= usize::MAX,
        ensures
            final(self).wf(),
            final(self).stream == old(self).stream,
            final(self).saved@ == frame.vec@ + old(self).saved@,
    {
        let ByteFrame { vec, length } = frame;
        let mut vec = vec;
        let ghost chunks = vec@;
        let ghost kept = self.saved@;
        proof {
            lemma_chunks_data_concat(chunks, kept);
        }
        loop
            invariant
                vec@ + self.saved@ == chunks + kept,
                self.stream == old(self).stream,
                self.saved_count == old(self).saved_count,
            ensures
                self.saved@ == chunks + kept,
                self.stream == old(self).stream,
                self.saved_count == old(self).saved_count,
            decreases vec@.len(),
        {
            match vec.pop() {
                Some(chunk) => {
                    proof {
                        assert(vec@ + (seq![chunk] + self.saved@) =~= vec@.push(chunk)
                            + self.saved@);
                    }
                    self.saved.push_front(chunk);
                },
                None => {
                    assert(vec@ + self.saved@ =~= self.saved@);
                    break ;
                },
            }
        }
        self.saved_count = self.saved_count + length;
    }

    /// Takes the reader apart: the one buffer that is saved, if any, and
    /// the source.
    pub fn into_inner(self) -> (parts: (Option<Bytes>, S))
        requires
            self.saved@.len() <= 1,
        ensures
            parts.1 == self.stream,
            self.saved@.len() == 0 ==> parts.0 is None,
            self.saved@.len() == 1 ==> parts.0 == Some(self.saved@[0]),
    {
        let mut saved = self.saved;
        (saved.pop_front(), self.stream)
    }

    /// Takes the reader apart: all the buffers that are saved, first to
    /// last, and the source, which follows them.
    pub fn into_parts(self) -> (parts: (VecDeque<Bytes>, S))
        ensures
            parts.0@ == self.saved@,
            parts.1 == self.stream,
    {
        (self.saved, self.stream)
    }
}

impl<S> ReadableByteStreamFuture<S> {
    /// The count of saved bytes is right.
    pub open spec fn wf(self) -> bool {
        self.saved_count == chunks_data(self.saved@).len()
    }

    /// The bytes that were taken from the source and not yet handed out.
    pub open spec fn saved_data(self) -> Seq<u8> {
        chunks_data(self.saved@)
    }

    /// Takes the frame that the read asks for from the front of what is
    /// saved. Buffers are moved, not copied; one that holds more than the
    /// read may take is split, unless the mode is lazy, and the part behind
    /// the split stays saved.
    fn drain(&mut self) -> (frame: ByteFrame)
        requires
            old(self).wf(),
        ensures
            final(self).wf(),
            final(self).stream == old(self).stream,
            final(self).count == old(self).count,
            final(self).mode == old(self).mode,
            drained(old(self).saved@, old(self).count, old(self).mode, frame, final(self).saved@),
            no_spare(old(self).saved@, old(self).count) ==> final(self).saved@.len() <= 1,
    {
        let mut vec: Vec<Bytes> = Vec::new();
        let mut length: usize = 0;
        let ghost before = self.saved@;
        let ghost touched = whole_chunks_for(before, self.count as int) as int;
        let ghost mut taken: int = 0;
        let ghost mut split = false;
        proof {
            assert(before.take(0) =~= Seq::<Bytes>::empty());
            assert(before.skip(0) =~= before);
            lemma_whole_chunks_bound(before, self.count as int);
        }
        while self.saved.len() > 0 && length < self.count
            invariant
                self.stream == old(self).stream,
                self.count == old(self).count,
                self.mode == old(self).mode,
                self.saved_count == chunks_data(self.saved@).len(),
                length == chunks_data(vec@).len(),
                chunks_data(vec@) + chunks_data(self.saved@) == chunks_data(before),
                chunks_data(before).len() <= usize::MAX,
                self.mode != ReadMode::Lazy ==> length <= self.count,
                no_spare(before, self.count) ==> self.saved@.len() <= 1 || length + chunks_data(
                    self.saved@.drop_last(),
                ).len() < self.count,
                touched == whole_chunks_for(before, self.count as int),
                0 <= taken <= before.len(),
                touched <= before.len(),
                !split ==> {
                    &&& vec@ == before.take(taken)
                    &&& self.saved@ == before.skip(taken)
                    &&& touched == taken + whole_chunks_for(
                        before.skip(taken),
                        self.count - length,
                    )
                },
                split ==> {
                    &&& self.mode != ReadMode::Lazy
                    &&& length == self.count
                    &&& touched == taken + 1
                    &&& chunks_data(before.take(touched)).len() > self.count
                    &&& vec@.len() == touched
                    &&& vec@.take(taken) == before.take(taken)
                    &&& chunk_data(vec@[taken]) == chunk_data(before[taken]).take(
                        self.count - chunks_data(before.take(taken)).len(),
                    )
                    &&& self.saved@.len() == before.len() - taken
                    &&& chunk_data(self.saved@[0]) == chunk_data(before[taken]).skip(
                        self.count - chunks_data(before.take(taken)).len(),
                    )
                    &&& self.saved@.skip(1) == before.skip(touched)
                },
            decreases self.saved@.len() + (if length < self.count { 1nat } else { 0nat }),
        {
            let ghost saved_before = self.saved@;
            let ghost gathered = vec@;
            let chunk = self.saved.pop_front().unwrap();
            proof {
                lemma_chunks_data_first(saved_before);
                assert(saved_before.drop_first() =~= self.saved@);
                lemma_chunks_data_push(vec@, chunk);
                if saved_before.len() >= 2 {
                    assert(saved_before.drop_last().drop_first() =~= self.saved@.drop_last());
                    lemma_chunks_data_first(saved_before.drop_last());
                }
                assert(before.skip(taken)[0] == before[taken]);
                assert(before.take(taken + 1) =~= before.take(taken).push(before[taken]));
                assert(before.skip(taken).drop_first() =~= before.skip(taken + 1));
                lemma_chunks_data_push(before.take(taken), before[taken]);
            }
            let size = chunk.len();
            assert(chunks_data(vec@).len() + chunks_data(saved_before).len() == chunks_data(
                before,
            ).len());
            if (length + size <= self.count) || self.mode == ReadMode::Lazy {
                proof {
                    taken = taken + 1;
                    assert((chunks_data(vec@) + chunk_data(chunk)) + chunks_data(self.saved@)
                        =~= chunks_data(vec@) + (chunk_data(chunk) + chunks_data(self.saved@)));
                }
                length += size;
                self.saved_count -= size;
                vec.push(chunk);
            } else {
                let n = self.count - length;
                let head = chunk.slice(0, n);
                let tail = chunk.slice_from(n);
                proof {
                    assert(chunk_data(head) + chunk_data(tail) =~= chunk_data(chunk));
                    lemma_chunks_data_push(vec@, head);
                    let rest = self.saved@;
                    assert((seq![tail] + rest).drop_first() =~= rest);
                    lemma_chunks_data_first(seq![tail] + rest);
                    assert((chunks_data(vec@) + chunk_data(head)) + (chunk_data(tail)
                        + chunks_data(rest)) =~= chunks_data(vec@) + ((chunk_data(head)
                        + chunk_data(tail)) + chunks_data(rest)));
                    assert(whole_chunks_for(before.skip(taken + 1), self.count - length - size)
                        == 0);
                    assert(gathered.push(head).take(taken) =~= gathered);
                    assert((seq![tail] + rest).skip(1) =~= rest);
                    split = true;
                }
                length += n;
                self.saved_count -= n;
                vec.push(head);
                self.saved.push_front(tail);
            }
        }
        proof {
            if self.mode != ReadMode::Lazy {
                if self.saved@.len() == 0 {
                    assert(chunks_data(self.saved@) =~= Seq::<u8>::empty());
                    assert(chunks_data(vec@) =~= chunks_data(before));
                }
            }
            if !split {
                assert(touched == taken);
            }
        }
        ByteFrame { vec, length }
    }

    /// Ends the read with whatever is saved: hands out the frame, and a
    /// reader on `stream` that keeps the rest.
    fn complete(&mut self, stream: S) -> (done: (ByteFrame, ReadableByteStream<S>))
        requires
            old(self).wf(),
        ensures
            final(self).wf(),
            final(self).stream == old(self).stream,
            final(self).count == old(self).count,
            final(self).mode == old(self).mode,
            done.1.wf(),
            done.1.stream == stream,
            drained(old(self).saved@, old(self).count, old(self).mode, done.0, done.1.saved@),
            no_spare(old(self).saved@, old(self).count) ==> done.1.saved@.len() <= 1,
    {
        let frame = self.drain();
        let mut saved: VecDeque<Bytes> = VecDeque::new();
        core::mem::swap(&mut saved, &mut self.saved);
        let saved_count = self.saved_count;
        self.saved_count = 0;
        (frame, ReadableByteStream { stream, saved, saved_count })
    }

    /// The first half of a poll: if enough bytes are saved, the read ends
    /// with them and the source is not polled. `None` says that the source
    /// is to be polled, and its outcome handed to `poll_source`.
    pub fn poll_saved(&mut self) -> (done: Option<(ByteFrame, ReadableByteStream<S>)>)
        requires
            old(self).wf(),
            old(self).stream is Some,
        ensures
            final(self).wf(),
            final(self).count == old(self).count,
            final(self).mode == old(self).mode,
            done is Some <==> old(self).saved_data().len() >= old(self).count,
            done is None ==> *final(self) == *old(self),
            done matches Some((frame, rest)) ==> {
                &&& final(self).stream is None
                &&& rest.wf()
                &&& rest.stream == old(self).stream->0
                &&& drained(old(self).saved@, old(self).count, old(self).mode, frame, rest.saved@)
                &&& no_spare(old(self).saved@, old(self).count) ==> rest.saved@.len() <= 1
            },
    {
        if self.saved_count >= self.count {
            let stream = self.stream.take().unwrap();
            Some(self.complete(stream))
        } else {
            None
        }
    }

    /// The second half of a poll, with what polling the source gave. A
    /// buffer is saved, and the poll goes round again. At the end of the
    /// source an exact read that is short of bytes fails, and any other read
    /// ends with what is saved. An error of the source is passed on at once,
    /// whatever is saved.
    pub fn poll_source<ErrorT>(&mut self, polled: Polled<Option<Bytes>, ErrorT>) -> (turn: ReadTurn<
        S,
        ErrorT,
    >)
        requires
            old(self).wf(),
            old(self).stream is Some,
            polled matches Polled::Ready(Some(buffer)) ==> old(self).saved_data().len()
                + chunk_data(buffer).len() <= usize::MAX,
        ensures
            final(self).wf(),
            final(self).count == old(self).count,
            final(self).mode == old(self).mode,
            match polled {
                Polled::Failed(e) => turn == ReadTurn::<S, ErrorT>::Return(
                    Polled::Failed(ReadError::Source(e)),
                ) && *final(self) == *old(self),
                Polled::NotReady => turn == ReadTurn::<S, ErrorT>::Return(Polled::NotReady)
                    && *final(self) == *old(self),
                Polled::Ready(None) => if old(self).mode == ReadMode::Exact
                    && old(self).saved_data().len() < old(self).count {
                    turn == ReadTurn::<S, ErrorT>::Return(
                        Polled::Failed(ReadError::UnexpectedEof),
                    ) && *final(self) == *old(self)
                } else {
                    turn matches ReadTurn::Return(Polled::Ready((frame, rest))) && {
                        &&& final(self).stream is None
                        &&& rest.wf()
                        &&& rest.stream == old(self).stream->0
                        &&& drained(
                            old(self).saved@,
                            old(self).count,
                            old(self).mode,
                            frame,
                            rest.saved@,
                        )
                        &&& no_spare(old(self).saved@, old(self).count) ==> rest.saved@.len() <= 1
                    }
                },
                Polled::Ready(Some(buffer)) => {
                    &&& turn == ReadTurn::<S, ErrorT>::Again
                    &&& final(self).stream == old(self).stream
                    &&& final(self).saved@ == old(self).saved@.push(buffer)
                    &&& old(self).saved_data().len() < old(self).count ==> no_spare(
                        final(self).saved@,
                        old(self).count,
                    )
                },
            },
    {
        match polled {
            Polled::NotReady => ReadTurn::Return(Polled::NotReady),
            Polled::Ready(None) => {
                if self.mode == ReadMode::Exact && self.saved_count < self.count {
                    ReadTurn::Return(Polled::Failed(ReadError::UnexpectedEof))
                } else {
                    let stream = self.stream.take().unwrap();
                    ReadTurn::Return(Polled::Ready(self.complete(stream)))
                }
            },
            Polled::Ready(Some(buffer)) => {
                proof {
                    lemma_chunks_data_push(self.saved@, buffer);
                    assert(self.saved@.push(buffer).drop_last() =~= self.saved@);
                }
                self.saved_count += buffer.len();
                self.saved.push_back(buffer);
                ReadTurn::Again
            },
            Polled::Failed(error) => ReadTurn::Return(Polled::Failed(ReadError::Source(error))),
        }
    }
}

impl<S> From<S> for ReadableByteStream<S> {
    /// A reader on `stream`, with nothing taken from it yet.
    fn from(stream: S) -> (reader: ReadableByteStream<S>)
        ensures
            reader.stream == stream,
            reader.saved@ == Seq::<Bytes>::empty(),
            reader.wf(),
    {
        ReadableByteStream::new(stream)
    }
}

impl<S> FromSpecImpl<S> for ReadableByteStream<S> {
    open spec fn obeys_from_spec() -> bool {
        false
    }

    open spec fn from_spec(stream: S) -> ReadableByteStream<S> {
        arbitrary()
    }
}

impl ReadableByteStream<VecStream<Bytes>> {
    /// All the buffers that are left to read: those saved, then those of
    /// the source.
    pub open spec fn chunks(self) -> Seq<Bytes> {
        self.saved@ + self.stream@
    }

    /// All the bytes that are left to read.
    pub open spec fn remaining(self) -> Seq<u8> {
        chunks_data(self.chunks())
    }

    /// The stream of all that is left: what is saved first, then the source.
    pub fn into_stream(self) -> (stream: VecStream<Bytes>)
        ensures
            stream@ == self.chunks(),
    {
        let mut saved = self.saved;
        let mut stream = self.stream;
        let ghost whole = saved@ + stream@;
        loop
            invariant
                saved@ + stream@ == whole,
            ensures
                stream@ == whole,
            decreases saved@.len(),
        {
            match saved.pop_back() {
                Some(chunk) => {
                    proof {
                        assert(saved@ + (seq![chunk] + stream@) =~= saved@.push(chunk) + stream@);
                    }
                    stream.items.push_front(chunk);
                },
                None => {
                    assert(saved@ + stream@ =~= stream@);
                    break ;
                },
            }
        }
        stream
    }
}

impl ReadableByteStreamFuture<VecStream<Bytes>> {
    /// All the buffers that the read can draw on: those saved, then those
    /// of the source.
    pub open spec fn chunks(self) -> Seq<Bytes> {
        self.saved@ + self.stream->0@
    }

    /// Runs the read to its end against the source in memory. An exact read
    /// fails if fewer bytes are left than it asks for; any other read, and
    /// an exact read that has its bytes, hands out its frame and a reader on
    /// the rest.
    pub fn wait(self) -> (done: Result<(ByteFrame, ReadableByteStream<VecStream<Bytes>>), Error>)
        requires
            self.wf(),
            self.stream is Some,
            chunks_data(self.chunks()).len() <= usize::MAX,
        ensures
            done is Err <==> self.mode == ReadMode::Exact && chunks_data(self.chunks()).len()
                < self.count,
            done matches Err(e) ==> e == Error::UnexpectedEof,
            done matches Ok((frame, rest)) ==> rest.wf() && drained(
                self.chunks(),
                self.count,
                self.mode,
                frame,
                rest.chunks(),
            ),
            done matches Ok((_, rest)) ==> (no_spare(self.saved@, self.count)
                ==> rest.saved@.len() <= 1),
    {
        let mut future = self;
        let ghost all = self.chunks();
        loop
            invariant
                future.wf(),
                future.stream is Some,
                future.count == self.count,
                future.mode == self.mode,
                future.chunks() == all,
                all == self.chunks(),
                no_spare(self.saved@, self.count) ==> no_spare(future.saved@, self.count),
                chunks_data(all).len() <= usize::MAX,
            decreases future.stream->0@.len(),
        {
            let ghost saved = future.saved@;
            let ghost source = future.stream->0@;
            proof {
                lemma_chunks_data_concat(saved, source);
            }
            match future.poll_saved() {
                Some((frame, rest)) => {
                    proof {
                        lemma_read_extends(saved, source, self.count, self.mode, frame, rest.saved@);
                    }
                    return Ok((frame, rest));
                },
                None => {},
            }
            let mut stream = future.stream.take().unwrap();
            let polled: Polled<Option<Bytes>, Error> = stream.poll();
            future.stream = Some(stream);
            proof {
                if source.len() > 0 {
                    lemma_chunks_data_first(source);
                    assert(saved.push(source[0]) + source.drop_first() =~= saved + source);
                }
            }
            match future.poll_source(polled) {
                ReadTurn::Again => {},
                ReadTurn::Return(Polled::Ready((frame, rest))) => {
                    proof {
                        assert(source =~= Seq::<Bytes>::empty());
                        assert(saved + source =~= saved);
                        assert(rest.saved@ + rest.stream@ =~= rest.saved@);
                    }
                    return Ok((frame, rest));
                },
                ReadTurn::Return(Polled::Failed(ReadError::UnexpectedEof)) => {
                    proof {
                        assert(saved + source =~= saved);
                    }
                    return Err(Error::UnexpectedEof);
                },
                // A source in memory neither fails nor makes its reader wait.
                ReadTurn::Return(Polled::Failed(ReadError::Source(_))) => {
                    return vstd::pervasive::unreached();
                },
                ReadTurn::Return(Polled::NotReady) => {
                    return vstd::pervasive::unreached();
                },
            }
        }
    }
}

/// A read that ends on the buffers `front` alone, because they hold enough,
/// is the read of `front` followed by `back`, with `back` left over as it was.
proof fn lemma_read_extends(
    front: Seq<Bytes>,
    back: Seq<Bytes>,
    count: usize,
    mode: ReadMode,
    frame: ByteFrame,
    after: Seq<Bytes>,
)
    requires
        chunks_data(front).len() >= count,
        drained(front, count, mode, frame, after),
    ensures
        drained(front + back, count, mode, frame, after + back),
{
    lemma_chunks_data_concat(front, back);
    lemma_chunks_data_concat(after, back);
    assert(frame@ + (chunks_data(after) + chunks_data(back)) =~= (frame@ + chunks_data(after))
        + chunks_data(back));
    lemma_whole_chunks_prefix(front, back, count as int);
    lemma_whole_chunks_bound(front, count as int);
    let k = whole_chunks_for(front, count as int) as int;
    assert((front + back).take(k) =~= front.take(k));
    assert((front + back).skip(k) =~= front.skip(k) + back);
    if !(mode == ReadMode::Lazy || chunks_data(front.take(k)).len() <= count) {
        assert((front + back).take(k - 1) =~= front.take(k - 1));
        assert((front + back)[k - 1] == front[k - 1]);
        assert((after + back)[0] == after[0]);
        assert((after + back).skip(1) =~= after.skip(1) + back);
    }
}

} // verus!
