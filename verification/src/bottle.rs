//! A bottle: a header and a sequence of inner streams, each cut into frames
//! that are announced by their length.

use crate::chunk::{
    chunk_data, chunk_views, chunks_data, lemma_chunks_data_concat, lemma_chunks_data_push,
};
use crate::error::Error;
use crate::header::{
    header_bytes, header_pieces, parse_header, BottleType, Header, MAX_TABLE_SIZE,
};
use crate::stream_toolkit::buffered_byte_stream::{
    frames_chunks, lazy_frames, BufferedByteStream,
};
use crate::stream_toolkit::byte_frame::ByteFrame;
use crate::stream_toolkit::helpers::VecStream;
use crate::stream_toolkit::readable_byte_stream::{
    lemma_drained_split, ReadMode, ReadableByteStream,
};
use crate::table::{table_bytes, Entry, Table};
use crate::zint::{
    decode_first_length_byte, decode_length, encode_length, finished_length, first_length_byte,
    frame_length_bytes, FrameLength, END_OF_BOTTLE, END_OF_STREAM, FRAME_LENGTH_LIMIT,
};
use bytes::Bytes;
use vstd::prelude::*;

verus! {

/// The least number of bytes that a frame of an inner stream holds, unless
/// it is the last one: small buffers are gathered until they hold as many.
pub const MIN_BUFFER: usize = 1024;

/// A bottle of some type, with its metadata table and its inner streams.
pub struct Bottle<S> {
    pub header: Header,
    pub streams: S,
}

/// The encoding of frames: each is announced by its length.
pub open spec fn frames_bytes(frames: Seq<Seq<u8>>) -> Seq<u8>
    decreases frames.len(),
{
    if frames.len() == 0 {
        Seq::empty()
    } else {
        frame_length_bytes(frames[0].len()) + frames[0] + frames_bytes(frames.drop_first())
    }
}

/// The encoding of an inner stream: its frames, then the marker that ends
/// the stream.
pub open spec fn framed_bytes(frames: Seq<Seq<u8>>) -> Seq<u8> {
    frames_bytes(frames) + seq![END_OF_STREAM]
}

/// Every frame has a length that can be announced: at least one byte, and
/// fewer than 2^22.
pub open spec fn frames_encodable(frames: Seq<Seq<u8>>) -> bool {
    forall|i: int| 0 <= i < frames.len() ==> 0 < (#[trigger] frames[i]).len() < FRAME_LENGTH_LIMIT
}

/// The frames that the buffers of an inner stream are written as.
pub open spec fn inner_frames(chunks: Seq<Bytes>) -> Seq<Seq<u8>> {
    lazy_frames(chunks, MIN_BUFFER as int).map_values(|frame: Seq<Bytes>| chunks_data(frame))
}

/// The encoding of inner streams, each given by its frames.
pub open spec fn streams_bytes(streams: Seq<Seq<Seq<u8>>>) -> Seq<u8>
    decreases streams.len(),
{
    if streams.len() == 0 {
        Seq::empty()
    } else {
        framed_bytes(streams[0]) + streams_bytes(streams.drop_first())
    }
}

/// Every frame of every stream has a length that can be announced.
pub open spec fn streams_encodable(streams: Seq<Seq<Seq<u8>>>) -> bool {
    forall|i: int| 0 <= i < streams.len() ==> frames_encodable(#[trigger] streams[i])
}

/// The encoding of a bottle: the header, the inner streams, then the
/// marker that ends the bottle.
pub open spec fn bottle_bytes(header: (BottleType, Seq<Entry>), streams: Seq<Seq<Seq<u8>>>) -> Seq<
    u8,
> {
    header_bytes(header) + streams_bytes(streams) + seq![END_OF_BOTTLE]
}

/// The frames that each of the given streams is written as.
pub open spec fn streams_frames(streams: Seq<VecStream<Bytes>>) -> Seq<Seq<Seq<u8>>> {
    streams.map_values(|s: VecStream<Bytes>| inner_frames(s@))
}

/// The buffers that one frame is written as: one that announces its
/// length, then the buffers of the frame as they are.
pub open spec fn frame_pieces(frame: Seq<Bytes>) -> Seq<Seq<u8>> {
    seq![frame_length_bytes(chunks_data(frame).len())] + chunk_views(frame)
}

/// The buffers that frames are written as.
pub open spec fn frames_pieces(frames: Seq<Seq<Bytes>>) -> Seq<Seq<u8>>
    decreases frames.len(),
{
    if frames.len() == 0 {
        Seq::empty()
    } else {
        frame_pieces(frames[0]) + frames_pieces(frames.drop_first())
    }
}

/// The buffers that an inner stream is written as: those of its frames,
/// then one that holds the marker that ends the stream.
pub open spec fn stream_pieces(chunks: Seq<Bytes>) -> Seq<Seq<u8>> {
    frames_pieces(lazy_frames(chunks, MIN_BUFFER as int)) + seq![seq![END_OF_STREAM]]
}

/// The buffers that inner streams are written as.
pub open spec fn streams_pieces(streams: Seq<VecStream<Bytes>>) -> Seq<Seq<u8>>
    decreases streams.len(),
{
    if streams.len() == 0 {
        Seq::empty()
    } else {
        stream_pieces(streams[0]@) + streams_pieces(streams.drop_first())
    }
}

/// The buffers that a bottle is written as: those of the header, those of
/// the inner streams, then one that holds the marker that ends the bottle.
pub open spec fn bottle_pieces(
    header: (BottleType, Seq<Entry>),
    streams: Seq<VecStream<Bytes>>,
) -> Seq<Seq<u8>> {
    header_pieces(header) + streams_pieces(streams) + seq![seq![END_OF_BOTTLE]]
}

/// The buffers that two lists of frames are written as, one after the
/// other.
pub proof fn lemma_frames_pieces_concat(front: Seq<Seq<Bytes>>, back: Seq<Seq<Bytes>>)
    ensures
        frames_pieces(front + back) == frames_pieces(front) + frames_pieces(back),
    decreases front.len(),
{
    if front.len() == 0 {
        assert(front + back =~= back);
        assert(frames_pieces(front) + frames_pieces(back) =~= frames_pieces(back));
    } else {
        lemma_frames_pieces_concat(front.drop_first(), back);
        assert((front + back).drop_first() =~= front.drop_first() + back);
        assert((front + back)[0] == front[0]);
        assert(frame_pieces(front[0]) + (frames_pieces(front.drop_first()) + frames_pieces(back))
            =~= (frame_pieces(front[0]) + frames_pieces(front.drop_first())) + frames_pieces(
            back,
        ));
    }
}

/// The buffers that two lists of streams are written as, one after the
/// other.
pub proof fn lemma_streams_pieces_concat(
    front: Seq<VecStream<Bytes>>,
    back: Seq<VecStream<Bytes>>,
)
    ensures
        streams_pieces(front + back) == streams_pieces(front) + streams_pieces(back),
    decreases front.len(),
{
    if front.len() == 0 {
        assert(front + back =~= back);
        assert(streams_pieces(front) + streams_pieces(back) =~= streams_pieces(back));
    } else {
        lemma_streams_pieces_concat(front.drop_first(), back);
        assert((front + back).drop_first() =~= front.drop_first() + back);
        assert((front + back)[0] == front[0]);
        assert(stream_pieces(front[0]@) + (streams_pieces(front.drop_first()) + streams_pieces(
            back,
        )) =~= (stream_pieces(front[0]@) + streams_pieces(front.drop_first())) + streams_pieces(
            back,
        ));
    }
}

/// The encoding of two lists of frames, one after the other, is the
/// encoding of the first followed by that of the second.
pub proof fn lemma_frames_bytes_concat(front: Seq<Seq<u8>>, back: Seq<Seq<u8>>)
    ensures
        frames_bytes(front + back) == frames_bytes(front) + frames_bytes(back),
    decreases front.len(),
{
    if front.len() == 0 {
        assert(front + back =~= back);
        assert(frames_bytes(front) + frames_bytes(back) =~= frames_bytes(back));
    } else {
        lemma_frames_bytes_concat(front.drop_first(), back);
        assert((front + back).drop_first() =~= front.drop_first() + back);
        assert((front + back)[0] == front[0]);
        let head = frame_length_bytes(front[0].len()) + front[0];
        assert(head + (frames_bytes(front.drop_first()) + frames_bytes(back)) =~= (head
            + frames_bytes(front.drop_first())) + frames_bytes(back));
    }
}

/// The encoding of two lists of streams, one after the other, is the
/// encoding of the first followed by that of the second.
pub proof fn lemma_streams_bytes_concat(front: Seq<Seq<Seq<u8>>>, back: Seq<Seq<Seq<u8>>>)
    ensures
        streams_bytes(front + back) == streams_bytes(front) + streams_bytes(back),
    decreases front.len(),
{
    if front.len() == 0 {
        assert(front + back =~= back);
        assert(streams_bytes(front) + streams_bytes(back) =~= streams_bytes(back));
    } else {
        lemma_streams_bytes_concat(front.drop_first(), back);
        assert((front + back).drop_first() =~= front.drop_first() + back);
        assert((front + back)[0] == front[0]);
        assert(framed_bytes(front[0]) + (streams_bytes(front.drop_first()) + streams_bytes(back))
            =~= (framed_bytes(front[0]) + streams_bytes(front.drop_first())) + streams_bytes(
            back,
        ));
    }
}

/// A buffer that holds the marker that ends an inner stream.
pub fn end_of_stream_bytes() -> (marker: Bytes)
    ensures
        chunk_data(marker) == seq![END_OF_STREAM],
{
    let marker: Vec<u8> = vec![END_OF_STREAM];
    assert(marker@ =~= seq![END_OF_STREAM]);
    Bytes::from(marker)
}

/// A buffer that holds the marker that ends a bottle.
pub fn end_of_bottle_bytes() -> (marker: Bytes)
    ensures
        chunk_data(marker) == seq![END_OF_BOTTLE],
{
    let marker: Vec<u8> = vec![END_OF_BOTTLE];
    assert(marker@ =~= seq![END_OF_BOTTLE]);
    Bytes::from(marker)
}

/// Appends all the items of `more` to `out`, in order.
fn append_stream(out: &mut VecStream<Bytes>, more: VecStream<Bytes>)
    ensures
        final(out)@ == old(out)@ + more@,
{
    let mut more = more;
    let ghost whole = more@;
    assert(out@ + more@ =~= old(out)@ + whole);
    loop
        invariant
            out@ + more@ == old(out)@ + whole,
        ensures
            out@ == old(out)@ + whole,
        decreases more@.len(),
    {
        match more.items.pop_front() {
            Some(item) => {
                proof {
                    assert(out@.push(item) + more@ =~= out@ + (seq![item] + more@));
                }
                out.push(item);
            },
            None => {
                assert(out@ + more@ =~= out@);
                break ;
            },
        }
    }
}

/// Writes one frame behind what `out` holds: the bytes that announce its
/// length, then its buffers as they are. A frame of 2^22 bytes or more is
/// refused, and nothing is written.
pub fn write_frame(frame: ByteFrame, out: &mut VecStream<Bytes>) -> (written: Result<(), Error>)
    requires
        frame.wf(),
        frame.length > 0,
    ensures
        frame.length < FRAME_LENGTH_LIMIT ==> written is Ok && chunks_data(final(out)@)
            == chunks_data(old(out)@) + (frame_length_bytes(frame@.len()) + frame@) && chunk_views(
            final(out)@,
        ) == chunk_views(old(out)@) + frame_pieces(frame.vec@),
        frame.length >= FRAME_LENGTH_LIMIT ==> written == Err::<(), Error>(Error::LengthTooLarge)
            && final(out)@ == old(out)@,
{
    let prefix = match encode_length(frame.length) {
        Ok(prefix) => prefix,
        Err(e) => {
            return Err(e);
        },
    };
    proof {
        lemma_chunks_data_push(out@, prefix);
        lemma_chunks_data_concat(out@.push(prefix), frame.vec@);
        assert((chunks_data(old(out)@) + chunk_data(prefix)) + frame@ =~= chunks_data(old(out)@)
            + (chunk_data(prefix) + frame@));
    }
    out.push(prefix);
    append_stream(out, crate::stream_toolkit::helpers::stream_of_vec(frame.vec));
    assert(chunk_views(out@) =~= chunk_views(old(out)@) + frame_pieces(frame.vec@));
    Ok(())
}

/// The encoding of an inner stream. Small buffers are gathered into
/// frames of 1024 bytes or more, so that a stream of many small buffers
/// does not pay for a length with each of them; no buffer is split or
/// copied. Each frame is announced by its length, and the marker that ends
/// the stream follows the last one. A frame of 2^22 bytes or more cannot be
/// announced, and then nothing is written.
pub fn write_framed_stream(s: VecStream<Bytes>) -> (written: Result<VecStream<Bytes>, Error>)
    requires
        chunks_data(s@).len() <= usize::MAX,
    ensures
        frames_encodable(inner_frames(s@)) ==> (written matches Ok(out) && chunks_data(out@)
            == framed_bytes(inner_frames(s@)) && chunk_views(out@) == stream_pieces(s@)),
        !frames_encodable(inner_frames(s@)) ==> (written matches Err(e) && e
            == Error::LengthTooLarge),
{
    let buffered = BufferedByteStream::new(s, MIN_BUFFER, false);
    assert(buffered.chunks() =~= s@);
    let frames = buffered.collect();
    let ghost views = inner_frames(s@);
    let ghost groups = lazy_frames(s@, MIN_BUFFER as int);
    assert(views.len() == frames@.len());
    assert forall|i: int| 0 <= i < frames@.len() implies #[trigger] views[i] == frames@[i]@
        && frames@[i].vec@ == groups[i] by {
        assert(frames_chunks(frames@)[i] == frames@[i].vec@);
    }
    let mut frames = crate::stream_toolkit::helpers::stream_of_vec(frames);
    let mut out: VecStream<Bytes> = VecStream::empty();
    let ghost mut done: int = 0;
    proof {
        assert(views.take(0) =~= Seq::<Seq<u8>>::empty());
        assert(groups.take(0) =~= Seq::<Seq<Bytes>>::empty());
        assert(chunks_data(out@) =~= frames_bytes(views.take(0)));
        assert(chunk_views(out@) =~= frames_pieces(groups.take(0)));
        assert(frames@.skip(0) =~= frames@);
    }
    loop
        invariant
            0 <= done <= views.len(),
            views == inner_frames(s@),
            groups == lazy_frames(s@, MIN_BUFFER as int),
            views.len() == done + frames@.len(),
            groups.len() == views.len(),
            forall|i: int|
                0 <= i < frames@.len() ==> (#[trigger] frames@[i]).wf() && frames@[i].length > 0
                    && frames@[i]@ == views[done + i] && frames@[i].vec@ == groups[done + i],
            forall|i: int| 0 <= i < done ==> 0 < (#[trigger] views[i]).len() < FRAME_LENGTH_LIMIT,
            chunks_data(out@) == frames_bytes(views.take(done)),
            chunk_views(out@) == frames_pieces(groups.take(done)),
        ensures
            done == views.len(),
            frames_encodable(views),
            chunks_data(out@) == frames_bytes(views),
            chunk_views(out@) == frames_pieces(groups),
        decreases frames@.len(),
    {
        let ghost left = frames@;
        match frames.items.pop_front() {
            Some(frame) => {
                assert(frame == left[0]);
                assert forall|i: int| 0 <= i < frames@.len() implies (#[trigger] frames@[i]).wf()
                    && frames@[i].length > 0 && frames@[i]@ == views[done + 1 + i]
                    && frames@[i].vec@ == groups[done + 1 + i] by {
                    assert(frames@[i] == left[i + 1]);
                }
                proof {
                    assert(groups.take(done + 1) =~= groups.take(done) + seq![groups[done]]);
                    lemma_frames_pieces_concat(groups.take(done), seq![groups[done]]);
                    assert(seq![groups[done]].drop_first() =~= Seq::<Seq<Bytes>>::empty());
                    assert(frames_pieces(seq![groups[done]].drop_first()) =~= Seq::<
                        Seq<u8>,
                    >::empty());
                    assert(seq![groups[done]][0] == groups[done]);
                    assert(frames_pieces(seq![groups[done]]) =~= frame_pieces(groups[done]));
                    assert(views.take(done + 1) =~= views.take(done) + seq![views[done]]);
                    lemma_frames_bytes_concat(views.take(done), seq![views[done]]);
                    assert(seq![views[done]].drop_first() =~= Seq::<Seq<u8>>::empty());
                    assert(frames_bytes(seq![views[done]].drop_first()) =~= Seq::<u8>::empty());
                    assert(seq![views[done]][0] == views[done]);
                    assert(frames_bytes(seq![views[done]]) =~= frame_length_bytes(
                        views[done].len(),
                    ) + views[done]);
                }
                match write_frame(frame, &mut out) {
                    Ok(()) => {},
                    Err(e) => {
                        assert(!(0 < views[done].len() < FRAME_LENGTH_LIMIT));
                        return Err(e);
                    },
                }
                proof {
                    done = done + 1;
                }
            },
            None => {
                assert(views.take(done) =~= views);
                assert(groups.take(done) =~= groups);
                break ;
            },
        }
    }
    let marker = end_of_stream_bytes();
    proof {
        lemma_chunks_data_push(out@, marker);
        assert(chunk_views(out@.push(marker)) =~= chunk_views(out@) + seq![seq![END_OF_STREAM]]);
    }
    out.push(marker);
    Ok(out)
}

impl<S> Bottle<S> {
    /// A bottle of the given type, table and inner streams.
    pub fn new(bottle_type: BottleType, table: Table, streams: S) -> (bottle: Bottle<S>)
        ensures
            bottle.header.bottle_type == bottle_type,
            bottle.header.table == table,
            bottle.streams == streams,
    {
        Bottle { header: Header::new(bottle_type, table), streams }
    }
}

impl Bottle<VecStream<VecStream<Bytes>>> {
    /// The header can be encoded, and each inner stream has a length that
    /// fits the machine.
    pub open spec fn wf(self) -> bool {
        &&& self.header.wf()
        &&& table_bytes(self.header.table@).len() <= MAX_TABLE_SIZE
        &&& forall|i: int|
            0 <= i < self.streams@.len() ==> chunks_data((#[trigger] self.streams@[i])@).len()
                <= usize::MAX
    }

    /// The encoding of the bottle as one stream of buffers: the header,
    /// each inner stream in frames, and the marker that ends the bottle. A
    /// frame of 2^22 bytes or more in any inner stream cannot be announced,
    /// and then nothing is written.
    pub fn encode(self) -> (written: Result<VecStream<Bytes>, Error>)
        requires
            self.wf(),
        ensures
            streams_encodable(streams_frames(self.streams@)) ==> (written matches Ok(out)
                && chunks_data(out@) == bottle_bytes(self.header@, streams_frames(self.streams@))
                && chunk_views(out@) == bottle_pieces(self.header@, self.streams@)),
            !streams_encodable(streams_frames(self.streams@)) ==> (written matches Err(e) && e
                == Error::LengthTooLarge),
    {
        let mut out = self.header.encode();
        let mut streams = self.streams;
        let ghost all = streams_frames(self.streams@);
        let ghost mut done: int = 0;
        let ghost sources = self.streams@;
        proof {
            assert(all.take(0) =~= Seq::<Seq<Seq<u8>>>::empty());
            assert(sources.take(0) =~= Seq::<VecStream<Bytes>>::empty());
            assert(chunks_data(out@) =~= header_bytes(self.header@) + streams_bytes(all.take(0)));
            assert(chunk_views(out@) =~= header_pieces(self.header@) + streams_pieces(
                sources.take(0),
            ));
            assert(sources.skip(0) =~= sources);
        }
        loop
            invariant
                0 <= done <= all.len(),
                all == streams_frames(self.streams@),
                sources == self.streams@,
                all.len() == done + streams@.len(),
                streams@ == sources.skip(done),
                forall|i: int|
                    0 <= i < streams@.len() ==> chunks_data((#[trigger] streams@[i])@).len()
                        <= usize::MAX && inner_frames(streams@[i]@) == all[done + i],
                forall|i: int| 0 <= i < done ==> frames_encodable(#[trigger] all[i]),
                chunks_data(out@) == header_bytes(self.header@) + streams_bytes(all.take(done)),
                chunk_views(out@) == header_pieces(self.header@) + streams_pieces(
                    sources.take(done),
                ),
            ensures
                streams_encodable(all),
                chunks_data(out@) == header_bytes(self.header@) + streams_bytes(all),
                chunk_views(out@) == header_pieces(self.header@) + streams_pieces(sources),
            decreases streams@.len(),
        {
            let ghost left = streams@;
            match streams.items.pop_front() {
                Some(s) => {
                    assert(s == left[0]);
                    assert forall|i: int| 0 <= i < streams@.len() implies chunks_data(
                        (#[trigger] streams@[i])@,
                    ).len() <= usize::MAX && inner_frames(streams@[i]@) == all[done + 1 + i] by {
                        assert(streams@[i] == left[i + 1]);
                    }
                    proof {
                        assert(s == sources[done]);
                        assert(streams@ =~= sources.skip(done + 1));
                        assert(sources.take(done + 1) =~= sources.take(done) + seq![s]);
                        lemma_streams_pieces_concat(sources.take(done), seq![s]);
                        assert(seq![s].drop_first() =~= Seq::<VecStream<Bytes>>::empty());
                        assert(streams_pieces(seq![s].drop_first()) =~= Seq::<Seq<u8>>::empty());
                        assert(seq![s][0] == s);
                        assert(streams_pieces(seq![s]) =~= stream_pieces(s@));
                        assert(all.take(done + 1) =~= all.take(done) + seq![all[done]]);
                        lemma_streams_bytes_concat(all.take(done), seq![all[done]]);
                        assert(seq![all[done]].drop_first() =~= Seq::<Seq<Seq<u8>>>::empty());
                        assert(streams_bytes(seq![all[done]].drop_first()) =~= Seq::<u8>::empty());
                        assert(seq![all[done]][0] == all[done]);
                        assert(streams_bytes(seq![all[done]]) =~= framed_bytes(all[done]));
                    }
                    let framed = match write_framed_stream(s) {
                        Ok(framed) => framed,
                        Err(e) => {
                            assert(!frames_encodable(all[done]));
                            return Err(e);
                        },
                    };
                    proof {
                        lemma_chunks_data_concat(out@, framed@);
                        assert((header_bytes(self.header@) + streams_bytes(all.take(done)))
                            + framed_bytes(all[done]) =~= header_bytes(self.header@) + (
                        streams_bytes(all.take(done)) + framed_bytes(all[done])));
                        assert(chunk_views(out@ + framed@) =~= chunk_views(out@) + chunk_views(
                            framed@,
                        ));
                        assert((header_pieces(self.header@) + streams_pieces(sources.take(done)))
                            + stream_pieces(s@) =~= header_pieces(self.header@) + (streams_pieces(
                            sources.take(done),
                        ) + stream_pieces(s@)));
                        done = done + 1;
                    }
                    append_stream(&mut out, framed);
                },
                None => {
                    assert(all.take(done) =~= all);
                    assert(sources.take(done) =~= sources);
                    break ;
                },
            }
        }
        let marker = end_of_bottle_bytes();
        proof {
            lemma_chunks_data_push(out@, marker);
            assert(chunk_views(out@.push(marker)) =~= chunk_views(out@) + seq![
                seq![END_OF_BOTTLE],
            ]);
        }
        out.push(marker);
        Ok(out)
    }
}

// ----- reading

/// The length or marker that `bytes` start with, and the number of bytes
/// that it takes.
pub open spec fn parse_length(bytes: Seq<u8>) -> Result<(FrameLength, int), Error> {
    if bytes.len() == 0 {
        Err(Error::UnexpectedEof)
    } else {
        let (more, start) = first_length_byte(bytes[0]);
        if bytes.len() < 1 + more {
            Err(Error::UnexpectedEof)
        } else {
            Ok((finished_length(start, bytes.subrange(1, 1 + more)), 1 + more))
        }
    }
}

/// The number of bytes that follow a length or a marker: as many as the
/// length says, and none after a marker.
pub open spec fn body_count(length: FrameLength) -> usize {
    match length {
        FrameLength::Length(n) => n,
        _ => 0,
    }
}

/// The frame that `bytes` start with: its length or the marker in its
/// place, its bytes, and the bytes behind it.
pub open spec fn parse_frame(bytes: Seq<u8>) -> Result<(FrameLength, Seq<u8>, Seq<u8>), Error> {
    match parse_length(bytes) {
        Err(e) => Err(e),
        Ok((length, used)) => {
            let count = body_count(length) as int;
            if bytes.len() < used + count {
                Err(Error::UnexpectedEof)
            } else {
                Ok((length, bytes.subrange(used, used + count), bytes.skip(used + count)))
            }
        },
    }
}

/// The bytes `data`, followed by the bytes that `rest` gives, or the
/// error that `rest` is.
pub open spec fn bytes_then(data: Seq<u8>, rest: Result<(Seq<u8>, Seq<u8>), Error>) -> Result<
    (Seq<u8>, Seq<u8>),
    Error,
> {
    match rest {
        Ok((more, after)) => Ok((data + more, after)),
        Err(e) => Err(e),
    }
}

/// The bytes of the frames that `bytes` start with, up to the first
/// marker, and the bytes behind that marker. Either marker ends the frames:
/// the one that ends the bottle is taken like the one that ends the stream
/// if it stands where a length is due. A frame takes up at least the first
/// byte of its length, so that the bytes behind it are always fewer.
pub open spec fn parse_frames(bytes: Seq<u8>) -> Result<(Seq<u8>, Seq<u8>), Error>
    decreases bytes.len(),
{
    match parse_frame(bytes) {
        Err(e) => Err(e),
        Ok((length, body, rest)) => {
            if length is Length {
                if rest.len() < bytes.len() {
                    bytes_then(body, parse_frames(rest))
                } else {
                    Err(Error::UnexpectedEof)
                }
            } else {
                Ok((Seq::empty(), rest))
            }
        },
    }
}

/// The inner stream that `bytes` start with, and the bytes behind it; or
/// `None` in its place, where the bytes start with the marker that ends
/// the bottle.
pub open spec fn parse_stream(bytes: Seq<u8>) -> Result<(Option<Seq<u8>>, Seq<u8>), Error> {
    if bytes.len() == 0 {
        Err(Error::UnexpectedEof)
    } else if bytes[0] == END_OF_BOTTLE {
        Ok((None, bytes.skip(1)))
    } else {
        match parse_frames(bytes) {
            Err(e) => Err(e),
            Ok((data, rest)) => Ok((Some(data), rest)),
        }
    }
}

/// The streams `done`, followed by the streams that `rest` gives, or the
/// error that `rest` is.
pub open spec fn streams_then(
    done: Seq<Seq<u8>>,
    rest: Result<(Seq<Seq<u8>>, Seq<u8>), Error>,
) -> Result<(Seq<Seq<u8>>, Seq<u8>), Error> {
    match rest {
        Ok((more, after)) => Ok((done + more, after)),
        Err(e) => Err(e),
    }
}

/// The inner streams that `bytes` start with, up to the marker that ends
/// the bottle, and the bytes behind that marker. An inner stream takes up
/// at least its end marker, so that the bytes behind it are always fewer.
pub open spec fn parse_streams(bytes: Seq<u8>) -> Result<(Seq<Seq<u8>>, Seq<u8>), Error>
    decreases bytes.len(),
{
    match parse_stream(bytes) {
        Err(e) => Err(e),
        Ok((None, rest)) => Ok((Seq::empty(), rest)),
        Ok((Some(data), rest)) => {
            if rest.len() < bytes.len() {
                streams_then(seq![data], parse_streams(rest))
            } else {
                Err(Error::UnexpectedEof)
            }
        },
    }
}

/// The bottle that `bytes` start with: its header, the bytes of each of
/// its inner streams, and the bytes behind the bottle.
pub open spec fn parse_bottle(bytes: Seq<u8>) -> Result<
    ((BottleType, Seq<Entry>), Seq<Seq<u8>>, Seq<u8>),
    Error,
> {
    match parse_header(bytes) {
        Err(e) => Err(e),
        Ok((header, rest)) => match parse_streams(rest) {
            Err(e) => Err(e),
            Ok((streams, after)) => Ok((header, streams, after)),
        },
    }
}

/// The bytes of each of the given streams.
pub open spec fn streams_data(streams: Seq<VecStream<Bytes>>) -> Seq<Seq<u8>> {
    streams.map_values(|s: VecStream<Bytes>| chunks_data(s@))
}

/// Reading frames up to a marker uses up at least the marker.
pub proof fn lemma_parse_frames_shrinks(bytes: Seq<u8>)
    ensures
        parse_frames(bytes) matches Ok((_, rest)) ==> rest.len() < bytes.len(),
    decreases bytes.len(),
{
    if let Ok((length, body, rest)) = parse_frame(bytes) {
        if length is Length && rest.len() < bytes.len() {
            lemma_parse_frames_shrinks(rest);
        }
    }
}

/// The number of bytes that follow a length or a marker.
pub fn frame_count(length: FrameLength) -> (count: usize)
    ensures
        count == body_count(length),
{
    match length {
        FrameLength::Length(n) => n,
        _ => 0,
    }
}

/// What a frame that was read adds to its inner stream: the frame itself,
/// or `None` if a marker stood in place of its length, which ends the
/// stream.
pub fn frame_item(length: FrameLength, frame: ByteFrame) -> (item: Option<ByteFrame>)
    ensures
        item == if length is Length {
            Some(frame)
        } else {
            None
        },
{
    match length {
        FrameLength::Length(_) => Some(frame),
        _ => None,
    }
}

/// What the first byte of a length says, for a frame that holds just that
/// byte: how many bytes follow it, and the marker it is or the top of the
/// number it starts.
pub fn length_start(frame: &ByteFrame) -> (first: (usize, FrameLength))
    requires
        frame@.len() == 1,
    ensures
        first == first_length_byte(frame@[0]),
{
    let packed = frame.pack();
    let byte: u8 = packed.as_ref()[0];
    decode_first_length_byte(byte)
}

/// Finishes a length with the bytes that follow its first byte, which
/// `frame` holds.
pub fn length_finish(start: FrameLength, frame: &ByteFrame) -> (finished: FrameLength)
    ensures
        finished == finished_length(start, frame@),
{
    let packed = frame.pack();
    decode_length(start, packed.as_ref())
}

/// Is the one byte that `frame` holds the marker that ends a bottle?
pub fn is_end_marker(frame: &ByteFrame) -> (is_end: bool)
    requires
        frame@.len() == 1,
    ensures
        is_end == (frame@[0] == END_OF_BOTTLE),
{
    let (_, start) = length_start(frame);
    match start {
        FrameLength::EndOfBottle => true,
        _ => false,
    }
}

/// Looks at the next byte without taking it: is it the marker that ends
/// the bottle?
fn is_end_of_bottle(s: ReadableByteStream<VecStream<Bytes>>) -> (looked: Result<
    (bool, ReadableByteStream<VecStream<Bytes>>),
    Error,
>)
    requires
        s.wf(),
        s.remaining().len() <= usize::MAX,
    ensures
        s.remaining().len() == 0 ==> (looked matches Err(e) && e == Error::UnexpectedEof),
        s.remaining().len() > 0 ==> (looked matches Ok((is_end, same)) && same.wf()
            && same.remaining() == s.remaining() && is_end == (s.remaining()[0] == END_OF_BOTTLE)),
{
    let ghost all = s.chunks();
    let (frame, mut s) = match s.read_exact(1).wait() {
        Ok(done) => done,
        Err(e) => {
            return Err(e);
        },
    };
    proof {
        lemma_drained_split(all, 1, ReadMode::Exact, frame, s.chunks());
        lemma_chunks_data_concat(s.saved@, s.stream@);
        lemma_chunks_data_concat(frame.vec@, s.saved@);
        lemma_chunks_data_concat(frame.vec@ + s.saved@, s.stream@);
        assert((frame@ + chunks_data(s.saved@)) + chunks_data(s.stream@) =~= frame@ + (chunks_data(
            s.saved@,
        ) + chunks_data(s.stream@)));
    }
    let is_end = is_end_marker(&frame);
    s.unread(frame);
    Ok((is_end, s))
}

/// Reads the length of the next frame, or the marker in its place.
fn read_frame_length(s: ReadableByteStream<VecStream<Bytes>>) -> (read: Result<
    (FrameLength, ReadableByteStream<VecStream<Bytes>>),
    Error,
>)
    requires
        s.wf(),
        s.remaining().len() <= usize::MAX,
    ensures
        match parse_length(s.remaining()) {
            Err(e) => read matches Err(e2) && e2 == e,
            Ok((length, used)) => read matches Ok((l, rest)) && l == length && rest.wf()
                && rest.remaining() == s.remaining().skip(used),
        },
{
    let ghost bytes = s.remaining();
    let ghost all = s.chunks();
    let (frame, s) = match s.read_exact(1).wait() {
        Ok(done) => done,
        Err(e) => {
            return Err(e);
        },
    };
    proof {
        lemma_drained_split(all, 1, ReadMode::Exact, frame, s.chunks());
    }
    let (count, accumulator) = length_start(&frame);
    let ghost behind = s.chunks();
    let (frame, s) = match s.read_exact(count).wait() {
        Ok(done) => done,
        Err(e) => {
            return Err(e);
        },
    };
    proof {
        lemma_drained_split(behind, count, ReadMode::Exact, frame, s.chunks());
        assert(bytes.skip(1).take(count as int) =~= bytes.subrange(1, 1 + count));
        assert(bytes.skip(1).skip(count as int) =~= bytes.skip(1 + count));
    }
    Ok((length_finish(accumulator, &frame), s))
}

/// Reads the next frame: its length or the marker in its place, and its
/// bytes.
fn read_frame(s: ReadableByteStream<VecStream<Bytes>>) -> (read: Result<
    (FrameLength, ByteFrame, ReadableByteStream<VecStream<Bytes>>),
    Error,
>)
    requires
        s.wf(),
        s.remaining().len() <= usize::MAX,
    ensures
        match parse_frame(s.remaining()) {
            Err(e) => read matches Err(e2) && e2 == e,
            Ok((length, body, behind)) => read matches Ok((l, frame, rest)) && l == length
                && frame.wf() && frame@ == body && rest.wf() && rest.remaining() == behind,
        },
{
    let ghost bytes = s.remaining();
    let (length, s) = match read_frame_length(s) {
        Ok(read) => read,
        Err(e) => {
            return Err(e);
        },
    };
    let count = frame_count(length);
    let ghost used = parse_length(bytes)->Ok_0.1;
    let ghost behind = s.chunks();
    let (frame, s) = match s.read_exact(count).wait() {
        Ok(done) => done,
        Err(e) => {
            return Err(e);
        },
    };
    proof {
        lemma_drained_split(behind, count, ReadMode::Exact, frame, s.chunks());
        assert(bytes.skip(used).take(count as int) =~= bytes.subrange(used, used + count));
        assert(bytes.skip(used).skip(count as int) =~= bytes.skip(used + count));
    }
    Ok((length, frame, s))
}

/// Reads one inner stream, frame by frame, up to the marker that ends
/// it, and hands back its bytes as a stream of their own, together with a
/// reader on what follows. The whole inner stream is read before anything
/// is handed back, so the reader on what follows does not depend on what
/// becomes of the inner stream. If the next byte is the marker that ends the
/// bottle, that byte is taken and `None` is handed back in place of a
/// stream.
pub fn read_framed_stream(s: ReadableByteStream<VecStream<Bytes>>) -> (read: Result<
    (Option<ReadableByteStream<VecStream<Bytes>>>, ReadableByteStream<VecStream<Bytes>>),
    Error,
>)
    requires
        s.wf(),
        s.remaining().len() <= usize::MAX,
    ensures
        match parse_stream(s.remaining()) {
            Err(e) => read matches Err(e2) && e2 == e,
            Ok((data, behind)) => read matches Ok((inner, rest)) && rest.wf() && rest.remaining()
                == behind && match data {
                None => inner is None,
                Some(data) => inner matches Some(i) && i.wf() && i.remaining() == data,
            },
        },
{
    let ghost bytes = s.remaining();
    let (is_end, mut reader) = match is_end_of_bottle(s) {
        Ok(looked) => looked,
        Err(e) => {
            return Err(e);
        },
    };
    let mut inner: VecStream<Bytes> = VecStream::empty();
    proof {
        assert(chunks_data(inner@) =~= Seq::<u8>::empty());
        let r = parse_frames(bytes);
        if r is Ok {
            assert(Seq::<u8>::empty() + r->Ok_0.0 =~= r->Ok_0.0);
        }
    }
    loop
        invariant_except_break
            reader.remaining().len() <= usize::MAX,
            is_end ==> reader.remaining() == bytes,
            parse_frames(bytes) == bytes_then(chunks_data(inner@), parse_frames(reader.remaining())),
        invariant
            reader.wf(),
            bytes == s.remaining(),
            bytes.len() > 0,
            is_end == (bytes[0] == END_OF_BOTTLE),
        ensures
            parse_frames(bytes) == Ok::<(Seq<u8>, Seq<u8>), Error>(
                (chunks_data(inner@), reader.remaining()),
            ),
        decreases reader.remaining().len(),
    {
        let ghost here = reader.remaining();
        let ghost gathered = chunks_data(inner@);
        let (length, frame, rest) = match read_frame(reader) {
            Ok(read) => read,
            Err(e) => {
                return Err(e);
            },
        };
        reader = rest;
        match frame_item(length, frame) {
            None => {
                assert(gathered + Seq::<u8>::empty() =~= gathered);
                break ;
            },
            Some(frame) => {
                proof {
                    lemma_chunks_data_concat(inner@, frame.vec@);
                    let r = parse_frames(reader.remaining());
                    if r is Ok {
                        assert((gathered + frame@) + r->Ok_0.0 =~= gathered + (frame@ + r->Ok_0.0));
                    }
                }
                append_stream(&mut inner, crate::stream_toolkit::helpers::stream_of_vec(frame.vec));
            },
        }
    }
    if is_end {
        Ok((None, reader))
    } else {
        let inner = ReadableByteStream::new(inner);
        assert(inner.chunks() =~= inner.stream@);
        Ok((Some(inner), reader))
    }
}

/// Reads a bottle from the front of a stream: its header and its inner
/// streams, each as a stream of its own. The reader that is handed back
/// starts right behind the marker that ends the bottle, where another
/// bottle may follow.
pub fn read_bottle(s: ReadableByteStream<VecStream<Bytes>>) -> (read: Result<
    (Bottle<VecStream<VecStream<Bytes>>>, ReadableByteStream<VecStream<Bytes>>),
    Error,
>)
    requires
        s.wf(),
        s.remaining().len() <= usize::MAX,
    ensures
        match parse_bottle(s.remaining()) {
            Err(e) => read matches Err(e2) && e2 == e,
            Ok((header, streams, behind)) => read matches Ok((bottle, rest)) && bottle.header@
                == header && bottle.header.wf() && streams_data(bottle.streams@) == streams
                && rest.wf() && rest.remaining() == behind,
        },
{
    let ghost whole = s.remaining();
    let (header, mut reader) = match Header::decode(s) {
        Ok(decoded) => decoded,
        Err(e) => {
            return Err(e);
        },
    };
    let ghost bytes = reader.remaining();
    let mut streams: VecStream<VecStream<Bytes>> = VecStream::empty();
    proof {
        assert(streams_data(streams@) =~= Seq::<Seq<u8>>::empty());
        let r = parse_streams(bytes);
        if r is Ok {
            assert(Seq::<Seq<u8>>::empty() + r->Ok_0.0 =~= r->Ok_0.0);
        }
    }
    loop
        invariant_except_break
            reader.remaining().len() <= usize::MAX,
            parse_streams(bytes) == streams_then(
                streams_data(streams@),
                parse_streams(reader.remaining()),
            ),
        invariant
            reader.wf(),
            header.wf(),
            whole == s.remaining(),
            parse_header(whole) == Ok::<((BottleType, Seq<Entry>), Seq<u8>), Error>(
                (header@, bytes),
            ),
        ensures
            parse_streams(bytes) == Ok::<(Seq<Seq<u8>>, Seq<u8>), Error>(
                (streams_data(streams@), reader.remaining()),
            ),
        decreases reader.remaining().len(),
    {
        let ghost here = reader.remaining();
        let ghost gathered = streams_data(streams@);
        proof {
            lemma_parse_frames_shrinks(here);
        }
        match read_framed_stream(reader) {
            Err(e) => {
                return Err(e);
            },
            Ok((None, rest)) => {
                reader = rest;
                assert(gathered + Seq::<Seq<u8>>::empty() =~= gathered);
                break ;
            },
            Ok((Some(inner), rest)) => {
                reader = rest;
                let inner = inner.into_stream();
                proof {
                    assert(streams_data(streams@.push(inner)) =~= gathered + seq![
                        chunks_data(inner@),
                    ]);
                    let r = parse_streams(reader.remaining());
                    if r is Ok {
                        assert((gathered + seq![chunks_data(inner@)]) + r->Ok_0.0 =~= gathered + (
                        seq![chunks_data(inner@)] + r->Ok_0.0));
                    }
                }
                streams.push(inner);
            },
        }
    }
    Ok((Bottle { header, streams }, reader))
}

} // verus!
