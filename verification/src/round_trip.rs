//! What is written can be read back: the laws that tie the encoders of
//! this library to its decoders.

use crate::bottle::{
    bottle_bytes, framed_bytes, frames_bytes, frames_encodable, inner_frames, parse_bottle,
    parse_frame, parse_frames, parse_length, parse_stream, parse_streams, streams_bytes,
    streams_data, streams_encodable, streams_frames,
};
use crate::chunk::{chunks_data, lemma_chunks_data_concat};
use crate::error::Error;
use crate::header::{
    bottle_type_of, header_bytes, magic, parse_header, parse_preamble, preamble_bytes, BottleType,
    MAX_TABLE_SIZE,
};
use crate::stream_toolkit::buffered_byte_stream::{exact_frames, lazy_frames};
use crate::stream_toolkit::helpers::VecStream;
use crate::stream_toolkit::readable_byte_stream::{lemma_whole_chunks_bound, whole_chunks_for};
use crate::table::{entries_valid, lemma_table_round_trip, table_bytes, Entry};
use crate::zint::{
    first_length_byte, frame_length_bytes, lemma_length_round_trip, FrameLength,
    END_OF_BOTTLE, END_OF_STREAM, FRAME_LENGTH_LIMIT,
};
use bytes::Bytes;
use vstd::prelude::*;

verus! {

/// The bytes of some frames, frame after frame.
pub open spec fn concat_frames(frames: Seq<Seq<u8>>) -> Seq<u8>
    decreases frames.len(),
{
    if frames.len() == 0 {
        Seq::empty()
    } else {
        frames[0] + concat_frames(frames.drop_first())
    }
}

/// The bytes of each stream, given by its frames.
pub open spec fn concat_streams(streams: Seq<Seq<Seq<u8>>>) -> Seq<Seq<u8>> {
    streams.map_values(|frames: Seq<Seq<u8>>| concat_frames(frames))
}

/// A header that can be encoded: its table holds fields that a table can
/// hold, and the table's encoding fits in twelve bits of length.
pub open spec fn header_encodable(header: (BottleType, Seq<Entry>)) -> bool {
    entries_valid(header.1) && table_bytes(header.1).len() <= MAX_TABLE_SIZE
}

/// Reading the encoding of a header gives the header back, and leaves the
/// bytes behind it untouched.
pub proof fn lemma_header_round_trip(header: (BottleType, Seq<Entry>), tail: Seq<u8>)
    requires
        header_encodable(header),
    ensures
        parse_header(header_bytes(header) + tail) == Ok::<
            ((BottleType, Seq<Entry>), Seq<u8>),
            Error,
        >((header, tail)),
{
    let table = table_bytes(header.1);
    let len = table.len() as int;
    let preamble = preamble_bytes(header.0, table.len());
    let bytes = header_bytes(header) + tail;
    let code = header.0.spec_code();
    assert(preamble.len() == 8);
    assert(bytes.take(8) =~= preamble);
    assert(preamble.subrange(0, 4) =~= magic());
    assert(preamble[6] == code * 16 + len / 256);
    assert(preamble[7] == len % 256);
    assert(preamble[6] / 16 == code);
    assert((preamble[6] % 16) * 256 + preamble[7] == len);
    assert(bottle_type_of(code) == Some(header.0));
    assert(parse_preamble(preamble) == Ok::<(BottleType, usize), Error>((header.0, len as usize)));
    assert(bytes.subrange(8, 8 + len) =~= table);
    assert(bytes.skip(8 + len) =~= tail);
    lemma_table_round_trip(header.1);
}

/// Reading a frame that was written gives its length and its bytes back,
/// and leaves the bytes behind it untouched.
pub proof fn lemma_frame_round_trip(frame: Seq<u8>, tail: Seq<u8>)
    requires
        0 < frame.len() < FRAME_LENGTH_LIMIT,
    ensures
        parse_frame(frame_length_bytes(frame.len()) + frame + tail) == Ok::<
            (FrameLength, Seq<u8>, Seq<u8>),
            Error,
        >((FrameLength::Length(frame.len() as usize), frame, tail)),
        (frame_length_bytes(frame.len()) + frame + tail)[0] != END_OF_BOTTLE,
{
    let n = frame.len() as usize;
    let announced = frame_length_bytes(frame.len());
    let bytes = announced + frame + tail;
    lemma_length_round_trip(n);
    let (more, start) = first_length_byte(announced[0]);
    assert(bytes[0] == announced[0]);
    assert(bytes.subrange(1, 1 + more) =~= announced.skip(1));
    assert(parse_length(bytes) == Ok::<(FrameLength, int), Error>(
        (FrameLength::Length(n), 1 + more),
    ));
    assert(bytes.subrange(1 + more, 1 + more + n) =~= frame);
    assert(bytes.skip(1 + more + n) =~= tail);
}

/// Reading an inner stream that was written gives the bytes of its frames
/// back, and leaves the bytes behind its end marker untouched.
pub proof fn lemma_frames_round_trip(frames: Seq<Seq<u8>>, tail: Seq<u8>)
    requires
        frames_encodable(frames),
    ensures
        parse_frames(framed_bytes(frames) + tail) == Ok::<(Seq<u8>, Seq<u8>), Error>(
            (concat_frames(frames), tail),
        ),
        (framed_bytes(frames) + tail)[0] != END_OF_BOTTLE,
    decreases frames.len(),
{
    let bytes = framed_bytes(frames) + tail;
    if frames.len() == 0 {
        assert(frames_bytes(frames) =~= Seq::<u8>::empty());
        assert(bytes =~= seq![END_OF_STREAM] + tail);
        assert(bytes[0] == END_OF_STREAM);
        assert(bytes.subrange(1, 1) =~= Seq::<u8>::empty());
        assert(parse_length(bytes) == Ok::<(FrameLength, int), Error>(
            (FrameLength::EndOfStream, 1),
        ));
        assert(bytes.skip(1) =~= tail);
        assert(bytes.subrange(1, 1) =~= Seq::<u8>::empty());
    } else {
        let first = frames[0];
        let rest = frames.drop_first();
        let behind = framed_bytes(rest) + tail;
        assert(frames_encodable(rest)) by {
            assert forall|i: int| 0 <= i < rest.len() implies 0 < (#[trigger] rest[i]).len()
                < FRAME_LENGTH_LIMIT by {
                assert(rest[i] == frames[i + 1]);
            }
        }
        assert(0 < first.len() < FRAME_LENGTH_LIMIT);
        lemma_frame_round_trip(first, behind);
        lemma_frames_round_trip(rest, tail);
        assert(bytes =~= frame_length_bytes(first.len()) + first + behind);
        assert(behind.len() < bytes.len());
    }
}

/// Reading the inner streams of a bottle that were written gives the bytes
/// of each back, and leaves the bytes behind the end of the bottle
/// untouched.
pub proof fn lemma_streams_round_trip(streams: Seq<Seq<Seq<u8>>>, tail: Seq<u8>)
    requires
        streams_encodable(streams),
    ensures
        parse_streams(streams_bytes(streams) + seq![END_OF_BOTTLE] + tail) == Ok::<
            (Seq<Seq<u8>>, Seq<u8>),
            Error,
        >((concat_streams(streams), tail)),
    decreases streams.len(),
{
    let bytes = streams_bytes(streams) + seq![END_OF_BOTTLE] + tail;
    if streams.len() == 0 {
        assert(streams_bytes(streams) =~= Seq::<u8>::empty());
        assert(bytes =~= seq![END_OF_BOTTLE] + tail);
        assert(bytes[0] == END_OF_BOTTLE);
        assert(bytes.skip(1) =~= tail);
        assert(concat_streams(streams) =~= Seq::<Seq<u8>>::empty());
    } else {
        let first = streams[0];
        let rest = streams.drop_first();
        let behind = streams_bytes(rest) + seq![END_OF_BOTTLE] + tail;
        assert(streams_encodable(rest)) by {
            assert forall|i: int| 0 <= i < rest.len() implies frames_encodable(
                #[trigger] rest[i],
            ) by {
                assert(rest[i] == streams[i + 1]);
            }
        }
        assert(frames_encodable(first));
        lemma_frames_round_trip(first, behind);
        lemma_streams_round_trip(rest, tail);
        assert(bytes =~= framed_bytes(first) + behind);
        assert(behind.len() < bytes.len());
        assert(bytes.len() > 0);
        assert(parse_stream(bytes) == Ok::<(Option<Seq<u8>>, Seq<u8>), Error>(
            (Some(concat_frames(first)), behind),
        ));
        assert(seq![concat_frames(first)] + concat_streams(rest) =~= concat_streams(streams));
    }
}

/// Reading the encoding of a bottle gives back its header and, for each
/// inner stream, the bytes that its frames held; and it leaves the bytes
/// behind the bottle untouched. This holds of every bottle that can be
/// encoded, whatever follows it.
pub proof fn lemma_bottle_round_trip(
    header: (BottleType, Seq<Entry>),
    streams: Seq<Seq<Seq<u8>>>,
    tail: Seq<u8>,
)
    requires
        header_encodable(header),
        streams_encodable(streams),
    ensures
        parse_bottle(bottle_bytes(header, streams) + tail) == Ok::<
            ((BottleType, Seq<Entry>), Seq<Seq<u8>>, Seq<u8>),
            Error,
        >((header, concat_streams(streams), tail)),
{
    let behind = streams_bytes(streams) + seq![END_OF_BOTTLE] + tail;
    lemma_header_round_trip(header, behind);
    lemma_streams_round_trip(streams, tail);
    assert(bottle_bytes(header, streams) + tail =~= header_bytes(header) + behind);
}

/// Two bottles written one after the other are read back one after the
/// other: reading the first leaves exactly the encoding of the second, and
/// reading that gives the second and leaves what followed it.
pub proof fn lemma_two_bottles_round_trip(
    first_header: (BottleType, Seq<Entry>),
    first_streams: Seq<Seq<Seq<u8>>>,
    second_header: (BottleType, Seq<Entry>),
    second_streams: Seq<Seq<Seq<u8>>>,
    tail: Seq<u8>,
)
    requires
        header_encodable(first_header),
        streams_encodable(first_streams),
        header_encodable(second_header),
        streams_encodable(second_streams),
    ensures
        parse_bottle(
            bottle_bytes(first_header, first_streams) + bottle_bytes(second_header, second_streams)
                + tail,
        ) == Ok::<((BottleType, Seq<Entry>), Seq<Seq<u8>>, Seq<u8>), Error>(
            (
                first_header,
                concat_streams(first_streams),
                bottle_bytes(second_header, second_streams) + tail,
            ),
        ),
        parse_bottle(bottle_bytes(second_header, second_streams) + tail) == Ok::<
            ((BottleType, Seq<Entry>), Seq<Seq<u8>>, Seq<u8>),
            Error,
        >((second_header, concat_streams(second_streams), tail)),
{
    let second = bottle_bytes(second_header, second_streams);
    lemma_bottle_round_trip(first_header, first_streams, second + tail);
    lemma_bottle_round_trip(second_header, second_streams, tail);
    assert(bottle_bytes(first_header, first_streams) + second + tail =~= bottle_bytes(
        first_header,
        first_streams,
    ) + (second + tail));
}

/// The frames that an inner stream is written as hold the bytes of the
/// stream, in order, and nothing else.
pub proof fn lemma_inner_frames_hold_the_stream(chunks: Seq<Bytes>)
    ensures
        concat_frames(inner_frames(chunks)) == chunks_data(chunks),
{
    lemma_lazy_frames_hold_the_stream(chunks, crate::bottle::MIN_BUFFER as int);
}

/// The frames that a stream that is not exact makes of some buffers hold
/// the bytes of those buffers, in order, and nothing else.
pub proof fn lemma_lazy_frames_hold_the_stream(chunks: Seq<Bytes>, block: int)
    requires
        block > 0,
    ensures
        concat_frames(
            lazy_frames(chunks, block).map_values(|frame: Seq<Bytes>| chunks_data(frame)),
        ) == chunks_data(chunks),
    decreases chunks.len(),
{
    let k = whole_chunks_for(chunks, block) as int;
    let frames = lazy_frames(chunks, block);
    let views = frames.map_values(|frame: Seq<Bytes>| chunks_data(frame));
    lemma_whole_chunks_bound(chunks, block);
    crate::stream_toolkit::readable_byte_stream::lemma_whole_chunks_reach(chunks, block);
    if k <= 0 || chunks_data(chunks.take(k)).len() == 0 {
        assert(views =~= Seq::<Seq<u8>>::empty());
        assert(k == chunks.len());
        assert(chunks.take(k) =~= chunks);
        assert(chunks_data(chunks) =~= Seq::<u8>::empty());
    } else {
        lemma_lazy_frames_hold_the_stream(chunks.skip(k), block);
        let rest = lazy_frames(chunks.skip(k), block).map_values(
            |frame: Seq<Bytes>| chunks_data(frame),
        );
        assert(views =~= seq![chunks_data(chunks.take(k))] + rest);
        assert(views.drop_first() =~= rest);
        assert(chunks =~= chunks.take(k) + chunks.skip(k));
        lemma_chunks_data_concat(chunks.take(k), chunks.skip(k));
    }
}

/// A bottle that is written and read back has the header it had, and each
/// of its inner streams has the bytes it had, however they were split into
/// buffers; what followed the bottle is left to read.
pub proof fn lemma_written_bottle_reads_back(
    header: (BottleType, Seq<Entry>),
    streams: Seq<VecStream<Bytes>>,
    tail: Seq<u8>,
)
    requires
        header_encodable(header),
        streams_encodable(streams_frames(streams)),
    ensures
        parse_bottle(bottle_bytes(header, streams_frames(streams)) + tail) == Ok::<
            ((BottleType, Seq<Entry>), Seq<Seq<u8>>, Seq<u8>),
            Error,
        >((header, streams_data(streams), tail)),
{
    lemma_bottle_round_trip(header, streams_frames(streams), tail);
    assert(concat_streams(streams_frames(streams)) =~= streams_data(streams)) by {
        assert forall|i: int| 0 <= i < streams.len() implies concat_streams(
            streams_frames(streams),
        )[i] == streams_data(streams)[i] by {
            lemma_inner_frames_hold_the_stream(streams[i]@);
        }
    }
}

/// The frames that an exact stream makes of some bytes hold those bytes,
/// in order; each frame has exactly `block` bytes, but for the last, which
/// has at least one and at most `block`.
pub proof fn lemma_exact_frames(data: Seq<u8>, block: int)
    requires
        block > 0,
    ensures
        concat_frames(exact_frames(data, block)) == data,
        forall|i: int|
            0 <= i < exact_frames(data, block).len() - 1 ==> (#[trigger] exact_frames(
                data,
                block,
            )[i]).len() == block,
        exact_frames(data, block).len() > 0 ==> 0 < exact_frames(data, block).last().len()
            <= block,
        data.len() > 0 ==> exact_frames(data, block).len() > 0,
    decreases data.len(),
{
    let frames = exact_frames(data, block);
    if data.len() == 0 {
        assert(concat_frames(frames) =~= data);
    } else if data.len() <= block {
        assert(frames.drop_first() =~= Seq::<Seq<u8>>::empty());
        assert(concat_frames(frames.drop_first()) =~= Seq::<u8>::empty());
        assert(concat_frames(frames) =~= data);
    } else {
        let rest = exact_frames(data.skip(block), block);
        lemma_exact_frames(data.skip(block), block);
        assert(frames.drop_first() =~= rest);
        assert(data.take(block) + data.skip(block) =~= data);
        assert forall|i: int| 0 <= i < frames.len() - 1 implies (#[trigger] frames[i]).len()
            == block by {
            if i > 0 {
                assert(frames[i] == rest[i - 1]);
            }
        }
        assert(frames.last() == rest.last());
    }
}

} // verus!
