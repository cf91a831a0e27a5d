use bytes::Bytes;
use lib4bottle::bottle::{
    end_of_bottle_bytes, end_of_stream_bytes, frame_count, frame_item, is_end_marker,
    length_finish, length_start, read_bottle, read_framed_stream, write_frame,
    write_framed_stream, Bottle,
};
use lib4bottle::stream_toolkit::byte_frame::ByteFrame;
use lib4bottle::zint::FrameLength;
use lib4bottle::error::Error;
use lib4bottle::header::BottleType;
use lib4bottle::stream_toolkit::helpers::{stream_of, stream_of_hex, stream_of_vec, VecStream};
use lib4bottle::stream_toolkit::hex::{FromHex, ToHex};
use lib4bottle::stream_toolkit::readable_byte_stream::ReadableByteStream;
use lib4bottle::table::Table;

const MAGIC_HEX: &str = "f09f8dbc0000";

fn no_streams() -> VecStream<VecStream<Bytes>> {
    VecStream::empty()
}

#[test]
fn write_a_small_frame() {
    let s = write_framed_stream(stream_of(Bytes::from("010203".from_hex()))).ok().unwrap();
    assert_eq!(s.collect().to_hex(), "0301020300");
}

#[test]
fn buffer_a_frame() {
    let s = stream_of_vec(vec![
        Bytes::from_static(b"he"),
        Bytes::from_static(b"ll"),
        Bytes::from_static(b"o sai"),
        Bytes::from_static(b"lor"),
    ]);
    let b = write_framed_stream(s).ok().unwrap();
    assert_eq!(b.collect().to_hex(), "0c68656c6c6f207361696c6f7200");
}

#[test]
fn write_a_small_bottle() {
    let mut t = Table::new();
    t.add_number(0, 150);
    let b = Bottle::new(BottleType::Test, t, no_streams());
    assert_eq!(b.encode().ok().unwrap().collect().to_hex(), format!("{}a003800196ff", MAGIC_HEX));
}

#[test]
fn write_a_small_data_bottle() {
    let data = stream_of(Bytes::from("ff00ff00".from_hex()));
    let b = Bottle::new(BottleType::Test, Table::new(), stream_of_vec(vec![data]));
    assert_eq!(b.encode().ok().unwrap().collect().to_hex(), format!("{}a00004ff00ff0000ff", MAGIC_HEX));
}

#[test]
fn write_a_nested_bottle() {
    let b1 = Bottle::new(BottleType::Test, Table::new(), no_streams());
    let b2 = Bottle::new(BottleType::Test2, Table::new(), stream_of_vec(vec![b1.encode().ok().unwrap()]));
    assert_eq!(
        b2.encode().ok().unwrap().collect().to_hex(),
        format!("{}b00009{}a000ff00ff", MAGIC_HEX, MAGIC_HEX)
    );
}

#[test]
fn write_a_bottle_of_several_streams() {
    let data1 = stream_of(Bytes::from("f0f0f0".from_hex()));
    let data2 = stream_of(Bytes::from("e0e0e0".from_hex()));
    let data3 = stream_of(Bytes::from("cccccc".from_hex()));
    let b = Bottle::new(BottleType::Test, Table::new(), stream_of_vec(vec![data1, data2, data3]));
    assert_eq!(
        b.encode().ok().unwrap().collect().to_hex(),
        format!("{}a00003f0f0f00003e0e0e00003cccccc00ff", MAGIC_HEX)
    );
}

#[test]
fn write_an_empty_bottle() {
    let b = Bottle::new(BottleType::File, Table::new(), no_streams());
    assert_eq!(b.encode().ok().unwrap().collect().to_hex(), "f09f8dbc00000000ff");
}

#[test]
fn read_a_data_block() {
    let data1 = stream_of_hex("0568656c6c6f00ff");
    let (stream, rest) = read_framed_stream(data1).ok().unwrap();
    assert_eq!(stream.unwrap().into_stream().collect().to_hex(), "68656c6c6f");
    assert_eq!(rest.into_stream().collect().to_hex(), "ff");
}

#[test]
fn read_a_continuing_data_block() {
    let data1 = ReadableByteStream::new(stream_of(Bytes::from("026865016c026c6f00ff".from_hex())));
    let (stream, rest) = read_framed_stream(data1).ok().unwrap();
    assert_eq!(stream.unwrap().into_stream().collect().to_hex(), "68656c6c6f");
    assert_eq!(rest.into_stream().collect().to_hex(), "ff");
}

#[test]
fn read_several_streams() {
    let data1 = ReadableByteStream::new(stream_of(Bytes::from("03f0f0f00003e0e0e00003cccccc00ff".from_hex())));

    let (stream1, data2) = read_framed_stream(data1).ok().unwrap();
    assert_eq!(stream1.unwrap().into_stream().collect().to_hex(), "f0f0f0");

    let (stream2, data3) = read_framed_stream(data2).ok().unwrap();
    assert_eq!(stream2.unwrap().into_stream().collect().to_hex(), "e0e0e0");

    let (stream3, data4) = read_framed_stream(data3).ok().unwrap();
    assert_eq!(stream3.unwrap().into_stream().collect().to_hex(), "cccccc");

    assert_eq!(data4.into_stream().collect().to_hex(), "ff");
}

#[test]
fn read_a_bottle() {
    let data1 = stream_of_hex(&format!("{}a0000363617400ff", MAGIC_HEX)[..]);
    let (bottle, data2) = read_bottle(data1).ok().unwrap();
    assert_eq!(bottle.header.bottle_type, BottleType::Test);
    assert_eq!(bottle.header.table.to_debug_string(), "Table()");

    let mut streams = bottle.streams.collect();
    assert_eq!(streams.len(), 1);
    assert_eq!(streams.remove(0).collect().to_hex(), "636174");

    assert_eq!(data2.into_stream().collect().to_hex(), "");
}

#[test]
fn read_several_bottles_from_the_same_stream() {
    let data1 = stream_of_hex(&format!("{}a0000363617400ff{}b0000368617400ff", MAGIC_HEX, MAGIC_HEX)[..]);
    let (bottle, data2) = read_bottle(data1).ok().unwrap();
    assert_eq!(bottle.header.bottle_type, BottleType::Test);
    assert_eq!(bottle.header.table.to_debug_string(), "Table()");

    let mut streams = bottle.streams.collect();
    assert_eq!(streams.len(), 1);
    assert_eq!(streams.remove(0).collect().to_hex(), "636174");

    let (bottle, data3) = read_bottle(data2).ok().unwrap();
    assert_eq!(bottle.header.bottle_type, BottleType::Test2);
    assert_eq!(bottle.header.table.to_debug_string(), "Table()");

    let mut streams = bottle.streams.collect();
    assert_eq!(streams.len(), 1);
    assert_eq!(streams.remove(0).collect().to_hex(), "686174");

    assert_eq!(data3.into_stream().collect().to_hex(), "");
}

#[test]
fn read_an_empty_bottle() {
    let (bottle, rest) = read_bottle(stream_of_hex("f09f8dbc00000000ff")).ok().unwrap();
    assert_eq!(bottle.header.bottle_type, BottleType::File);
    assert_eq!(bottle.streams.collect().len(), 0);
    assert_eq!(rest.into_stream().collect().to_hex(), "");
}

#[test]
fn read_an_empty_inner_stream() {
    let (stream, rest) = read_framed_stream(stream_of_hex("00ff")).ok().unwrap();
    assert_eq!(stream.unwrap().into_stream().collect().to_hex(), "");
    let (stream, rest) = read_framed_stream(rest).ok().unwrap();
    assert!(stream.is_none());
    assert_eq!(rest.into_stream().collect().to_hex(), "");
}

#[test]
fn write_an_empty_inner_stream() {
    let s = write_framed_stream(stream_of_vec(Vec::<Bytes>::new())).ok().unwrap();
    assert_eq!(s.collect().to_hex(), "00");
    let b = Bottle::new(BottleType::Test, Table::new(), stream_of_vec(vec![VecStream::empty()]));
    assert_eq!(b.encode().ok().unwrap().collect().to_hex(), format!("{}a00000ff", MAGIC_HEX));
}

#[test]
fn the_end_of_the_bottle_is_taken() {
    let (stream, rest) = read_framed_stream(stream_of_hex("ff0102")).ok().unwrap();
    assert!(stream.is_none());
    assert_eq!(rest.into_stream().collect().to_hex(), "0102");
}

#[test]
fn reading_fails_where_the_bytes_end() {
    // nothing at all
    assert_eq!(read_framed_stream(stream_of_hex("")).err(), Some(Error::UnexpectedEof));
    // a frame that is cut short
    assert_eq!(read_framed_stream(stream_of_hex("0568656c")).err(), Some(Error::UnexpectedEof));
    // a length that is cut short
    assert_eq!(read_framed_stream(stream_of_hex("80")).err(), Some(Error::UnexpectedEof));
    // no marker behind the last frame
    assert_eq!(read_framed_stream(stream_of_hex("0168")).err(), Some(Error::UnexpectedEof));
    // no marker at the end of the bottle
    assert_eq!(read_bottle(stream_of_hex("f09f8dbc0000a000016800")).err(), Some(Error::UnexpectedEof));
    // errors of the header come through
    assert_eq!(read_bottle(stream_of_hex("f09f8dbc0000f000ff")).err(), Some(Error::UnknownBottleType { code: 15 }));
    assert_eq!(read_bottle(stream_of_hex("f09f8dbc0100a000ff")).err(), Some(Error::BadVersion { version: 1, flags: 0 }));
    assert_eq!(read_bottle(stream_of_hex("a09f8dbc0000a000ff")).err(), Some(Error::BadMagic));
    assert_eq!(read_bottle(stream_of_hex("f09f")).err(), Some(Error::UnexpectedEof));
    assert_eq!(read_bottle(stream_of_hex("f09f8dbc0000a0024400ff")).err(), Some(Error::UnknownFieldKind));
}

#[test]
fn frames_at_the_boundaries() {
    for n in [63usize, 64, 16383, 16384, (1 << 22) - 1] {
        let data = Bytes::from(vec![0x5a; n]);
        let written = write_framed_stream(stream_of(data.clone())).ok().unwrap().collect();
        let prefix = if n < 64 { 1 } else if n < 16384 { 2 } else { 3 };
        assert_eq!(written.len(), 3);
        assert_eq!(written[0].len(), prefix);
        assert_eq!(written[1], data);
        assert_eq!(written[2].to_hex(), "00");
        let (stream, rest) = read_framed_stream(ReadableByteStream::new(stream_of_vec(written))).ok().unwrap();
        let inner = stream.unwrap().into_stream().collect();
        let total: usize = inner.iter().map(|b| b.len()).sum();
        assert_eq!(total, n);
        assert!(inner.iter().all(|b| b.iter().all(|x| *x == 0x5a)));
        assert_eq!(rest.into_stream().collect().to_hex(), "");
    }
}

#[test]
fn a_frame_that_is_too_large_is_refused() {
    let data = Bytes::from(vec![0u8; 1 << 22]);
    assert_eq!(write_framed_stream(stream_of(data.clone())).err(), Some(Error::LengthTooLarge));
    assert_eq!(Error::LengthTooLarge.kind(), lib4bottle::error::ErrorKind::InvalidInput);
    let b = Bottle::new(BottleType::Test, Table::new(), stream_of_vec(vec![stream_of(data)]));
    assert_eq!(b.encode().err(), Some(Error::LengthTooLarge));
}

#[test]
fn small_buffers_are_gathered_into_frames() {
    let chunks: Vec<Bytes> = (0..30).map(|_| Bytes::from(vec![7u8; 100])).collect();
    let written = write_framed_stream(stream_of_vec(chunks)).ok().unwrap().collect();
    // 11 buffers of 100 bytes reach 1024: frames of 1100, 1100 and 800 bytes
    let lengths: Vec<usize> = written.iter().map(|b| b.len()).collect();
    let mut expected: Vec<usize> = Vec::new();
    for frame in [11usize, 11, 8] {
        expected.push(2);
        expected.extend(std::iter::repeat(100).take(frame));
    }
    expected.push(1);
    assert_eq!(lengths, expected);
    assert_eq!(written[0].to_hex(), "444c");
    assert_eq!(written[24].to_hex(), "4320");
}

#[test]
fn bottle_round_trip() {
    let mut t = Table::new();
    t.add_string(0, String::from("name"));
    t.add_number(1, 12345);
    t.add_bool(2);
    let first: VecStream<Bytes> = stream_of_vec(vec![
        Bytes::from_static(b"hello "),
        Bytes::from_static(b""),
        Bytes::from_static(b"sailor"),
    ]);
    let second: VecStream<Bytes> = stream_of_vec(vec![Bytes::from(vec![0xffu8; 3000]), Bytes::from(vec![0u8; 5])]);
    let third: VecStream<Bytes> = VecStream::empty();
    let text = t.to_debug_string();
    let bottle = Bottle::new(BottleType::Hashed, t, stream_of_vec(vec![first, second, third]));
    let encoded = bottle.encode().ok().unwrap();

    let (decoded, rest) = read_bottle(ReadableByteStream::new(encoded)).ok().unwrap();
    assert_eq!(decoded.header.bottle_type, BottleType::Hashed);
    assert_eq!(decoded.header.table.to_debug_string(), text);
    let streams = decoded.streams.collect();
    assert_eq!(streams.len(), 3);
    let flat: Vec<Vec<u8>> = streams
        .into_iter()
        .map(|s| s.collect().iter().flat_map(|b| b.to_vec()).collect())
        .collect();
    assert_eq!(flat[0], b"hello sailor".to_vec());
    let mut expected = vec![0xffu8; 3000];
    expected.extend(vec![0u8; 5]);
    assert_eq!(flat[1], expected);
    assert_eq!(flat[2], Vec::<u8>::new());
    assert_eq!(rest.into_stream().collect().to_hex(), "");
}

#[test]
fn two_bottles_one_after_the_other() {
    let b1 = Bottle::new(BottleType::Test, Table::new(), stream_of_vec(vec![stream_of(Bytes::from_static(b"cat"))]));
    let mut t = Table::new();
    t.add_bool(4);
    let b2 = Bottle::new(BottleType::Test2, t, stream_of_vec(vec![stream_of(Bytes::from_static(b"hat"))]));
    let mut both = b1.encode().ok().unwrap().collect();
    both.extend(b2.encode().ok().unwrap().collect());

    let (first, rest) = read_bottle(ReadableByteStream::new(stream_of_vec(both))).ok().unwrap();
    assert_eq!(first.header.to_debug_string(), "Header(Test, Table())");
    assert_eq!(first.streams.collect().remove(0).collect().to_hex(), "636174");
    let (second, rest) = read_bottle(rest).ok().unwrap();
    assert_eq!(second.header.to_debug_string(), "Header(Test2, Table(B4))");
    assert_eq!(second.streams.collect().remove(0).collect().to_hex(), "686174");
    assert_eq!(rest.into_stream().collect().to_hex(), "");
}

#[test]
fn decisions_of_reading_a_frame() {
    let one = |byte: u8| ByteFrame::from(Bytes::from(vec![byte]));
    assert_eq!(length_start(&one(0x05)), (0, FrameLength::Length(5)));
    assert_eq!(length_start(&one(0x41)), (1, FrameLength::Length(1)));
    assert_eq!(length_start(&one(0x00)), (0, FrameLength::EndOfStream));
    assert_eq!(length_start(&one(0xff)), (0, FrameLength::EndOfBottle));
    assert!(is_end_marker(&one(0xff)));
    assert!(!is_end_marker(&one(0x00)));
    assert!(!is_end_marker(&one(0xfe)));

    // the first byte may come behind a buffer that holds nothing
    let split = ByteFrame::from_chunks(vec![Bytes::new(), Bytes::from(vec![0xffu8])]);
    assert!(is_end_marker(&split));

    let rest = ByteFrame::from_chunks(vec![Bytes::from(vec![0x04u8]), Bytes::from(vec![0x3au8])]);
    assert_eq!(length_finish(FrameLength::Length(0x3d), &rest), FrameLength::Length(3998778));
    assert_eq!(length_finish(FrameLength::EndOfStream, &ByteFrame::from_chunks(vec![])), FrameLength::EndOfStream);

    assert_eq!(frame_count(FrameLength::Length(7)), 7);
    assert_eq!(frame_count(FrameLength::EndOfStream), 0);
    assert_eq!(frame_count(FrameLength::EndOfBottle), 0);
    assert_eq!(frame_item(FrameLength::Length(1), one(9)).unwrap().length, 1);
    assert!(frame_item(FrameLength::EndOfStream, ByteFrame::from_chunks(vec![])).is_none());
    assert!(frame_item(FrameLength::EndOfBottle, ByteFrame::from_chunks(vec![])).is_none());
}

#[test]
fn write_one_frame() {
    let mut out: VecStream<Bytes> = stream_of(Bytes::from_static(b"x"));
    let frame = ByteFrame::from_chunks(vec![Bytes::from_static(b"ab"), Bytes::from_static(b"c")]);
    assert_eq!(write_frame(frame, &mut out), Ok(()));
    let chunks = out.collect();
    assert_eq!(chunks.len(), 4);
    assert_eq!(chunks.to_hex(), "7803616263");
    assert_eq!(chunks[1].to_hex(), "03");

    let mut out: VecStream<Bytes> = VecStream::empty();
    let frame = ByteFrame::from(Bytes::from(vec![1u8; 1 << 22]));
    assert_eq!(write_frame(frame, &mut out), Err(Error::LengthTooLarge));
    assert_eq!(out.collect().len(), 0);
}

#[test]
fn markers() {
    assert_eq!(end_of_stream_bytes().to_hex(), "00");
    assert_eq!(end_of_bottle_bytes().to_hex(), "ff");
}

#[test]
fn a_marker_for_the_end_of_the_bottle_ends_an_inner_stream() {
    // the marker stands where a length is due, behind a frame
    let (stream, rest) = read_framed_stream(stream_of_hex("0161ff0262")).ok().unwrap();
    assert_eq!(stream.unwrap().into_stream().collect().to_hex(), "61");
    assert_eq!(rest.into_stream().collect().to_hex(), "0262");
}

#[test]
fn a_frame_of_no_bytes_is_read_as_one() {
    let (stream, rest) = read_framed_stream(stream_of_hex("4000016100")).ok().unwrap();
    assert_eq!(stream.unwrap().into_stream().collect().to_hex(), "61");
    assert_eq!(rest.into_stream().collect().to_hex(), "");
}
