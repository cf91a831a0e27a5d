use bytes::Bytes;
use lib4bottle::stream_toolkit::buffered_byte_stream::BufferedByteStream;
use lib4bottle::stream_toolkit::byte_frame::ByteFrame;
use lib4bottle::stream_toolkit::helpers::{stream_of_vec, stream_to_hex_vec, stream_to_string_vec};
use lib4bottle::stream_toolkit::polled::Polled;
use lib4bottle::stream_toolkit::readable_byte_stream::{ReadMode, ReadableByteStream};

#[test]
fn test_buffered_byte_stream_combine_small_buffers() {
    let s = stream_of_vec(vec![
        Bytes::from_static(b"hell"),
        Bytes::from_static(b"ok"),
        Bytes::from_static(b"it"),
        Bytes::from_static(b"ty!"),
    ]);
    let b = BufferedByteStream::new(s, 1024, false);
    assert_eq!(stream_to_string_vec(b.pack()), vec!["hellokitty!"]);
}

#[test]
fn test_buffered_byte_stream_stops_at_target() {
    let s = stream_of_vec(vec![
        Bytes::from_static(b"hell"),
        Bytes::from_static(b"ok"),
        Bytes::from_static(b"it"),
        Bytes::from_static(b"ty!"),
    ]);
    let b = BufferedByteStream::new(s, 5, false);
    assert_eq!(stream_to_string_vec(b.pack()), vec!["hellok", "itty!"]);
}

#[test]
fn test_buffered_byte_stream_slices_exactly() {
    let s = stream_of_vec(vec![
        Bytes::from_static(b"hell"),
        Bytes::from_static(b"okittyhowareyou!"),
    ]);
    let b = BufferedByteStream::new(s, 5, true);
    assert_eq!(stream_to_string_vec(b.pack()), vec!["hello", "kitty", "howar", "eyou!"]);
}

#[test]
fn exact_frames_have_the_block_size_but_for_the_last() {
    let s = stream_of_vec(vec![
        Bytes::from_static(b"abc"),
        Bytes::from_static(b""),
        Bytes::from_static(b"defghij"),
        Bytes::from_static(b"k"),
    ]);
    let frames = BufferedByteStream::new(s, 4, true).collect();
    let lengths: Vec<usize> = frames.iter().map(|f| f.length).collect();
    assert_eq!(lengths, vec![4, 4, 3]);
    let mut all: Vec<u8> = Vec::new();
    for frame in &frames {
        all.extend_from_slice(&frame.pack());
    }
    assert_eq!(all, b"abcdefghijk".to_vec());
}

#[test]
fn an_empty_stream_has_no_frames() {
    let s = stream_of_vec(vec![Bytes::from_static(b""), Bytes::from_static(b"")]);
    assert_eq!(BufferedByteStream::new(s, 4, false).collect().len(), 0);
    let s = stream_of_vec(Vec::<Bytes>::new());
    assert_eq!(BufferedByteStream::new(s, 4, true).collect().len(), 0);
}

#[test]
fn frames_as_hex() {
    let s = stream_of_vec(vec![Bytes::from_static(b"ab"), Bytes::from_static(b"cd")]);
    let b = BufferedByteStream::new(s, 3, true);
    assert_eq!(stream_to_hex_vec(b.pack()), vec!["616263", "64"]);
}

#[test]
fn poll_one_frame_at_a_time() {
    let s = stream_of_vec(vec![Bytes::from_static(b"hello"), Bytes::from_static(b"!")]);
    let mut b = BufferedByteStream::new(s, 2, false);
    assert_eq!(b.poll().unwrap().length, 5);
    assert_eq!(b.poll().unwrap().length, 1);
    assert!(b.poll().is_none());
    assert!(b.poll().is_none());
}

#[test]
fn read_polled_decides_what_a_poll_returns() {
    let mut b: BufferedByteStream<u8> = BufferedByteStream::new(1, 16, false);
    assert_eq!(b.mode, ReadMode::Lazy);

    // not ready: the read goes back
    let future = b.future.take().unwrap();
    assert!(matches!(b.read_polled::<()>(future, Polled::NotReady), Polled::NotReady));
    assert!(b.future.is_some());

    // a frame goes out and the next read starts
    let future = b.future.take().unwrap();
    let frame = ByteFrame::new(vec![Bytes::from_static(b"abc")], 3);
    let rest = ReadableByteStream::new(2u8);
    match b.read_polled::<()>(future, Polled::Ready((frame, rest))) {
        Polled::Ready(Some(frame)) => assert_eq!(frame.length, 3),
        _ => panic!("a frame should have gone out"),
    }
    assert_eq!(b.future.as_ref().unwrap().count, 16);
    assert_eq!(b.future.as_ref().unwrap().stream, Some(2));

    // an empty frame ends the stream
    let future = b.future.take().unwrap();
    let frame = ByteFrame::new(vec![], 0);
    let rest = ReadableByteStream::new(3u8);
    assert!(matches!(b.read_polled::<()>(future, Polled::Ready((frame, rest))), Polled::Ready(None)));

    // an error is passed on and no read is left
    let future = b.future.take().unwrap();
    assert!(matches!(b.read_polled(future, Polled::Failed(42)), Polled::Failed(42)));
    assert!(b.future.is_none());

    let exact: BufferedByteStream<u8> = BufferedByteStream::new(1, 16, true);
    assert_eq!(exact.mode, ReadMode::AtMost);
}
