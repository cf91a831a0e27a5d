use bytes::Bytes;
use lib4bottle::error::Error;
use lib4bottle::stream_toolkit::hex::{FromHex, ToHex};
use lib4bottle::zint;
use lib4bottle::zint::FrameLength;

#[test]
fn bytes_needed() {
    assert_eq!(zint::bytes_needed(1), 1);
    assert_eq!(zint::bytes_needed(254), 1);
    assert_eq!(zint::bytes_needed(255), 1);
    assert_eq!(zint::bytes_needed(256), 2);
    assert_eq!(zint::bytes_needed(1023), 2);
    assert_eq!(zint::bytes_needed(1024), 2);
    assert_eq!(zint::bytes_needed(16485), 2);
    assert_eq!(zint::bytes_needed(0xffffffff), 4);
    assert_eq!(zint::bytes_needed(0x100000000), 5);
    assert_eq!(zint::bytes_needed(0xff0010000000), 6);
    assert_eq!(zint::bytes_needed(0xff000010000000), 7);
    assert_eq!(zint::bytes_needed(0xff00000010000000), 8);
}

#[test]
fn bytes_needed_of_zero_is_one() {
    assert_eq!(zint::bytes_needed(0), 1);
    assert_eq!(zint::bytes_needed(u64::MAX), 8);
    assert_eq!(zint::bytes_needed(0xffff), 2);
    assert_eq!(zint::bytes_needed(0x10000), 3);
    assert_eq!(zint::bytes_needed(0xffffff), 3);
    assert_eq!(zint::bytes_needed(0x1000000), 4);
}

#[test]
fn encode_packed_u64() {
    assert_eq!(zint::encode_packed_u64(0).to_hex(), "00");
    assert_eq!(zint::encode_packed_u64(100).to_hex(), "64");
    assert_eq!(zint::encode_packed_u64(129).to_hex(), "81");
    assert_eq!(zint::encode_packed_u64(127).to_hex(), "7f");
    assert_eq!(zint::encode_packed_u64(256).to_hex(), "0001");
    assert_eq!(zint::encode_packed_u64(987654321).to_hex(), "b168de3a");
}

#[test]
fn decode_packed_u64() {
    assert_eq!(zint::decode_packed_u64(Bytes::from("00".from_hex())), 0);
    assert_eq!(zint::decode_packed_u64(Bytes::from("0a".from_hex())), 10);
    assert_eq!(zint::decode_packed_u64(Bytes::from("ff".from_hex())), 255);
    assert_eq!(zint::decode_packed_u64(Bytes::from("64".from_hex())), 100);
    assert_eq!(zint::decode_packed_u64(Bytes::from("81".from_hex())), 129);
    assert_eq!(zint::decode_packed_u64(Bytes::from("7f".from_hex())), 127);
    assert_eq!(zint::decode_packed_u64(Bytes::from("0001".from_hex())), 256);
    assert_eq!(zint::decode_packed_u64(Bytes::from("b168de3a".from_hex())), 987654321);
}

#[test]
fn packed_u64_round_trip() {
    let numbers: Vec<u64> = vec![0, 1, 255, 256, 65535, 65536, 1 << 32, (1 << 56) - 1, 1 << 56, u64::MAX];
    for n in numbers {
        let packed = zint::encode_packed_u64(n);
        assert_eq!(packed.len(), zint::bytes_needed(n));
        assert_eq!(zint::decode_packed_u64(packed), n);
    }
    assert_eq!(zint::encode_packed_u64(u64::MAX).to_hex(), "ffffffffffffffff");
    assert_eq!(zint::decode_packed_u64(Bytes::from("".from_hex())), 0);
}

#[test]
fn encode_length() {
    assert_eq!(zint::encode_length(1).unwrap().to_hex(), "01");
    assert_eq!(zint::encode_length(100).unwrap().to_hex(), "4064");
    assert_eq!(zint::encode_length(129).unwrap().to_hex(), "4081");
    assert_eq!(zint::encode_length(127).unwrap().to_hex(), "407f");
    assert_eq!(zint::encode_length(256).unwrap().to_hex(), "4100");
    assert_eq!(zint::encode_length(1024).unwrap().to_hex(), "4400");
    assert_eq!(zint::encode_length(12345).unwrap().to_hex(), "7039");
    assert_eq!(zint::encode_length(3998778).unwrap().to_hex(), "bd043a");
    assert_eq!(zint::encode_length(1 << 21).unwrap().to_hex(), "a00000");
}

#[test]
fn encode_length_at_the_boundaries() {
    assert_eq!(zint::encode_length(63).unwrap().to_hex(), "3f");
    assert_eq!(zint::encode_length(64).unwrap().to_hex(), "4040");
    assert_eq!(zint::encode_length(16383).unwrap().to_hex(), "7fff");
    assert_eq!(zint::encode_length(16384).unwrap().to_hex(), "804000");
    assert_eq!(zint::encode_length((1 << 22) - 1).unwrap().to_hex(), "bfffff");
}

#[test]
fn encode_length_refuses_large_frames() {
    assert_eq!(zint::encode_length(1 << 22).err(), Some(Error::LengthTooLarge));
    assert_eq!(zint::encode_length(usize::MAX).err(), Some(Error::LengthTooLarge));
    assert!(zint::encode_length((1 << 22) - 1).is_ok());
}

#[test]
fn decode_first_length_byte() {
    assert_eq!(zint::decode_first_length_byte(0x01), (0, FrameLength::Length(1)));
    assert_eq!(zint::decode_first_length_byte(0x0f), (0, FrameLength::Length(15)));
    assert_eq!(zint::decode_first_length_byte(0x3f), (0, FrameLength::Length(63)));
    assert_eq!(zint::decode_first_length_byte(0x40), (1, FrameLength::Length(0)));
    assert_eq!(zint::decode_first_length_byte(0x4f), (1, FrameLength::Length(15)));
    assert_eq!(zint::decode_first_length_byte(0x5f), (1, FrameLength::Length(31)));
    assert_eq!(zint::decode_first_length_byte(0x80), (2, FrameLength::Length(0)));
    assert_eq!(zint::decode_first_length_byte(0xbf), (2, FrameLength::Length(63)));
}

#[test]
fn decode_first_length_byte_markers() {
    assert_eq!(zint::decode_first_length_byte(0x00), (0, FrameLength::EndOfStream));
    assert_eq!(zint::decode_first_length_byte(0xff), (0, FrameLength::EndOfBottle));
    assert_eq!(zint::decode_first_length_byte(0xc1), (3, FrameLength::Length(1)));
}

#[test]
fn decode_length() {
    let length = |n: usize| FrameLength::Length(n);
    assert_eq!(zint::decode_length(length(0), Bytes::from("01".from_hex()).as_ref()), length(1));
    assert_eq!(zint::decode_length(length(1), Bytes::from("".from_hex()).as_ref()), length(1));
    assert_eq!(zint::decode_length(length(15), Bytes::from("".from_hex()).as_ref()), length(15));
    assert_eq!(zint::decode_length(length(0), Bytes::from("64".from_hex()).as_ref()), length(100));
    assert_eq!(zint::decode_length(length(0), Bytes::from("81".from_hex()).as_ref()), length(129));
    assert_eq!(zint::decode_length(length(0), Bytes::from("7f".from_hex()).as_ref()), length(127));
    assert_eq!(zint::decode_length(length(1), Bytes::from("00".from_hex()).as_ref()), length(256));
    assert_eq!(zint::decode_length(length(4), Bytes::from("00".from_hex()).as_ref()), length(1024));
    assert_eq!(zint::decode_length(length(0x30), Bytes::from("39".from_hex()).as_ref()), length(12345));
    assert_eq!(zint::decode_length(length(0x3d), Bytes::from("043a".from_hex()).as_ref()), length(3998778));
    assert_eq!(zint::decode_length(length(0x20), Bytes::from("0000".from_hex()).as_ref()), length(1 << 21));
}

#[test]
fn decode_length_keeps_markers() {
    assert_eq!(zint::decode_length(FrameLength::EndOfStream, &[]), FrameLength::EndOfStream);
    assert_eq!(zint::decode_length(FrameLength::EndOfBottle, &[]), FrameLength::EndOfBottle);
}

#[test]
fn length_round_trip() {
    let lengths: Vec<usize> = vec![1, 63, 64, 100, 16383, 16384, 70000, (1 << 22) - 1];
    for n in lengths {
        let encoded = zint::encode_length(n).unwrap();
        let bytes = encoded.as_ref();
        let (more, start) = zint::decode_first_length_byte(bytes[0]);
        assert_eq!(bytes.len(), 1 + more);
        assert_eq!(zint::decode_length(start, &bytes[1..]), FrameLength::Length(n));
        let expected = if n < 64 { 1 } else if n < (1 << 14) { 2 } else { 3 };
        assert_eq!(bytes.len(), expected);
    }
}
