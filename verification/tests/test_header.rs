use lib4bottle::error::{Error, ErrorKind};
use lib4bottle::header::{check_magic, decode_bottle_type, BottleType, Header};
use lib4bottle::stream_toolkit::helpers::stream_of_hex;
use lib4bottle::stream_toolkit::hex::{FromHex, ToHex};
use lib4bottle::table::Table;

const MAGIC_HEX: &str = "f09f8dbc0000";

#[test]
fn write_header() {
    let mut t = Table::new();
    t.add_number(0, 150);
    let b = Header::new(BottleType::Test, t);
    assert_eq!(b.encode().collect().to_hex(), format!("{}a003800196", MAGIC_HEX));
}

fn words(e: Error) -> String {
    format!("{:?}: {}", e.kind(), e.message())
}

#[test]
#[should_panic(expected = "UnexpectedEof")]
fn validate_header_length() {
    Header::decode(stream_of_hex("00")).map(|_| ()).map_err(words).unwrap();
}

#[test]
#[should_panic(expected = "Incorrect magic")]
fn validate_header_magic() {
    Header::decode(stream_of_hex("00ff00ff00ff00ff")).map(|_| ()).map_err(words).unwrap();
}

#[test]
#[should_panic(expected = "Incompatible version")]
fn validate_header_version() {
    Header::decode(stream_of_hex("f09f8dbcff000000")).map(|_| ()).map_err(words).unwrap();
}

#[test]
#[should_panic(expected = "Incompatible version")]
fn validate_header_flags() {
    Header::decode(stream_of_hex("f09f8dbc00ff0000")).map(|_| ()).map_err(words).unwrap();
}

#[test]
#[should_panic(expected = "Unknown bottle type")]
fn validate_header_bottle_type() {
    Header::decode(stream_of_hex("f09f8dbc0000f000")).map(|_| ()).map_err(words).unwrap();
}

#[test]
fn header_errors() {
    let r = Header::decode(stream_of_hex("00"));
    assert_eq!(r.err(), Some(Error::UnexpectedEof));
    assert_eq!(Error::UnexpectedEof.kind(), ErrorKind::UnexpectedEof);
    let r = Header::decode(stream_of_hex("00ff00ff00ff00ff"));
    assert_eq!(r.err(), Some(Error::BadMagic));
    assert_eq!(Error::BadMagic.kind(), ErrorKind::InvalidInput);
    let r = Header::decode(stream_of_hex("f09f8dbcff000000"));
    assert_eq!(r.err(), Some(Error::BadVersion { version: 0xff, flags: 0 }));
    let r = Header::decode(stream_of_hex("f09f8dbc00ff0000"));
    assert_eq!(r.err(), Some(Error::BadVersion { version: 0, flags: 0xff }));
    assert_eq!(Error::BadVersion { version: 0, flags: 0xff }.kind(), ErrorKind::InvalidInput);
    let r = Header::decode(stream_of_hex("f09f8dbc0000f000"));
    assert_eq!(r.err(), Some(Error::UnknownBottleType { code: 15 }));
    assert_eq!(Error::UnknownBottleType { code: 15 }.kind(), ErrorKind::InvalidInput);
}

#[test]
fn error_messages() {
    assert_eq!(Error::UnexpectedEof.message(), "EOF");
    assert_eq!(Error::TruncatedTable.message(), "Truncated header table");
    assert_eq!(Error::UnknownFieldKind.message(), "Unknown field kind");
    assert_eq!(Error::BadMagic.message(), "Incorrect magic (not a 4bottle archive)");
    assert_eq!(Error::BadVersion { version: 255, flags: 0 }.message(), "Incompatible version: 255, 0");
    assert_eq!(Error::BadVersion { version: 0, flags: 17 }.message(), "Incompatible version: 0, 17");
    assert_eq!(Error::UnknownBottleType { code: 15 }.message(), "Unknown bottle type: 15");
    assert_eq!(Error::InvalidUtf8.kind(), ErrorKind::InvalidInput);
    assert_eq!(Error::NumberTooLong.kind(), ErrorKind::InvalidInput);
    assert_eq!(Error::LengthTooLarge.kind(), ErrorKind::InvalidInput);
    assert!(!Error::LengthTooLarge.message().is_empty());
    assert!(!Error::InvalidUtf8.message().is_empty());
    assert!(!Error::NumberTooLong.message().is_empty());
}

#[test]
fn read_empty_header() {
    let s = stream_of_hex("f09f8dbc0000a000");
    let (h, s2) = Header::decode(s).ok().unwrap();
    assert_eq!(h.to_debug_string(), "Header(Test, Table())");
    // nothing left:
    assert_eq!(s2.into_stream().collect().to_hex(), "");
}

#[test]
fn read_simple_header() {
    let s = stream_of_hex("f09f8dbc0000a003800196");
    let (h, s2) = Header::decode(s).ok().unwrap();
    assert_eq!(h.to_debug_string(), "Header(Test, Table(N0=150))");
    // nothing left:
    assert_eq!(s2.into_stream().collect().to_hex(), "");
}

#[test]
fn read_sequentially() {
    let s = stream_of_hex("f09f8dbc0000a003800196f09f8dbc0000a003800196");
    let (h, s2) = Header::decode(s).ok().unwrap();
    assert_eq!(h.to_debug_string(), "Header(Test, Table(N0=150))");
    let (h2, s3) = Header::decode(s2).ok().unwrap();
    assert_eq!(h2.to_debug_string(), "Header(Test, Table(N0=150))");
    // nothing left:
    assert_eq!(s3.into_stream().collect().to_hex(), "");
}

#[test]
fn header_with_truncated_table() {
    // the table is announced with three bytes and has two
    let r = Header::decode(stream_of_hex("f09f8dbc0000a0038001"));
    assert_eq!(r.err(), Some(Error::UnexpectedEof));
    // the table is there, and its one field is cut short
    let r = Header::decode(stream_of_hex("f09f8dbc0000a0028002"));
    assert_eq!(r.err(), Some(Error::TruncatedField));
    // the table is there, and ends inside the header of a field
    let r = Header::decode(stream_of_hex("f09f8dbc0000a00180"));
    assert_eq!(r.err(), Some(Error::TruncatedTable));
}

#[test]
fn header_encodes_in_three_buffers() {
    let mut t = Table::new();
    t.add_bool(1);
    let chunks = Header::new(BottleType::File, t).encode().collect();
    assert_eq!(chunks.len(), 3);
    assert_eq!(chunks[0].to_hex(), "f09f8dbc");
    assert_eq!(chunks[1].to_hex(), "00000002");
    assert_eq!(chunks[2].to_hex(), "c400");
}

#[test]
fn bottle_type_codes() {
    let all = [
        (BottleType::File, 0u8),
        (BottleType::Hashed, 1),
        (BottleType::Encrypted, 3),
        (BottleType::Compressed, 4),
        (BottleType::Test, 10),
        (BottleType::Test2, 11),
    ];
    for (bottle_type, code) in all {
        assert_eq!(bottle_type.code(), code);
        assert_eq!(decode_bottle_type(code), Ok(bottle_type));
    }
    for code in [2u8, 5, 6, 7, 8, 9, 12, 13, 14, 15, 16, 255] {
        assert_eq!(decode_bottle_type(code), Err(Error::UnknownBottleType { code }));
    }
    assert_eq!(BottleType::Compressed.name(), "Compressed");
}

#[test]
fn check_magic_reads_type_and_length() {
    let preamble = bytes::Bytes::from("f09f8dbc00004fff".from_hex());
    assert_eq!(check_magic(preamble), Ok((BottleType::Compressed, 4095)));
    let preamble = bytes::Bytes::from("f09f8dbc00001100".from_hex());
    assert_eq!(check_magic(preamble), Ok((BottleType::Hashed, 256)));
    let preamble = bytes::Bytes::from("f19f8dbc00001100".from_hex());
    assert_eq!(check_magic(preamble), Err(Error::BadMagic));
}

#[test]
fn header_round_trip_with_a_large_table() {
    let mut t = Table::new();
    for _ in 0..3 {
        t.add_string(2, std::iter::repeat('y').take(1023).collect());
    }
    t.add_string(2, std::iter::repeat('z').take(1018).collect());
    assert_eq!(t.encode().len(), 4095);
    let expected = t.to_debug_string();
    let encoded = Header::new(BottleType::Encrypted, t).encode();
    let (h, rest) = Header::decode(lib4bottle::stream_toolkit::readable_byte_stream::ReadableByteStream::new(encoded)).ok().unwrap();
    assert_eq!(h.bottle_type, BottleType::Encrypted);
    assert_eq!(h.table.to_debug_string(), expected);
    assert_eq!(rest.into_stream().collect().to_hex(), "");
}
