use lib4bottle::bottle_header::Header;
use lib4bottle::error::Error;
use lib4bottle::stream_toolkit::hex::{FromHex, ToHex};

#[test]
fn test_bottle_header_pack() {
    let mut m = Header::new();
    m.add_bool(1);
    assert_eq!(m.to_debug_string(), "Header(B1)");
    assert_eq!(m.encode().to_hex(), "c400");
    m.add_number(10, 1000);
    assert_eq!(m.to_debug_string(), "Header(B1, N10=1000)");
    assert_eq!(m.encode().to_hex(), "c400a802e803");
    m.add_string(3, String::from("iron"));
    assert_eq!(m.to_debug_string(), "Header(B1, N10=1000, S3=\"iron\")");
    assert_eq!(m.encode().to_hex(), "c400a802e8030c0469726f6e");
}

#[test]
fn test_bottle_header_unpack() {
    assert_eq!(Header::decode("c400".from_hex().as_ref()).unwrap().to_debug_string(), "Header(B1)");
    assert_eq!(
        Header::decode("c400a802e803".from_hex().as_ref()).unwrap().to_debug_string(),
        "Header(B1, N10=1000)"
    );
}

#[test]
fn bottle_header_unpack_truncated() {
    assert_eq!(Header::decode("c4".from_hex().as_ref()).err(), Some(Error::TruncatedTable));
    assert_eq!(Header::decode("c401".from_hex().as_ref()).err(), Some(Error::TruncatedField));
    assert_eq!(Header::decode("c403ffff".from_hex().as_ref()).err(), Some(Error::TruncatedField));
}

#[test]
fn bottle_header_write_appends() {
    let mut m = Header::new();
    m.add_bool(2);
    let mut writer: Vec<u8> = vec![1, 2];
    m.write(&mut writer);
    assert_eq!(writer.to_hex(), "0102c800");
}
