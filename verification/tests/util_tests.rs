use crust::util::{generate_uuid, is_username_valid, ByteReader, EncodingHelper, IoError, Uuid, VarInt};

fn varint_bytes(v: i32) -> Vec<u8> {
    let mut out = Vec::new();
    VarInt(v).encode_simple(&mut out).unwrap();
    out
}

#[test]
fn varint_known_encodings() {
    assert_eq!(varint_bytes(0), vec![0x00]);
    assert_eq!(varint_bytes(1), vec![0x01]);
    assert_eq!(varint_bytes(127), vec![0x7f]);
    assert_eq!(varint_bytes(128), vec![0x80, 0x01]);
    assert_eq!(varint_bytes(255), vec![0xff, 0x01]);
    assert_eq!(varint_bytes(25565), vec![0xdd, 0xc7, 0x01]);
    assert_eq!(varint_bytes(2097151), vec![0xff, 0xff, 0x7f]);
    assert_eq!(varint_bytes(i32::MAX), vec![0xff, 0xff, 0xff, 0xff, 0x07]);
    assert_eq!(varint_bytes(-1), vec![0xff, 0xff, 0xff, 0xff, 0x0f]);
    assert_eq!(varint_bytes(i32::MIN), vec![0x80, 0x80, 0x80, 0x80, 0x08]);
}

#[test]
fn varint_roundtrip_and_size() {
    for v in [0, 1, 2, 127, 128, 300, 25565, 2097151, 2097152, i32::MAX, -1, -300, i32::MIN] {
        let bytes = varint_bytes(v);
        assert_eq!(VarInt::get_size(v), bytes.len());
        let mut data = bytes.clone();
        data.push(0xAB);
        let mut r = ByteReader::new(&data);
        assert_eq!(VarInt::decode_simple(&mut r).unwrap().get(), v);
        assert_eq!(r.remaining(), 1);
    }
}

#[test]
fn varint_limits() {
    let mut r = ByteReader::new(&[0x80, 0x80, 0x80, 0x01]);
    assert_eq!(VarInt::decode(&mut r, 3), Err(IoError::VarIntTooBig));
    let mut r = ByteReader::new(&[0x80, 0x80]);
    assert_eq!(VarInt::decode(&mut r, 5), Err(IoError::UnexpectedEof));
    let mut out = Vec::new();
    assert_eq!(VarInt(300).encode(&mut out, 1), Err(IoError::VarIntTooBig));
    assert_eq!(out, vec![0xac, 0x02]);
    let mut out = Vec::new();
    assert_eq!(VarInt(300).encode(&mut out, 2), Ok(2));
}

#[test]
fn strings_roundtrip() {
    let mut out = Vec::new();
    EncodingHelper::write_string(&mut out, "héllo").unwrap();
    assert_eq!(out[0], 6);
    let mut r = ByteReader::new(&out);
    assert_eq!(EncodingHelper::read_string(&mut r, 16).unwrap(), "héllo");
    let mut r = ByteReader::new(&out);
    assert_eq!(EncodingHelper::read_string(&mut r, 1), Err(IoError::StringTooBig));
    let bad = [2u8, 0xff, 0xfe];
    let mut r = ByteReader::new(&bad);
    assert_eq!(EncodingHelper::read_string(&mut r, 16), Err(IoError::InvalidUtf8));
    let short = [5u8, b'a'];
    let mut r = ByteReader::new(&short);
    assert_eq!(EncodingHelper::read_string(&mut r, 16), Err(IoError::UnexpectedEof));
}

#[test]
fn byte_arrays_roundtrip() {
    let mut out = Vec::new();
    EncodingHelper::write_byte_array(&mut out, &[1, 2, 3]).unwrap();
    assert_eq!(out, vec![3, 1, 2, 3]);
    let mut r = ByteReader::new(&out);
    assert_eq!(EncodingHelper::read_byte_array(&mut r, 3).unwrap(), vec![1, 2, 3]);
    let mut r = ByteReader::new(&out);
    assert_eq!(EncodingHelper::read_byte_array(&mut r, 2), Err(IoError::ByteArrayTooBig));
}

#[test]
fn offline_uuid_of_notch() {
    let u = generate_uuid("Notch");
    assert_eq!(u.to_hyphenated_string(), "b50ad385-829d-3141-a216-7e7d7539ba7f");
}

#[test]
fn uuid_text_roundtrip() {
    let u = Uuid::parse_str("b50ad385-829d-3141-a216-7e7d7539ba7f").unwrap();
    assert_eq!(u.bytes[0], 0xb5);
    assert_eq!(u.to_hyphenated_string(), "b50ad385-829d-3141-a216-7e7d7539ba7f");
    assert!(Uuid::parse_str("not a uuid").is_none());
    let mut out = Vec::new();
    EncodingHelper::write_uuid(&mut out, &u).unwrap();
    let mut r = ByteReader::new(&out);
    assert_eq!(EncodingHelper::read_uuid(&mut r).unwrap(), u);
}

#[test]
fn usernames() {
    assert!(is_username_valid("Notch"));
    assert!(is_username_valid("a_b_C_1234567890"));
    assert!(!is_username_valid(""));
    assert!(!is_username_valid("abcdefghijklmnopq"));
    assert!(!is_username_valid("bad name"));
    assert!(!is_username_valid("héllo"));
}

#[test]
fn reader_reads_exactly() {
    let data = [1u8, 2, 3, 4, 5, 6, 7, 8, 9];
    let mut r = ByteReader::new(&data);
    assert_eq!(r.read_u8(), Ok(1));
    assert_eq!(r.read_u16_be(), Ok(0x0203));
    assert_eq!(r.read_exact(2).unwrap(), vec![4, 5]);
    assert_eq!(r.read_exact(5), Err(IoError::UnexpectedEof));
    assert_eq!(r.read_to_end(), vec![6, 7, 8, 9]);
    assert_eq!(r.read_u8(), Err(IoError::UnexpectedEof));
}

#[test]
fn varint_limit_above_five_bytes() {
    let bytes = [0x80u8, 0x01, 0x99];
    let mut r = ByteReader::new(&bytes);
    assert_eq!(VarInt::decode(&mut r, 10).unwrap().get(), 128);
    assert_eq!(r.remaining(), 1);
    let long = [0xffu8, 0xff, 0xff, 0xff, 0xff, 0x01];
    let mut r = ByteReader::new(&long);
    assert_eq!(VarInt::decode(&mut r, 10), Err(IoError::VarIntTooBig));
}

#[test]
fn string_over_limit_reads_only_its_length() {
    let mut out = Vec::new();
    EncodingHelper::write_string(&mut out, "abcdefghij").unwrap();
    let mut r = ByteReader::new(&out);
    assert_eq!(EncodingHelper::read_string(&mut r, 3), Err(IoError::StringTooBig));
    assert_eq!(r.remaining(), 10);
}
