use crust::server::nbt::{read_java_utf, read_networking_nbt, write_java_utf, write_networking_nbt, NbtCounter, NbtType, NetworkNbt};
use crust::util::{ByteReader, IoError};

fn roundtrip(tag: NbtType, version: i32) -> NbtType {
    let mut out = Vec::new();
    write_networking_nbt(&mut out, version, &NetworkNbt::Unnamed(Some(tag))).unwrap();
    let mut r = ByteReader::new(&out);
    match read_networking_nbt(&mut r, version).unwrap() {
        NetworkNbt::Unnamed(Some(t)) => {
            assert_eq!(r.remaining(), 0);
            t
        },
        _ => panic!("expected an unnamed tag"),
    }
}

#[test]
fn tags_read_back() {
    let tag = NbtType::CompoundTag(vec![
        ("a".to_string(), NbtType::IntTag(-7)),
        ("b".to_string(), NbtType::ListTag(8, vec![NbtType::StringTag("x".into()), NbtType::StringTag("yz".into())])),
        ("c".to_string(), NbtType::LongArrayTag(vec![1, -2])),
        ("d".to_string(), NbtType::DoubleTag(1.25f64.to_bits())),
    ]);
    match roundtrip(tag, 767) {
        NbtType::CompoundTag(entries) => {
            assert_eq!(entries.len(), 4);
            assert!(matches!(entries[0], (ref k, NbtType::IntTag(-7)) if k == "a"));
            assert!(matches!(&entries[2].1, NbtType::LongArrayTag(v) if v == &vec![1, -2]));
            assert!(matches!(entries[3].1, NbtType::DoubleTag(b) if f64::from_bits(b) == 1.25));
        },
        _ => panic!("expected a compound"),
    }
}

#[test]
fn compound_keeps_last_of_a_name() {
    let bytes = [10u8, 1, 0, 1, b'k', 5, 1, 0, 1, b'k', 6, 0];
    let mut r = ByteReader::new(&bytes);
    match read_networking_nbt(&mut r, 767).unwrap() {
        NetworkNbt::Unnamed(Some(NbtType::CompoundTag(e))) => {
            assert_eq!(e.len(), 1);
            assert!(matches!(e[0].1, NbtType::ByteTag(6)));
        },
        _ => panic!("expected a compound"),
    }
}

#[test]
fn empty_and_truncated() {
    let mut r = ByteReader::new(&[0u8]);
    assert!(matches!(read_networking_nbt(&mut r, 767).unwrap(), NetworkNbt::Unnamed(None)));
    let mut r = ByteReader::new(&[3u8, 0, 0]);
    assert!(matches!(read_networking_nbt(&mut r, 767), Err(IoError::UnexpectedEof)));
    let mut r = ByteReader::new(&[13u8]);
    assert!(matches!(read_networking_nbt(&mut r, 767), Err(IoError::InvalidData)));
}

#[test]
fn java_utf() {
    let mut out = Vec::new();
    write_java_utf(&mut out, "a\u{0}é").unwrap();
    assert_eq!(out, vec![0, 5, b'a', 0xC0, 0x80, 0xC3, 0xA9]);
    let mut r = ByteReader::new(&out);
    assert_eq!(read_java_utf(&mut r).unwrap(), "a\u{0}é");
}

#[test]
fn counter_limits_depth() {
    let mut c = NbtCounter::unlimited();
    assert!(c.push().is_ok());
    assert!(c.pop().is_ok());
    assert!(c.account_bytes(100).is_ok());
}

#[test]
fn depth_is_counted_even_when_refused() {
    let mut c = NbtCounter::unlimited();
    for _ in 0..512 {
        assert!(c.push().is_ok());
    }
    assert_eq!(c.push(), Err(IoError::InvalidData));
    for _ in 0..513 {
        assert!(c.pop().is_ok());
    }
    assert_eq!(c.pop(), Err(IoError::InvalidData));
}

#[test]
fn texts_with_nul_and_astral_characters_read_back() {
    let text = "nul\u{0}, emoji \u{1F600} and \u{10401}";
    let tag = NbtType::CompoundTag(vec![(text.to_string(), NbtType::StringTag(text.to_string()))]);
    match roundtrip(tag, 767) {
        NbtType::CompoundTag(entries) => {
            assert_eq!(entries.len(), 1);
            assert_eq!(entries[0].0, text);
            assert!(matches!(&entries[0].1, NbtType::StringTag(s) if s == text));
        },
        _ => panic!("expected a compound"),
    }
    let mut out = Vec::new();
    write_java_utf(&mut out, "\u{1F600}").unwrap();
    assert_eq!(out, vec![0, 6, 0xED, 0xA0, 0xBD, 0xED, 0xB8, 0x80]);
    let mut r = ByteReader::new(&out);
    assert_eq!(read_java_utf(&mut r).unwrap(), "\u{1F600}");
}
