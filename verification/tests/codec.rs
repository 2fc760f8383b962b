use fulmen::protocol::codec::{
    read_bool, read_i64, read_string, read_u16, read_u8, read_uuid, utf16_len_of_utf8,
    write_bool, write_i64, write_string, write_u16, write_u8, write_uuid,
};
use fulmen::protocol::varint::write_varint;
use fulmen::protocol::Error;

#[test]
fn string_roundtrip() {
    let mut out = Vec::new();
    write_string(&mut out, "localhost", 255).unwrap();
    assert_eq!(out[0], 9);
    assert_eq!(read_string(&mut &out[..], 255).unwrap(), "localhost");
}

#[test]
fn string_unicode_roundtrip() {
    let s = "blöcke ⚡ 🧱";
    let mut out = Vec::new();
    write_string(&mut out, s, 64).unwrap();
    assert_eq!(read_string(&mut &out[..], 64).unwrap(), s);
}

#[test]
fn string_too_long_is_rejected() {
    let mut out = Vec::new();
    assert!(write_string(&mut out, "abcd", 3).is_err());
    // Declared length larger than max_chars * 3.
    let mut data = Vec::new();
    write_varint(&mut data, 10).unwrap();
    data.extend_from_slice(&[b'a'; 10]);
    assert!(matches!(
        read_string(&mut &data[..], 3),
        Err(Error::StringTooLong { .. })
    ));
}

#[test]
fn string_invalid_utf8_is_rejected() {
    let data = [2u8, 0xff, 0xfe];
    assert!(matches!(
        read_string(&mut &data[..], 16),
        Err(Error::InvalidUtf8)
    ));
}

#[test]
fn numbers_are_big_endian() {
    let mut out = Vec::new();
    write_u16(&mut out, 25565).unwrap();
    assert_eq!(out, [0x63, 0xdd]);
    let mut out = Vec::new();
    write_i64(&mut out, 0x0102_0304_0506_0708).unwrap();
    assert_eq!(out, [1, 2, 3, 4, 5, 6, 7, 8]);
    assert_eq!(read_i64(&mut &out[..]).unwrap(), 0x0102_0304_0506_0708);
}

#[test]
fn too_long_string_writes_nothing() {
    let mut out = vec![1u8];
    assert!(matches!(
        write_string(&mut out, "abcd", 3),
        Err(Error::StringTooLong { len: 4, max: 3 })
    ));
    assert_eq!(out, [1]);
}

#[test]
fn string_limit_counts_utf16_units() {
    // One character outside the Basic Multilingual Plane is two UTF-16 code units.
    let mut out = Vec::new();
    assert!(matches!(
        write_string(&mut out, "🧱", 1),
        Err(Error::StringTooLong { len: 2, max: 1 })
    ));
    write_string(&mut out, "🧱", 2).unwrap();
    assert_eq!(out, [4, 0xf0, 0x9f, 0xa7, 0xb1]);
    assert!(matches!(
        read_string(&mut &out[..], 1),
        Err(Error::StringTooLong { len: 4, max: 3 })
    ));
    let mut data = vec![3u8];
    data.extend_from_slice("äb".as_bytes());
    assert!(matches!(
        read_string(&mut &data[..], 1),
        Err(Error::StringTooLong { len: 2, max: 1 })
    ));
}

#[test]
fn negative_string_length_is_rejected() {
    let mut data = Vec::new();
    write_varint(&mut data, -2).unwrap();
    assert!(matches!(
        read_string(&mut &data[..], 16),
        Err(Error::NegativeLength(-2))
    ));
}

#[test]
fn truncated_string_is_io_error() {
    let data = [5u8, b'a', b'b'];
    let mut r = &data[..];
    assert!(matches!(read_string(&mut r, 16), Err(Error::Io(_))));
    assert!(r.is_empty());
}

#[test]
fn read_string_leaves_what_follows() {
    let mut out = Vec::new();
    write_string(&mut out, "ab", 16).unwrap();
    out.push(0x42);
    let mut r = &out[..];
    assert_eq!(read_string(&mut r, 16).unwrap(), "ab");
    assert_eq!(r, &[0x42]);
}

#[test]
fn utf16_units_are_counted() {
    assert_eq!(utf16_len_of_utf8("abc".as_bytes()), 3);
    assert_eq!(utf16_len_of_utf8("blöcke ⚡ 🧱".as_bytes()), 11);
    assert_eq!(utf16_len_of_utf8("".as_bytes()), 0);
}

#[test]
fn small_integers_and_uuids() {
    let mut out = Vec::new();
    write_u8(&mut out, 0x7f).unwrap();
    write_bool(&mut out, true).unwrap();
    write_bool(&mut out, false).unwrap();
    write_uuid(&mut out, 0x0102_0304_0506_0708_090a_0b0c_0d0e_0f10).unwrap();
    assert_eq!(
        out,
        [0x7f, 1, 0, 1, 2, 3, 4, 5, 6, 7, 8, 9, 10, 11, 12, 13, 14, 15, 16]
    );
    let mut r = &out[..];
    assert_eq!(read_u8(&mut r).unwrap(), 0x7f);
    assert!(read_bool(&mut r).unwrap());
    assert!(!read_bool(&mut r).unwrap());
    assert_eq!(read_uuid(&mut r).unwrap(), 0x0102_0304_0506_0708_090a_0b0c_0d0e_0f10);
    assert!(r.is_empty());
    assert!(matches!(read_u8(&mut r), Err(Error::Io(_))));
}

#[test]
fn short_numbers_are_io_errors() {
    assert!(matches!(read_u16(&mut &[1u8][..]), Err(Error::Io(_))));
    assert!(matches!(read_i64(&mut &[1u8; 7][..]), Err(Error::Io(_))));
    assert!(matches!(read_uuid(&mut &[1u8; 15][..]), Err(Error::Io(_))));
    assert_eq!(read_u16(&mut &[0x63u8, 0xdd][..]).unwrap(), 25565);
    assert_eq!(read_i64(&mut &[0xffu8; 8][..]).unwrap(), -1);
}

#[test]
fn refused_string_length_consumes_the_prefix() {
    let mut data = vec![0x0au8];
    data.extend_from_slice(&[b'a'; 10]);
    let mut r = &data[..];
    assert!(matches!(
        read_string(&mut r, 3),
        Err(Error::StringTooLong { len: 10, max: 9 })
    ));
    assert_eq!(r.len(), 10);
    // Invalid UTF-8 is only found once the string bytes were read.
    let data = [2u8, 0xff, 0xfe, 0x42];
    let mut r = &data[..];
    assert!(matches!(read_string(&mut r, 16), Err(Error::InvalidUtf8)));
    assert_eq!(r, &[0x42]);
    // A short number consumes what is left.
    let data = [1u8, 2, 3];
    let mut r = &data[..];
    assert!(matches!(read_i64(&mut r), Err(Error::Io(_))));
    assert!(r.is_empty());
}
