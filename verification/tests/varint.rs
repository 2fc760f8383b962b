use fulmen::protocol::varint::{
    read_varint, read_varlong, varint_len, write_varint, write_varlong,
};
use fulmen::protocol::Error;

const INT_CASES: &[(i32, &[u8])] = &[
    (0, &[0x00]),
    (1, &[0x01]),
    (127, &[0x7f]),
    (128, &[0x80, 0x01]),
    (255, &[0xff, 0x01]),
    (25565, &[0xdd, 0xc7, 0x01]),
    (2_097_151, &[0xff, 0xff, 0x7f]),
    (i32::MAX, &[0xff, 0xff, 0xff, 0xff, 0x07]),
    (-1, &[0xff, 0xff, 0xff, 0xff, 0x0f]),
    (i32::MIN, &[0x80, 0x80, 0x80, 0x80, 0x08]),
];

#[test]
fn varint_known_values() {
    for &(value, bytes) in INT_CASES {
        let mut out = Vec::new();
        write_varint(&mut out, value).unwrap();
        assert_eq!(out, bytes, "encode {value}");
        assert_eq!(varint_len(value), bytes.len(), "len {value}");
        assert_eq!(
            read_varint(&mut &bytes[..]).unwrap(),
            value,
            "decode {value}"
        );
    }
}

#[test]
fn varlong_known_values() {
    let cases: &[(i64, &[u8])] = &[
        (0, &[0x00]),
        (2_147_483_647, &[0xff, 0xff, 0xff, 0xff, 0x07]),
        (
            i64::MAX,
            &[0xff, 0xff, 0xff, 0xff, 0xff, 0xff, 0xff, 0xff, 0x7f],
        ),
        (
            -1,
            &[0xff, 0xff, 0xff, 0xff, 0xff, 0xff, 0xff, 0xff, 0xff, 0x01],
        ),
        (
            i64::MIN,
            &[0x80, 0x80, 0x80, 0x80, 0x80, 0x80, 0x80, 0x80, 0x80, 0x01],
        ),
    ];
    for &(value, bytes) in cases {
        let mut out = Vec::new();
        write_varlong(&mut out, value).unwrap();
        assert_eq!(out, bytes, "encode {value}");
        assert_eq!(
            read_varlong(&mut &bytes[..]).unwrap(),
            value,
            "decode {value}"
        );
    }
}

#[test]
fn varint_roundtrip_many() {
    for value in (i32::MIN..=i32::MAX)
        .step_by(65_537)
        .chain([0, 1, -1, i32::MAX, i32::MIN])
    {
        let mut out = Vec::new();
        write_varint(&mut out, value).unwrap();
        assert_eq!(read_varint(&mut &out[..]).unwrap(), value);
    }
}

#[test]
fn varint_too_long_is_rejected() {
    let bytes = [0x80u8; 6];
    assert!(matches!(
        read_varint(&mut &bytes[..]),
        Err(Error::VarIntTooLong)
    ));
}

#[test]
fn varint_truncated_is_io_error() {
    let bytes = [0x80u8];
    assert!(matches!(read_varint(&mut &bytes[..]), Err(Error::Io(_))));
}

#[test]
fn read_varint_advances_past_the_value_only() {
    let bytes = [0xdd, 0xc7, 0x01, 0x2a, 0x07];
    let mut r = &bytes[..];
    assert_eq!(read_varint(&mut r).unwrap(), 25565);
    assert_eq!(r, &[0x2a, 0x07]);
    assert_eq!(read_varint(&mut r).unwrap(), 42);
    assert_eq!(read_varint(&mut r).unwrap(), 7);
    assert!(r.is_empty());
}

#[test]
fn failed_read_consumes_what_it_read() {
    // The input ends inside the VarInt: all of it is read.
    let bytes = [0x80u8, 0x80];
    let mut r = &bytes[..];
    assert!(matches!(read_varint(&mut r), Err(Error::Io(_))));
    assert!(r.is_empty());
    // Too long: five bytes are read before the error shows.
    let bytes = [0x80u8; 6];
    let mut r = &bytes[..];
    assert!(matches!(read_varint(&mut r), Err(Error::VarIntTooLong)));
    assert_eq!(r.len(), 1);
    // A VarLong reads ten.
    let bytes = [0x80u8; 12];
    let mut r = &bytes[..];
    assert!(matches!(read_varlong(&mut r), Err(Error::VarIntTooLong)));
    assert_eq!(r.len(), 2);
}

#[test]
fn fifth_varint_byte_keeps_only_the_low_bits() {
    // The high bits of the fifth byte fall outside 32 bits and are dropped.
    let bytes = [0xff, 0xff, 0xff, 0xff, 0x7f];
    assert_eq!(read_varint(&mut &bytes[..]).unwrap(), -1);
}

#[test]
fn varlong_too_long_is_rejected() {
    let bytes = [0x80u8; 11];
    assert!(matches!(
        read_varlong(&mut &bytes[..]),
        Err(Error::VarIntTooLong)
    ));
}

#[test]
fn varint_len_matches_the_written_bytes() {
    for value in [0, 127, 128, 16_383, 16_384, 2_097_151, 2_097_152, 268_435_455, 268_435_456, -1] {
        let mut out = Vec::new();
        write_varint(&mut out, value).unwrap();
        assert_eq!(varint_len(value), out.len());
        assert!(out.len() <= 5);
    }
}

#[test]
fn writers_append_to_what_is_there() {
    let mut out = vec![9u8];
    write_varint(&mut out, 300).unwrap();
    assert_eq!(out, [9, 0xac, 0x02]);
}
