use fulmen::net::framing::{
    compressed_frame_body, raw_packet_from_inflated, read_packet, threshold_from_packet,
    write_frame_body, write_packet, RawPacket,
};
use fulmen::net::Error;
use fulmen::protocol::login::SetCompression;
use fulmen::protocol::status::PingRequest;

fn hex(s: &str) -> Vec<u8> {
    (0..s.len())
        .step_by(2)
        .map(|i| u8::from_str_radix(&s[i..i + 2], 16).unwrap())
        .collect()
}

#[test]
fn uncompressed_roundtrip() {
    let p = RawPacket::new(0x2c, vec![1, 2, 3]);
    let mut out = Vec::new();
    write_packet(&mut out, &p, None).unwrap();
    assert_eq!(out, [0x04, 0x2c, 1, 2, 3]);
    assert_eq!(read_packet(&mut &out[..], false).unwrap(), p);
}

#[test]
fn small_packet_with_compression_enabled_has_zero_data_length() {
    let p = RawPacket::new(0x2c, vec![1, 2, 3]);
    let mut out = Vec::new();
    write_packet(&mut out, &p, Some(256)).unwrap();
    assert_eq!(out, [0x05, 0x00, 0x2c, 1, 2, 3]);
    assert_eq!(read_packet(&mut &out[..], true).unwrap(), p);
}

#[test]
fn large_packet_is_compressed_and_roundtrips() {
    let p = RawPacket::new(0x2c, vec![b'a'; 300]);
    let mut out = Vec::new();
    write_packet(&mut out, &p, Some(256)).unwrap();
    assert!(
        out.len() < 60,
        "expected a small compressed frame, got {}",
        out.len()
    );
    assert_eq!(read_packet(&mut &out[..], true).unwrap(), p);
}

/// Frame produced independently with Python's zlib: id 0x2c followed by 300 x 'a'.
#[test]
fn decodes_frame_compressed_by_another_implementation() {
    let frame = hex("0fad02789cd3491c054403000c7471d9");
    let p = read_packet(&mut &frame[..], true).unwrap();
    assert_eq!(p, RawPacket::new(0x2c, vec![b'a'; 300]));
}

#[test]
fn wrong_data_length_is_rejected() {
    // Announces 10 bytes, but the zlib stream holds 301.
    let mut frame = hex("0fad02789cd3491c054403000c7471d9");
    frame[1] = 0x0a; // data length varint (first byte of the second field)
    frame.remove(2); // shorten the varint from two bytes to one
    frame[0] -= 1;
    assert!(matches!(
        read_packet(&mut &frame[..], true),
        Err(Error::BadCompression)
    ));
}

#[test]
fn negative_set_compression_disables_compression() {
    assert_eq!(threshold_from_packet(-1), None);
    assert_eq!(threshold_from_packet(0), Some(0));
    assert_eq!(threshold_from_packet(256), Some(256));
}

#[test]
fn threshold_is_inclusive() {
    // Payload of 4 bytes (id + 3) with threshold 4 is compressed.
    let p = RawPacket::new(0x2c, vec![1, 2, 3]);
    let mut out = Vec::new();
    write_packet(&mut out, &p, Some(4)).unwrap();
    assert_eq!(out[1], 4);
    assert_eq!(read_packet(&mut &out[..], true).unwrap(), p);
}

#[test]
fn bad_compressed_frames_are_rejected() {
    // Negative data length.
    let frame = [0x05u8, 0xff, 0xff, 0xff, 0xff, 0x0f];
    assert!(matches!(read_packet(&mut &frame[..], true), Err(Error::BadCompression)));
    // Not a zlib stream.
    let frame = [0x04u8, 0x03, 0x01, 0x02, 0x03];
    assert!(matches!(read_packet(&mut &frame[..], true), Err(Error::BadCompression)));
    // Announced length above the limit.
    let frame = [0x04u8, 0x80, 0x80, 0x80, 0x20];
    assert!(matches!(read_packet(&mut &frame[..], true), Err(Error::BadCompression)));
}

#[test]
fn truncated_frame_is_protocol_error() {
    let frame = [0x05u8, 0x2c];
    assert!(matches!(
        read_packet(&mut &frame[..], false),
        Err(Error::Protocol(fulmen::protocol::Error::Io(_)))
    ));
}

#[test]
fn raw_packet_of_and_decode() {
    let raw = RawPacket::of(&PingRequest { payload: 5 }).unwrap();
    assert_eq!(raw.id, 0x01);
    assert_eq!(raw.body, [0, 0, 0, 0, 0, 0, 0, 5]);
    assert_eq!(raw.decode::<PingRequest>().unwrap(), PingRequest { payload: 5 });
    assert!(matches!(
        raw.decode::<SetCompression>(),
        Err(Error::Protocol(fulmen::protocol::Error::UnexpectedPacketId { expected: 3, got: 1 }))
    ));
    let mut long = raw.clone();
    long.body.push(0);
    assert!(matches!(
        long.decode::<PingRequest>(),
        Err(Error::Protocol(fulmen::protocol::Error::TrailingBytes(1)))
    ));
}

#[test]
fn two_packets_in_a_row() {
    let a = RawPacket::new(1, vec![9]);
    let b = RawPacket::new(2, vec![0; 500]);
    let mut out = Vec::new();
    write_packet(&mut out, &a, Some(64)).unwrap();
    write_packet(&mut out, &b, Some(64)).unwrap();
    let mut r = &out[..];
    assert_eq!(read_packet(&mut r, true).unwrap(), a);
    assert_eq!(read_packet(&mut r, true).unwrap(), b);
    assert!(r.is_empty());
}

#[test]
fn frame_parts() {
    assert_eq!(compressed_frame_body(300, &[1, 2]), [0xac, 0x02, 1, 2]);
    let mut out = vec![7u8];
    write_frame_body(&mut out, &[1, 2, 3]).unwrap();
    assert_eq!(out, [7, 3, 1, 2, 3]);
    let big = vec![0u8; 2_097_152];
    let mut out = Vec::new();
    assert!(matches!(
        write_frame_body(&mut out, &big),
        Err(Error::Protocol(fulmen::protocol::Error::FrameTooLarge { len: 2_097_152, max: 2_097_151 }))
    ));
    assert!(out.is_empty());
}

#[test]
fn inflated_payload_checks() {
    assert_eq!(
        raw_packet_from_inflated(3, Some(vec![0x2c, 1, 2])).unwrap(),
        RawPacket::new(0x2c, vec![1, 2])
    );
    assert!(matches!(raw_packet_from_inflated(3, None), Err(Error::BadCompression)));
    assert!(matches!(
        raw_packet_from_inflated(4, Some(vec![0x2c, 1, 2])),
        Err(Error::BadCompression)
    ));
}
