use fulmen::protocol::handshake::{Handshake, NextState};
use fulmen::protocol::login::{
    LoginAcknowledged, LoginDisconnect, LoginStart, LoginSuccess, Property, SetCompression,
};
use fulmen::protocol::packet::{decode, encode, read_frame, Packet, MAX_FRAME_LEN};
use fulmen::protocol::status::{PingRequest, PongResponse, StatusRequest, StatusResponse};
use fulmen::protocol::varint::write_varint;
use fulmen::protocol::Error;

fn sample() -> Handshake {
    Handshake {
        protocol_version: 765,
        server_address: "localhost".into(),
        server_port: 25565,
        next_state: NextState::Status,
    }
}

#[test]
fn handshake_wire_format() {
    let frame = encode(&sample()).unwrap();
    let mut expected = vec![
        0x10, // length: 16
        0x00, // packet id
        0xfd, 0x05, // protocol version 765
        0x09, // address length
    ];
    expected.extend_from_slice(b"localhost");
    expected.extend_from_slice(&[0x63, 0xdd, 0x01]); // port 25565, next state 1
    assert_eq!(frame, expected);
}

#[test]
fn handshake_roundtrip() {
    let frame = encode(&sample()).unwrap();
    // Strip the length prefix (single byte here).
    let decoded: Handshake = decode(&frame[1..]).unwrap();
    assert_eq!(decoded, sample());
}

#[test]
fn invalid_next_state_is_rejected() {
    let mut bad = sample();
    bad.next_state = NextState::Login;
    let mut frame = encode(&bad).unwrap();
    let last = frame.len() - 1;
    frame[last] = 9;
    assert!(matches!(
        decode::<Handshake>(&frame[1..]),
        Err(Error::InvalidNextState(9))
    ));
}

#[test]
fn trailing_bytes_are_rejected() {
    let mut frame = encode(&sample()).unwrap();
    frame.push(0);
    assert!(matches!(
        decode::<Handshake>(&frame[1..]),
        Err(Error::TrailingBytes(1))
    ));
}

#[test]
fn wrong_packet_id_is_rejected() {
    let mut frame = encode(&sample()).unwrap();
    frame[1] = 0x05;
    assert!(matches!(
        decode::<Handshake>(&frame[1..]),
        Err(Error::UnexpectedPacketId {
            expected: 0,
            got: 5
        })
    ));
}

#[test]
fn next_state_wire_values() {
    assert_eq!(NextState::Status.as_i32(), 1);
    assert_eq!(NextState::Login.as_i32(), 2);
    assert_eq!(NextState::Transfer.as_i32(), 3);
    assert_eq!(NextState::from_i32(3).unwrap(), NextState::Transfer);
    assert!(matches!(NextState::from_i32(0), Err(Error::InvalidNextState(0))));
}

#[test]
fn handshake_address_too_long_is_rejected() {
    let mut hs = sample();
    hs.server_address = "a".repeat(256);
    assert!(matches!(
        encode(&hs),
        Err(Error::StringTooLong { len: 256, max: 255 })
    ));
}

#[test]
fn login_start_wire_format() {
    let p = LoginStart {
        name: "Notch".into(),
        uuid: 0x0102_0304_0506_0708_090a_0b0c_0d0e_0f10,
    };
    let frame = encode(&p).unwrap();
    let mut expected = vec![0x17, 0x00, 0x05];
    expected.extend_from_slice(b"Notch");
    expected.extend_from_slice(&[1, 2, 3, 4, 5, 6, 7, 8, 9, 10, 11, 12, 13, 14, 15, 16]);
    assert_eq!(frame, expected);
    assert_eq!(decode::<LoginStart>(&frame[1..]).unwrap(), p);
}

#[test]
fn login_success_roundtrip_with_properties() {
    let p = LoginSuccess {
        uuid: 42,
        username: "Fulmen".into(),
        properties: vec![
            Property {
                name: "textures".into(),
                value: "abc".into(),
                signature: Some("sig".into()),
            },
            Property {
                name: "x".into(),
                value: "y".into(),
                signature: None,
            },
        ],
        session_id: 99,
    };
    let frame = encode(&p).unwrap();
    assert_eq!(decode::<LoginSuccess>(&frame[1..]).unwrap(), p);
}

#[test]
fn set_compression_negative_roundtrip() {
    let p = SetCompression { threshold: -1 };
    let frame = encode(&p).unwrap();
    assert_eq!(decode::<SetCompression>(&frame[1..]).unwrap(), p);
}

#[test]
fn login_acknowledged_is_two_bytes() {
    assert_eq!(encode(&LoginAcknowledged).unwrap(), [0x01, 0x03]);
}

/// Body of a Login Success as sent by Pumpkin (protocol 777) for the player "Fulmen".
#[test]
fn decodes_login_success_captured_from_pumpkin() {
    let body: [u8; 40] = [
        0x0a, 0x07, 0x2f, 0x01, 0x6b, 0xdf, 0x48, 0x7c, 0x43, 0x82, 0xf9, 0xf4, 0x0a, 0xe4,
        0x01, 0x3a, 0x06, 0x46, 0x75, 0x6c, 0x6d, 0x65, 0x6e, 0x00, 0x87, 0xc6, 0x1a, 0x85,
        0xa7, 0xc6, 0x4e, 0xad, 0xb5, 0xf3, 0x3d, 0xfb, 0x49, 0xae, 0xca, 0x91,
    ];
    let p = LoginSuccess::read_body(&mut &body[..]).unwrap();
    assert_eq!(p.uuid, 0x0a072f01_6bdf_487c_4382_f9f40ae4013a);
    assert_eq!(p.username, "Fulmen");
    assert!(p.properties.is_empty());
    assert_eq!(p.session_id, 0x87c61a85_a7c6_4ead_b5f3_3dfb49aeca91);
    // And the encoder reproduces exactly the same bytes.
    let mut out = Vec::new();
    p.write_body(&mut out).unwrap();
    assert_eq!(out, body);
}

#[test]
fn login_success_with_too_many_properties_is_rejected() {
    let mut body = vec![0u8; 16];
    body.push(0); // empty name
    write_varint(&mut body, 1025).unwrap();
    assert!(matches!(
        LoginSuccess::read_body(&mut &body[..]),
        Err(Error::StringTooLong { len: 1025, max: 1024 })
    ));
    let mut body = vec![0u8; 16];
    body.push(0);
    write_varint(&mut body, -1).unwrap();
    assert!(matches!(
        LoginSuccess::read_body(&mut &body[..]),
        Err(Error::NegativeLength(-1))
    ));
}

#[test]
fn login_disconnect_roundtrip() {
    let p = LoginDisconnect { reason: r#"{"text":"bye"}"#.into() };
    let frame = encode(&p).unwrap();
    assert_eq!(frame[1], 0x00);
    assert_eq!(decode::<LoginDisconnect>(&frame[1..]).unwrap(), p);
}

#[test]
fn status_request_is_two_bytes() {
    assert_eq!(encode(&StatusRequest).unwrap(), [0x01, 0x00]);
}

#[test]
fn ping_wire_format() {
    let frame = encode(&PingRequest { payload: 1 }).unwrap();
    assert_eq!(frame, [0x09, 0x01, 0, 0, 0, 0, 0, 0, 0, 1]);
}

#[test]
fn pong_roundtrip_negative_payload() {
    let frame = encode(&PongResponse { payload: -5 }).unwrap();
    assert_eq!(decode::<PongResponse>(&frame[1..]).unwrap(), PongResponse { payload: -5 });
}

#[test]
fn status_response_roundtrip_via_frame_reader() {
    let json = r#"{"version":{"name":"x","protocol":1},"players":{"max":1,"online":0}}"#;
    let bytes = encode(&StatusResponse { json: json.into() }).unwrap();
    let payload = read_frame(&mut &bytes[..]).unwrap();
    let decoded: StatusResponse = decode(&payload).unwrap();
    assert_eq!(decoded.json, json);
}

#[test]
fn read_frame_errors() {
    let mut data = Vec::new();
    write_varint(&mut data, -3).unwrap();
    assert!(matches!(read_frame(&mut &data[..]), Err(Error::NegativeLength(-3))));
    let mut data = Vec::new();
    write_varint(&mut data, MAX_FRAME_LEN as i32 + 1).unwrap();
    assert!(matches!(
        read_frame(&mut &data[..]),
        Err(Error::FrameTooLarge { len: 2_097_152, max: 2_097_151 })
    ));
    let data = [3u8, 1, 2];
    let mut r = &data[..];
    assert!(matches!(read_frame(&mut r), Err(Error::Io(_))));
    assert!(r.is_empty());
    let mut data = Vec::new();
    write_varint(&mut data, -3).unwrap();
    data.push(9);
    let mut r = &data[..];
    assert!(matches!(read_frame(&mut r), Err(Error::NegativeLength(-3))));
    assert_eq!(r, &[9]);
}

#[test]
fn read_frame_takes_one_frame() {
    let mut bytes = encode(&StatusRequest).unwrap();
    bytes.extend(encode(&PingRequest { payload: 7 }).unwrap());
    let mut r = &bytes[..];
    assert_eq!(read_frame(&mut r).unwrap(), [0x00]);
    let ping: PingRequest = decode(&read_frame(&mut r).unwrap()).unwrap();
    assert_eq!(ping.payload, 7);
    assert!(r.is_empty());
}

#[test]
fn oversized_packet_is_not_encoded() {
    let p = StatusResponse { json: "a".repeat(32_767) };
    assert!(encode(&p).is_ok());
    let big = Property { name: "n".into(), value: "v".repeat(32_767), signature: None };
    let p = LoginSuccess {
        uuid: 1,
        username: "x".into(),
        properties: vec![big; 70],
        session_id: 2,
    };
    assert!(matches!(encode(&p), Err(Error::FrameTooLarge { max: 2_097_151, .. })));
    let mut body = Vec::new();
    assert!(matches!(
        (LoginDisconnect { reason: "a".repeat(262_145) }).write_body(&mut body),
        Err(Error::StringTooLong { len: 262_145, max: 262_144 })
    ));
}

#[test]
fn failed_body_read_consumes_the_fields_before() {
    // A handshake whose next state is invalid: all four fields were read.
    let mut frame = encode(&sample()).unwrap();
    let last = frame.len() - 1;
    frame[last] = 9;
    frame.push(0x55);
    let mut r = &frame[2..];
    assert!(matches!(Handshake::read_body(&mut r), Err(Error::InvalidNextState(9))));
    assert_eq!(r, &[0x55]);
    // A Login Success cut inside its name: the UUID and the name prefix are gone.
    let mut body = vec![0u8; 16];
    body.extend_from_slice(&[5, b'a']);
    let mut r = &body[..];
    assert!(matches!(LoginSuccess::read_body(&mut r), Err(Error::Io(_))));
    assert!(r.is_empty());
}
