use std::time::Duration;

use fulmen::net::connection::{
    brand, client_information, configure_step, cookie_response, login_packets, login_step,
    ConfigAction, ConnectOptions, LoginAction,
};
use fulmen::net::framing::RawPacket;
use fulmen::net::offline::{offline_uuid, uuid_from_digest};
use fulmen::net::status::{check_pong, status_request_frames};
use fulmen::net::Error;
use fulmen::protocol::codec::write_string;
use fulmen::protocol::handshake::{Handshake, NextState};
use fulmen::protocol::login::{LoginDisconnect, LoginStart, LoginSuccess, SetCompression};
use fulmen::protocol::packet::{decode, encode, read_frame};
use fulmen::protocol::status::{PongResponse, StatusRequest};

#[test]
fn matches_known_offline_uuids() {
    // Values computed independently with Python's hashlib.
    assert_eq!(
        offline_uuid("Notch"),
        0xb50ad385_829d_3141_a216_7e7d7539ba7f
    );
    assert_eq!(
        offline_uuid("Fulmen"),
        0x37c52288_17d0_3f7a_98de_2ae6245287b6
    );
}

#[test]
fn offline_uuid_is_version_3() {
    for name in ["a", "Steve", "blöcke"] {
        let u = offline_uuid(name);
        assert_eq!((u >> 76) & 0xf, 3);
        assert_eq!((u >> 62) & 0x3, 2);
    }
}

#[test]
fn uuid_from_digest_sets_version_bits() {
    let digest = [0xffu8; 16];
    assert_eq!(uuid_from_digest(&digest), 0xffffffff_ffff_3fff_bfff_ffffffffffff);
    let digest = [0u8; 16];
    assert_eq!(uuid_from_digest(&digest), 0x00000000_0000_3000_8000_000000000000);
}

#[test]
fn status_request_frames_are_handshake_then_request() {
    let bytes = status_request_frames("127.0.0.1", 25565).unwrap();
    let mut r = &bytes[..];
    let hs: Handshake = decode(&read_frame(&mut r).unwrap()).unwrap();
    assert_eq!(hs.next_state, NextState::Status);
    assert_eq!(hs.server_address, "127.0.0.1");
    assert_eq!(hs.protocol_version, -1);
    assert_eq!(hs.server_port, 25565);
    let _: StatusRequest = decode(&read_frame(&mut r).unwrap()).unwrap();
    assert!(r.is_empty());
}

#[test]
fn pong_must_echo_the_payload() {
    let pong = encode(&PongResponse { payload: 77 }).unwrap();
    assert!(check_pong(77, &pong[1..]).is_ok());
    assert!(matches!(
        check_pong(78, &pong[1..]),
        Err(Error::PongMismatch { sent: 78, received: 77 })
    ));
    assert!(matches!(check_pong(77, &[0x00]), Err(Error::Protocol(_))));
}

fn options() -> ConnectOptions {
    ConnectOptions {
        host: "localhost".into(),
        port: 25565,
        username: "Notch".into(),
        timeout: Duration::from_secs(5),
    }
}

#[test]
fn login_opens_with_handshake_and_login_start() {
    let (hs, start) = login_packets(&options()).unwrap();
    let hs = hs.decode::<Handshake>().unwrap();
    assert_eq!(hs.next_state, NextState::Login);
    assert_eq!(hs.server_address, "localhost");
    let start = start.decode::<LoginStart>().unwrap();
    assert_eq!(start.name, "Notch");
    assert_eq!(start.uuid, 0xb50ad385_829d_3141_a216_7e7d7539ba7f);
    let mut opts = options();
    opts.username = "a_name_longer_than_16".into();
    assert!(matches!(
        login_packets(&opts),
        Err(Error::Protocol(fulmen::protocol::Error::StringTooLong { len: 21, max: 16 }))
    ));
}

#[test]
fn login_steps() {
    let disconnect = RawPacket::of(&LoginDisconnect { reason: "\"full\"".into() }).unwrap();
    assert!(matches!(login_step(&disconnect), Err(Error::Disconnected(r)) if r == "\"full\""));
    assert!(matches!(
        login_step(&RawPacket::new(0x01, vec![])),
        Err(Error::EncryptionRequired)
    ));
    let compression = RawPacket::of(&SetCompression { threshold: 256 }).unwrap();
    assert!(matches!(
        login_step(&compression),
        Ok(LoginAction::SetThreshold(Some(256)))
    ));
    let plugin = RawPacket::new(0x04, vec![0x07, b'x']);
    match login_step(&plugin) {
        Ok(LoginAction::Reply(p)) => assert_eq!(p, RawPacket::new(0x02, vec![0x07, 0x00])),
        other => panic!("unexpected {other:?}"),
    }
    let success = RawPacket::of(&LoginSuccess {
        uuid: 5,
        username: "Fulmen".into(),
        properties: vec![],
        session_id: 6,
    })
    .unwrap();
    match login_step(&success) {
        Ok(LoginAction::Finish { profile, ack }) => {
            assert_eq!(profile.uuid, 5);
            assert_eq!(profile.username, "Fulmen");
            assert_eq!(ack, RawPacket::new(0x03, vec![]));
        }
        other => panic!("unexpected {other:?}"),
    }
    assert!(matches!(
        login_step(&RawPacket::new(0x09, vec![])),
        Err(Error::Protocol(fulmen::protocol::Error::UnexpectedPacketId { expected: 2, got: 9 }))
    ));
}

#[test]
fn cookie_requests_are_answered_without_cookie() {
    let mut body = Vec::new();
    write_string(&mut body, "minecraft:key", 32_767).unwrap();
    let request = RawPacket::new(0x05, body.clone());
    let reply = cookie_response(0x04, &request).unwrap();
    let mut expected = body;
    expected.push(0);
    assert_eq!(reply, RawPacket::new(0x04, expected.clone()));
    match login_step(&request) {
        Ok(LoginAction::Reply(p)) => assert_eq!(p, RawPacket::new(0x04, expected.clone())),
        other => panic!("unexpected {other:?}"),
    }
    match configure_step(RawPacket::new(0x00, request.body.clone())) {
        Ok(ConfigAction::Reply(p)) => assert_eq!(p, RawPacket::new(0x01, expected)),
        other => panic!("unexpected {other:?}"),
    }
    assert!(matches!(
        cookie_response(0x04, &RawPacket::new(0x05, vec![])),
        Err(Error::Protocol(_))
    ));
}

#[test]
fn configure_steps() {
    assert!(matches!(
        configure_step(RawPacket::new(0x02, vec![1])),
        Err(Error::Disconnected(_))
    ));
    match configure_step(RawPacket::new(0x03, vec![])) {
        Ok(ConfigAction::Finish(p)) => assert_eq!(p, RawPacket::new(0x03, vec![])),
        other => panic!("unexpected {other:?}"),
    }
    match configure_step(RawPacket::new(0x04, vec![1, 2])) {
        Ok(ConfigAction::Reply(p)) => assert_eq!(p, RawPacket::new(0x04, vec![1, 2])),
        other => panic!("unexpected {other:?}"),
    }
    match configure_step(RawPacket::new(0x05, vec![3])) {
        Ok(ConfigAction::Reply(p)) => assert_eq!(p, RawPacket::new(0x05, vec![3])),
        other => panic!("unexpected {other:?}"),
    }
    match configure_step(RawPacket::new(0x0f, vec![])) {
        Ok(ConfigAction::Reply(p)) => assert_eq!(p, RawPacket::new(0x07, vec![0])),
        other => panic!("unexpected {other:?}"),
    }
    assert!(matches!(
        configure_step(RawPacket::new(0x13, vec![])),
        Err(Error::Unsupported("code of conduct"))
    ));
    assert!(matches!(
        configure_step(RawPacket::new(0x07, vec![])),
        Ok(ConfigAction::Ignore)
    ));
}

#[test]
fn brand_and_client_information_bodies() {
    let b = brand().unwrap();
    assert_eq!(b.id, 0x02);
    let mut expected = vec![15];
    expected.extend_from_slice(b"minecraft:brand");
    expected.push(6);
    expected.extend_from_slice(b"fulmen");
    assert_eq!(b.body, expected);
    let c = client_information().unwrap();
    assert_eq!(c.id, 0x00);
    let mut expected = vec![5];
    expected.extend_from_slice(b"en_us");
    expected.extend_from_slice(&[8, 0, 1, 0x7f, 1, 0, 1, 0]);
    assert_eq!(c.body, expected);
}
