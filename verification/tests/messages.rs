use fulmen::net::Error;
use fulmen::protocol::{Error as ProtocolError, IoError};

#[test]
fn protocol_messages() {
    assert_eq!(
        ProtocolError::Io(IoError::UnexpectedEof).message(),
        "i/o error: failed to fill whole buffer"
    );
    assert_eq!(ProtocolError::VarIntTooLong.message(), "VarInt/VarLong is too long");
    assert_eq!(ProtocolError::NegativeLength(-7).message(), "negative length prefix: -7");
    assert_eq!(
        ProtocolError::FrameTooLarge { len: 2_097_152, max: 2_097_151 }.message(),
        "packet frame too large: 2097152 bytes (max 2097151)"
    );
    assert_eq!(
        ProtocolError::StringTooLong { len: 10, max: 9 }.message(),
        "string too long: 10 (max 9)"
    );
    assert_eq!(ProtocolError::InvalidUtf8.message(), "string is not valid UTF-8");
    assert_eq!(ProtocolError::InvalidNextState(0).message(), "invalid handshake next state: 0");
    assert_eq!(ProtocolError::TrailingBytes(3).message(), "3 unread bytes left in packet body");
}

#[test]
fn packet_ids_are_shown_in_padded_hex() {
    assert_eq!(
        ProtocolError::UnexpectedPacketId { expected: 0x01, got: 0x1f }.message(),
        "unexpected packet id 0x1f (expected 0x01)"
    );
    assert_eq!(
        ProtocolError::UnexpectedPacketId { expected: 0x100, got: -1 }.message(),
        "unexpected packet id 0xffffffff (expected 0x100)"
    );
    let e = ProtocolError::UnexpectedPacketId { expected: 2, got: 0 };
    assert_eq!(e.message(), format!("unexpected packet id {:#04x} (expected {:#04x})", 0, 2));
}

#[test]
fn numbers_in_messages_match_std_formatting() {
    for n in [0i32, 9, 10, 99, 100, -1, -10, i32::MAX, i32::MIN] {
        assert_eq!(
            ProtocolError::InvalidNextState(n).message(),
            format!("invalid handshake next state: {n}")
        );
        assert_eq!(
            ProtocolError::UnexpectedPacketId { expected: n, got: n }.message(),
            format!("unexpected packet id {n:#04x} (expected {n:#04x})")
        );
    }
    for n in [0usize, 7, 10, 1234567, usize::MAX] {
        assert_eq!(
            ProtocolError::TrailingBytes(n).message(),
            format!("{n} unread bytes left in packet body")
        );
    }
}

#[test]
fn connection_messages() {
    assert_eq!(
        Error::Protocol(ProtocolError::VarIntTooLong).message(),
        "protocol error: VarInt/VarLong is too long"
    );
    assert_eq!(Error::NoAddress.message(), "host did not resolve to any address");
    assert_eq!(
        Error::PongMismatch { sent: i64::MIN, received: 42 }.message(),
        "pong payload 42 does not match ping payload -9223372036854775808"
    );
    assert_eq!(
        Error::Disconnected("{\"text\":\"bye ⚡\"}".to_string()).message(),
        "disconnected by server: {\"text\":\"bye ⚡\"}"
    );
    assert_eq!(
        Error::EncryptionRequired.message(),
        "server requires encryption (online mode is not implemented yet)"
    );
    assert_eq!(Error::Unsupported("code of conduct").message(), "not supported yet: code of conduct");
    assert_eq!(Error::BadCompression.message(), "invalid compressed packet");
    assert_eq!(Error::Closed.message(), "connection closed");
}

#[test]
fn outside_errors_keep_their_text() {
    let io = std::io::Error::new(std::io::ErrorKind::Other, "boom");
    assert_eq!(Error::Io(io).message(), "i/o error: boom");
    let json = serde_json::from_str::<u8>("x").unwrap_err();
    let text = json.to_string();
    assert_eq!(Error::Json(json).message(), format!("invalid status JSON: {text}"));
}
