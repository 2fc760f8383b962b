//! The decisions of a server list ping.
//!
//! A ping connects, sends a handshake and a status request, reads the status response,
//! sends a ping with a payload and expects a pong that echoes it. The connection and the
//! clock are the caller's; this module builds what is sent and judges what came back.

use vstd::prelude::*;

use crate::net::error::Error;
use crate::protocol::handshake::{Handshake, HandshakeView, NextState};
use crate::protocol::packet::{decode, decode_payload, encode, encode_frame, Packet};
use crate::protocol::status::{PongResponse, StatusRequest};
use crate::protocol::codec::append_bytes;
use crate::protocol::varint::varint_bytes;
use crate::protocol::PROTOCOL_VERSION;

verus! {

/// Protocol version sent in the handshake of a status request. Servers ignore it.
pub const STATUS_PROTOCOL_VERSION: i32 = PROTOCOL_VERSION;

/// Result of a server list ping.
#[derive(Debug)]
pub struct StatusResult {
    /// Raw status JSON as sent by the server.
    pub json: String,
    /// Round-trip time measured with the ping/pong exchange.
    pub latency: std::time::Duration,
}

/// The handshake a ping of `host:port` opens with.
pub open spec fn status_handshake(host: Seq<char>, port: u16) -> HandshakeView {
    HandshakeView {
        protocol_version: STATUS_PROTOCOL_VERSION,
        server_address: host,
        server_port: port,
        next_state: NextState::Status,
    }
}

/// The bytes a ping of `host:port` sends first: the frames of the handshake and of the
/// status request.
pub fn status_request_frames(host: &str, port: u16) -> (res: Result<Vec<u8>, Error>)
    ensures
        match encode_frame::<Handshake>(status_handshake(host@, port)) {
            Ok(hs) => res matches Ok(v) && v@ == hs + encode_frame::<StatusRequest>(())->Ok_0,
            Err(e) => res matches Err(Error::Protocol(x)) && x == e,
        },
{
    let handshake = Handshake {
        protocol_version: STATUS_PROTOCOL_VERSION,
        server_address: host.to_owned(),
        server_port: port,
        next_state: NextState::Status,
    };
    let mut out = match encode(&handshake) {
        Ok(frame) => frame,
        Err(e) => return Err(Error::Protocol(e)),
    };
    assert(handshake@ == status_handshake(host@, port));
    assert(varint_bytes(0) =~= seq![0u8]);
    proof {
        StatusRequest::lemma_id();
    }
    match encode(&StatusRequest) {
        Ok(frame) => {
            append_bytes(&mut out, frame.as_slice());
            Ok(out)
        },
        Err(e) => Err(Error::Protocol(e)),
    }
}

/// Judges the pong: its payload (`[id][body]`) must decode as a pong that echoes `sent`.
pub fn check_pong(sent: i64, pong_payload: &[u8]) -> (res: Result<(), Error>)
    ensures
        match decode_payload::<PongResponse>(pong_payload@) {
            Ok(received) => if received == sent {
                res is Ok
            } else {
                res matches Err(Error::PongMismatch { sent: s, received: r }) && s == sent && r
                    == received
            },
            Err(e) => res matches Err(Error::Protocol(x)) && x == e,
        },
{
    let pong: PongResponse = match decode(pong_payload) {
        Ok(p) => p,
        Err(e) => return Err(Error::Protocol(e)),
    };
    if pong.payload != sent {
        return Err(Error::PongMismatch { sent, received: pong.payload });
    }
    Ok(())
}

} // verus!
