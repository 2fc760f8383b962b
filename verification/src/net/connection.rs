//! The decisions of the login and configuration phases of a connection.
//!
//! Handshake, login and configuration are a short, strictly ordered conversation. The
//! caller owns the socket: it sends what [`login_packets`] gives, then hands every
//! packet it receives to [`login_step`] until the login is finished, then sends
//! [`brand`] and [`client_information`] and hands every packet to [`configure_step`]
//! until the configuration is finished. Each step says what to send back or what changed.

use vstd::prelude::*;

use crate::net::error::Error;
use crate::net::framing::{threshold_from_packet, threshold_of, RawPacket};
use crate::net::offline::{md5_digest, offline_name_bytes, offline_uuid, version3_bytes};
use crate::protocol::codec::{
    be_value, lemma_parse_string_len, lemma_utf16_len_bound, parse_string,
    read_string, string_bytes, write_bool, write_string, write_u8,
};
use crate::protocol::handshake::{handshake_body, Handshake, HandshakeView, NextState};
use crate::protocol::login::{
    login_start_body, LoginAcknowledged, LoginDisconnect, LoginStart, LoginSuccess,
    SetCompression,
};
use crate::protocol::packet::{decode_body, Packet};
use crate::protocol::varint::{parse_varint, read_varint, varint_bytes, write_varint};
use crate::protocol::PROTOCOL_VERSION;

verus! {

// Packet ids, protocol 776 (26.2) per the Minecraft Wiki, not yet verified for 777.
pub const LOGIN_DISCONNECT: i32 = 0x00;

pub const LOGIN_ENCRYPTION_REQUEST: i32 = 0x01;

pub const LOGIN_SUCCESS: i32 = 0x02;

pub const LOGIN_SET_COMPRESSION: i32 = 0x03;

pub const LOGIN_PLUGIN_REQUEST: i32 = 0x04;

pub const LOGIN_COOKIE_REQUEST: i32 = 0x05;

pub const LOGIN_PLUGIN_RESPONSE: i32 = 0x02;

pub const LOGIN_COOKIE_RESPONSE: i32 = 0x04;

pub const LOGIN_ACKNOWLEDGED: i32 = 0x03;

pub const CONFIG_COOKIE_REQUEST: i32 = 0x00;

pub const CONFIG_DISCONNECT: i32 = 0x02;

pub const CONFIG_FINISH: i32 = 0x03;

pub const CONFIG_KEEP_ALIVE: i32 = 0x04;

pub const CONFIG_PING: i32 = 0x05;

pub const CONFIG_KNOWN_PACKS: i32 = 0x0F;

pub const CONFIG_CODE_OF_CONDUCT: i32 = 0x13;

pub const CONFIG_COOKIE_RESPONSE: i32 = 0x01;

pub const CONFIG_ACK_FINISH: i32 = 0x03;

pub const CONFIG_KEEP_ALIVE_REPLY: i32 = 0x04;

pub const CONFIG_PONG: i32 = 0x05;

pub const CONFIG_KNOWN_PACKS_REPLY: i32 = 0x07;

pub const CONFIG_CLIENT_INFORMATION: i32 = 0x00;

pub const CONFIG_PLUGIN_MESSAGE: i32 = 0x02;

/// Longest cookie key.
pub const MAX_COOKIE_KEY_CHARS: usize = 32_767;

/// Where to connect and who to be.
#[derive(Debug)]
pub struct ConnectOptions {
    pub host: String,
    pub port: u16,
    /// Player name (offline mode: the server trusts it).
    pub username: String,
    /// Timeout for connecting and for every step of the login phase.
    pub timeout: std::time::Duration,
}

/// What to do after a packet of the login phase.
#[derive(Debug)]
pub enum LoginAction {
    /// Switch compression to this threshold and keep waiting.
    SetThreshold(Option<usize>),
    /// Send this packet and keep waiting.
    Reply(RawPacket),
    /// The login succeeded with this profile: send `ack` (Login Acknowledged) and go on
    /// to the configuration phase.
    Finish { profile: LoginSuccess, ack: RawPacket },
}

/// What to do after a packet of the configuration phase.
#[derive(Debug)]
pub enum ConfigAction {
    /// Send this packet and keep waiting.
    Reply(RawPacket),
    /// Send this packet (Acknowledge Finish Configuration): the connection is now in the
    /// play state.
    Finish(RawPacket),
    /// Nothing to answer (registry data, tags, feature flags, ...); keep waiting.
    Ignore,
}

/// The answer to a cookie request with body `body`: the key it asked for and "no cookie
/// stored".
pub open spec fn cookie_reply(id: i32, body: Seq<u8>) -> Result<(i32, Seq<u8>), Error> {
    match parse_string(body, MAX_COOKIE_KEY_CHARS) {
        Err(e) => Err(Error::Protocol(e)),
        Ok((key, n)) => Ok((id, string_bytes(key) + seq![0u8])),
    }
}

/// Answers a cookie request with "no cookie stored".
pub fn cookie_response(id: i32, request: &RawPacket) -> (res: Result<RawPacket, Error>)
    ensures
        match cookie_reply(id, request.body@) {
            Ok(p) => res matches Ok(rp) && rp@ == p,
            Err(e) => res matches Err(x) && x == e,
        },
{
    let mut cur: &[u8] = request.body.as_slice();
    let key = match read_string(&mut cur, MAX_COOKIE_KEY_CHARS) {
        Ok(k) => k,
        Err(e) => return Err(Error::Protocol(e)),
    };
    proof {
        lemma_parse_string_len(request.body@, MAX_COOKIE_KEY_CHARS);
    }
    let mut body: Vec<u8> = Vec::new();
    let _ = write_string(&mut body, key.as_str(), MAX_COOKIE_KEY_CHARS);
    body.push(0);
    assert(body@ =~= string_bytes(key@) + seq![0u8]);
    Ok(RawPacket::new(id, body))
}

/// The body of the plugin message on the `minecraft:brand` channel.
pub open spec fn brand_body() -> Seq<u8> {
    string_bytes("minecraft:brand"@) + string_bytes("fulmen"@)
}

/// Plugin message on the `minecraft:brand` channel.
pub fn brand() -> (res: Result<RawPacket, Error>)
    ensures
        res matches Ok(p) && p@ == (CONFIG_PLUGIN_MESSAGE, brand_body()),
{
    proof {
        reveal_strlit("minecraft:brand");
        reveal_strlit("fulmen");
        lemma_utf16_len_bound("minecraft:brand"@);
        lemma_utf16_len_bound("fulmen"@);
    }
    let mut body: Vec<u8> = Vec::new();
    let _ = write_string(&mut body, "minecraft:brand", MAX_COOKIE_KEY_CHARS);
    let _ = write_string(&mut body, "fulmen", MAX_COOKIE_KEY_CHARS);
    assert(body@ =~= brand_body());
    Ok(RawPacket::new(CONFIG_PLUGIN_MESSAGE, body))
}

/// The body of Client Information with plain defaults: locale `en_us`, view distance 8,
/// chat enabled with colors, all skin parts, right main hand, no text filtering,
/// listed on servers, all particles.
pub open spec fn client_information_body() -> Seq<u8> {
    string_bytes("en_us"@) + seq![8u8] + varint_bytes(0) + seq![1u8] + seq![0x7fu8]
        + varint_bytes(1) + seq![0u8] + seq![1u8] + varint_bytes(0)
}

/// Client Information with plain defaults (field order taken from third-party protocol
/// crates, not yet verified against 777).
pub fn client_information() -> (res: Result<RawPacket, Error>)
    ensures
        res matches Ok(p) && p@ == (CONFIG_CLIENT_INFORMATION, client_information_body()),
{
    proof {
        reveal_strlit("en_us");
        lemma_utf16_len_bound("en_us"@);
    }
    let mut body: Vec<u8> = Vec::new();
    let _ = write_string(&mut body, "en_us", 16);  // locale
    let _ = write_u8(&mut body, 8);  // view distance
    let _ = write_varint(&mut body, 0);  // chat mode: enabled
    let _ = write_bool(&mut body, true);  // chat colors
    let _ = write_u8(&mut body, 0x7f);  // displayed skin parts: all
    let _ = write_varint(&mut body, 1);  // main hand: right
    let _ = write_bool(&mut body, false);  // text filtering
    let _ = write_bool(&mut body, true);  // allow server listings
    let _ = write_varint(&mut body, 0);  // particles: all
    assert(body@ =~= client_information_body());
    Ok(RawPacket::new(CONFIG_CLIENT_INFORMATION, body))
}

/// The handshake a login to `host:port` opens with.
pub open spec fn login_handshake(host: Seq<char>, port: u16) -> HandshakeView {
    HandshakeView {
        protocol_version: PROTOCOL_VERSION,
        server_address: host,
        server_port: port,
        next_state: NextState::Login,
    }
}

/// The offline-mode UUID of a player name.
pub open spec fn spec_offline_uuid(name: Seq<char>) -> u128 {
    be_value(version3_bytes(md5_digest(offline_name_bytes(name)))) as u128
}

/// The two packets a login opens with: the handshake (next state: login) and Login Start
/// with the name and its offline-mode UUID.
pub fn login_packets(opts: &ConnectOptions) -> (res: Result<(RawPacket, RawPacket), Error>)
    ensures
        match handshake_body(login_handshake(opts.host@, opts.port)) {
            Err(e) => res matches Err(x) && x == Error::Protocol(e),
            Ok(hs) => match login_start_body((opts.username@, spec_offline_uuid(opts.username@))) {
                Err(e) => res matches Err(x) && x == Error::Protocol(e),
                Ok(ls) => res matches Ok((a, b)) && a@ == (Handshake::spec_id(), hs) && b@ == (
                    LoginStart::spec_id(),
                    ls,
                ),
            },
        },
{
    proof {
        Handshake::lemma_id();
        LoginStart::lemma_id();
    }
    let handshake = Handshake {
        protocol_version: PROTOCOL_VERSION,
        server_address: opts.host.clone(),
        server_port: opts.port,
        next_state: NextState::Login,
    };
    let first = match RawPacket::of(&handshake) {
        Ok(p) => p,
        Err(e) => return Err(e),
    };
    let start = LoginStart { name: opts.username.clone(), uuid: offline_uuid(opts.username.as_str()) };
    let second = match RawPacket::of(&start) {
        Ok(p) => p,
        Err(e) => return Err(e),
    };
    Ok((first, second))
}

/// What a packet received in the login phase means.
pub fn login_step(packet: &RawPacket) -> (res: Result<LoginAction, Error>)
    ensures
        packet.id == LOGIN_DISCONNECT ==> (match decode_body::<LoginDisconnect>(packet.body@) {
            Ok(reason) => res matches Err(Error::Disconnected(s)) && s@ == reason,
            Err(e) => res matches Err(x) && x == Error::Protocol(e),
        }),
        packet.id == LOGIN_ENCRYPTION_REQUEST ==> res matches Err(Error::EncryptionRequired),
        packet.id == LOGIN_SET_COMPRESSION ==> (match decode_body::<SetCompression>(
            packet.body@,
        ) {
            Ok(t) => res matches Ok(LoginAction::SetThreshold(th)) && th == threshold_of(t),
            Err(e) => res matches Err(x) && x == Error::Protocol(e),
        }),
        packet.id == LOGIN_PLUGIN_REQUEST ==> (match parse_varint(packet.body@) {
            Ok((message_id, n)) => res matches Ok(LoginAction::Reply(p)) && p@ == (
                LOGIN_PLUGIN_RESPONSE,
                varint_bytes(message_id) + seq![0u8],
            ),
            Err(e) => res matches Err(x) && x == Error::Protocol(e),
        }),
        packet.id == LOGIN_COOKIE_REQUEST ==> (match cookie_reply(
            LOGIN_COOKIE_RESPONSE,
            packet.body@,
        ) {
            Ok(p) => res matches Ok(LoginAction::Reply(rp)) && rp@ == p,
            Err(e) => res matches Err(x) && x == e,
        }),
        packet.id == LOGIN_SUCCESS ==> (match decode_body::<LoginSuccess>(packet.body@) {
            Ok(v) => res matches Ok(LoginAction::Finish { profile, ack }) && profile@ == v
                && ack@ == (LOGIN_ACKNOWLEDGED, Seq::<u8>::empty()),
            Err(e) => res matches Err(x) && x == Error::Protocol(e),
        }),
        !(0 <= packet.id <= 5) ==> (res matches Err(Error::Protocol(x)) && x == (
        crate::protocol::Error::UnexpectedPacketId { expected: LOGIN_SUCCESS, got: packet.id })),
{
    proof {
        LoginDisconnect::lemma_id();
        SetCompression::lemma_id();
        LoginSuccess::lemma_id();
        LoginAcknowledged::lemma_id();
    }
    let id = packet.id;
    if id == LOGIN_DISCONNECT {
        match packet.decode::<LoginDisconnect>() {
            Ok(d) => Err(Error::Disconnected(d.reason)),
            Err(e) => Err(e),
        }
    } else if id == LOGIN_ENCRYPTION_REQUEST {
        Err(Error::EncryptionRequired)
    } else if id == LOGIN_SET_COMPRESSION {
        match packet.decode::<SetCompression>() {
            Ok(c) => Ok(LoginAction::SetThreshold(threshold_from_packet(c.threshold))),
            Err(e) => Err(e),
        }
    } else if id == LOGIN_PLUGIN_REQUEST {
        // We understand no login plugin channels: answer "not successful".
        let mut cur: &[u8] = packet.body.as_slice();
        let message_id = match read_varint(&mut cur) {
            Ok(m) => m,
            Err(e) => return Err(Error::Protocol(e)),
        };
        let mut body: Vec<u8> = Vec::new();
        let _ = write_varint(&mut body, message_id);
        body.push(0);
        assert(body@ =~= varint_bytes(message_id) + seq![0u8]);
        Ok(LoginAction::Reply(RawPacket::new(LOGIN_PLUGIN_RESPONSE, body)))
    } else if id == LOGIN_COOKIE_REQUEST {
        match cookie_response(LOGIN_COOKIE_RESPONSE, packet) {
            Ok(p) => Ok(LoginAction::Reply(p)),
            Err(e) => Err(e),
        }
    } else if id == LOGIN_SUCCESS {
        let profile = match packet.decode::<LoginSuccess>() {
            Ok(p) => p,
            Err(e) => return Err(e),
        };
        let ack = match RawPacket::of(&LoginAcknowledged) {
            Ok(a) => a,
            Err(e) => return Err(e),
        };
        Ok(LoginAction::Finish { profile, ack })
    } else {
        Err(
            Error::Protocol(
                crate::protocol::Error::UnexpectedPacketId { expected: LOGIN_SUCCESS, got: id },
            ),
        )
    }
}

/// What a packet received in the configuration phase means.
pub fn configure_step(packet: RawPacket) -> (res: Result<ConfigAction, Error>)
    ensures
        packet.id == CONFIG_DISCONNECT ==> (res matches Err(Error::Disconnected(s)) && s@
            == "(reason not decoded)"@),
        packet.id == CONFIG_FINISH ==> (res matches Ok(ConfigAction::Finish(p)) && p@ == (
            CONFIG_ACK_FINISH,
            Seq::<u8>::empty(),
        )),
        packet.id == CONFIG_KEEP_ALIVE ==> (res matches Ok(ConfigAction::Reply(p)) && p@ == (
            CONFIG_KEEP_ALIVE_REPLY,
            packet.body@,
        )),
        packet.id == CONFIG_PING ==> (res matches Ok(ConfigAction::Reply(p)) && p@ == (
            CONFIG_PONG,
            packet.body@,
        )),
        packet.id == CONFIG_KNOWN_PACKS ==> (res matches Ok(ConfigAction::Reply(p)) && p@ == (
            CONFIG_KNOWN_PACKS_REPLY,
            seq![0u8],
        )),
        packet.id == CONFIG_COOKIE_REQUEST ==> (match cookie_reply(
            CONFIG_COOKIE_RESPONSE,
            packet.body@,
        ) {
            Ok(p) => res matches Ok(ConfigAction::Reply(rp)) && rp@ == p,
            Err(e) => res matches Err(x) && x == e,
        }),
        packet.id == CONFIG_CODE_OF_CONDUCT ==> (res matches Err(Error::Unsupported(what))
            && what@ == "code of conduct"@),
        !(0 <= packet.id <= 5 || packet.id == CONFIG_KNOWN_PACKS || packet.id
            == CONFIG_CODE_OF_CONDUCT) ==> (res matches Ok(ConfigAction::Ignore)),
        packet.id == 1 ==> (res matches Ok(ConfigAction::Ignore)),
{
    let id = packet.id;
    if id == CONFIG_DISCONNECT {
        // The reason is an NBT text component, which we do not decode yet.
        Err(Error::Disconnected("(reason not decoded)".to_owned()))
    } else if id == CONFIG_FINISH {
        Ok(ConfigAction::Finish(RawPacket::new(CONFIG_ACK_FINISH, Vec::new())))
    } else if id == CONFIG_KEEP_ALIVE {
        Ok(ConfigAction::Reply(RawPacket::new(CONFIG_KEEP_ALIVE_REPLY, packet.body)))
    } else if id == CONFIG_PING {
        Ok(ConfigAction::Reply(RawPacket::new(CONFIG_PONG, packet.body)))
    } else if id == CONFIG_KNOWN_PACKS {
        // We have no data packs: an empty list makes the server send everything.
        Ok(ConfigAction::Reply(RawPacket::new(CONFIG_KNOWN_PACKS_REPLY, vec![0])))
    } else if id == CONFIG_COOKIE_REQUEST {
        match cookie_response(CONFIG_COOKIE_RESPONSE, &packet) {
            Ok(p) => Ok(ConfigAction::Reply(p)),
            Err(e) => Err(e),
        }
    } else if id == CONFIG_CODE_OF_CONDUCT {
        Err(Error::Unsupported("code of conduct"))
    } else {
        Ok(ConfigAction::Ignore)
    }
}

} // verus!
