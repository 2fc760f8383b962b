//! The handshake packet, the first packet a client sends.

use vstd::prelude::*;

use crate::protocol::codec::{
    be_bytes, encode_string, lemma_parse_string_len, lemma_string_roundtrip_limited, lemma_string_taken, string_taken, lemma_u16_roundtrip, parse_be,
    parse_string, read_string, read_u16, write_string, write_u16,
};
use crate::protocol::error::Error;
use crate::protocol::packet::Packet;
use crate::protocol::varint::{
    lemma_leb128_taken, lemma_parse_varint_len, lemma_varint_roundtrip, parse_varint, read_varint, varint_bytes, varint_taken,
    write_varint,
};

verus! {

/// Maximum length of the server address field.
pub const MAX_ADDRESS_CHARS: usize = 255;

/// The state the connection switches to after the handshake.
#[derive(Debug, Clone, Copy, PartialEq, Eq, Structural)]
pub enum NextState {
    /// Wire value 1.
    Status,
    /// Wire value 2.
    Login,
    /// Login after a server-initiated transfer (Java Edition 1.20.5 and later); wire
    /// value 3.
    Transfer,
}

/// The wire value of a next state.
pub open spec fn next_state_value(s: NextState) -> i32 {
    match s {
        NextState::Status => 1,
        NextState::Login => 2,
        NextState::Transfer => 3,
    }
}

/// The next state a wire value names, or `InvalidNextState`.
pub open spec fn next_state_of(v: i32) -> Result<NextState, Error> {
    if v == 1 {
        Ok(NextState::Status)
    } else if v == 2 {
        Ok(NextState::Login)
    } else if v == 3 {
        Ok(NextState::Transfer)
    } else {
        Err(Error::InvalidNextState(v))
    }
}

impl NextState {
    /// The next state a wire value names.
    pub fn from_i32(v: i32) -> (res: Result<Self, Error>)
        ensures
            res == next_state_of(v),
    {
        match v {
            1 => Ok(Self::Status),
            2 => Ok(Self::Login),
            3 => Ok(Self::Transfer),
            other => Err(Error::InvalidNextState(other)),
        }
    }

    /// The wire value of this next state.
    pub fn as_i32(self) -> (v: i32)
        ensures
            v == next_state_value(self),
    {
        match self {
            Self::Status => 1,
            Self::Login => 2,
            Self::Transfer => 3,
        }
    }
}

/// Serverbound handshake (id 0x00).
#[derive(Debug, Clone, PartialEq, Eq)]
pub struct Handshake {
    /// Protocol version of the client. Servers ignore it for status requests, so `-1`
    /// is fine when only pinging.
    pub protocol_version: i32,
    pub server_address: String,
    pub server_port: u16,
    pub next_state: NextState,
}

/// The fields of a handshake, with the address as its characters.
pub struct HandshakeView {
    pub protocol_version: i32,
    pub server_address: Seq<char>,
    pub server_port: u16,
    pub next_state: NextState,
}

impl View for Handshake {
    type V = HandshakeView;

    open spec fn view(&self) -> HandshakeView {
        HandshakeView {
            protocol_version: self.protocol_version,
            server_address: self.server_address@,
            server_port: self.server_port,
            next_state: self.next_state,
        }
    }
}

/// The body of a handshake: protocol version (VarInt), address (string of at most 255
/// characters), port (big-endian `u16`), next state (VarInt).
pub open spec fn handshake_body(v: HandshakeView) -> Result<Seq<u8>, Error> {
    match encode_string(v.server_address, MAX_ADDRESS_CHARS) {
        Err(e) => Err(e),
        Ok(addr) => Ok(
            varint_bytes(v.protocol_version) + addr + be_bytes(v.server_port as nat, 2)
                + varint_bytes(next_state_value(v.next_state)),
        ),
    }
}

/// A handshake body at the front of `s`.
pub open spec fn parse_handshake(s: Seq<u8>) -> Result<(HandshakeView, nat), Error> {
    match parse_varint(s) {
        Err(e) => Err(e),
        Ok((version, n1)) => match parse_string(s.skip(n1 as int), MAX_ADDRESS_CHARS) {
            Err(e) => Err(e),
            Ok((address, n2)) => match parse_be(s.skip((n1 + n2) as int), 2) {
                Err(e) => Err(e),
                Ok(port) => match parse_varint(s.skip((n1 + n2 + 2) as int)) {
                    Err(e) => Err(e),
                    Ok((state, n4)) => match next_state_of(state) {
                        Err(e) => Err(e),
                        Ok(next_state) => Ok(
                            (
                                HandshakeView {
                                    protocol_version: version,
                                    server_address: address,
                                    server_port: port as u16,
                                    next_state,
                                },
                                n1 + n2 + 2 + n4,
                            ),
                        ),
                    },
                },
            },
        },
    }
}

/// How many bytes reading a handshake body takes from the front of `s` when it fails:
/// the fields read before the faulty one, and what reading that one took.
pub open spec fn handshake_taken(s: Seq<u8>) -> nat {
    match parse_varint(s) {
        Err(_) => varint_taken(s),
        Ok((_, n1)) => match parse_string(s.skip(n1 as int), MAX_ADDRESS_CHARS) {
            Err(_) => n1 + string_taken(s.skip(n1 as int), MAX_ADDRESS_CHARS),
            Ok((_, n2)) => if s.len() < n1 + n2 + 2 {
                s.len()
            } else {
                match parse_varint(s.skip((n1 + n2 + 2) as int)) {
                    Err(_) => n1 + n2 + 2 + varint_taken(s.skip((n1 + n2 + 2) as int)),
                    Ok((_, n4)) => n1 + n2 + 2 + n4,
                }
            },
        },
    }
}

impl Packet for Handshake {
    const ID: i32 = 0x00;

    open spec fn spec_id() -> i32 {
        0x00
    }

    proof fn lemma_id() {
    }

    open spec fn encode_body(v: HandshakeView) -> Result<Seq<u8>, Error> {
        handshake_body(v)
    }

    open spec fn parse_body(s: Seq<u8>) -> Result<(HandshakeView, nat), Error> {
        parse_handshake(s)
    }

    open spec fn read_taken(s: Seq<u8>) -> nat {
        handshake_taken(s)
    }

    open spec fn within_read_limits(v: HandshakeView) -> bool {
        true
    }

    fn write_body(&self, w: &mut Vec<u8>) -> (res: Result<(), Error>) {
        let ghost w0 = w@;
        let _ = write_varint(w, self.protocol_version);
        match write_string(w, self.server_address.as_str(), MAX_ADDRESS_CHARS) {
            Ok(()) => {},
            Err(e) => return Err(e),
        }
        let _ = write_u16(w, self.server_port);
        let r = write_varint(w, self.next_state.as_i32());
        assert(w@ =~= w0 + handshake_body(self@)->Ok_0);
        r
    }

    fn read_body(r: &mut &[u8]) -> (res: Result<Self, Error>) {
        let ghost s = r@;
        let mut cur: &[u8] = *r;
        proof {
            lemma_parse_varint_len(s);
            lemma_leb128_taken(s, 5);
        }
        let protocol_version = match read_varint(&mut cur) {
            Ok(v) => v,
            Err(e) => {
                *r = cur;
                return Err(e);
            },
        };
        let ghost n1 = parse_varint(s)->Ok_0.1;
        proof {
            lemma_string_taken(s.skip(n1 as int), MAX_ADDRESS_CHARS);
            lemma_parse_string_len(s.skip(n1 as int), MAX_ADDRESS_CHARS);
        }
        let server_address = match read_string(&mut cur, MAX_ADDRESS_CHARS) {
            Ok(a) => a,
            Err(e) => {
                assert(cur@ =~= s.skip((n1 + string_taken(s.skip(n1 as int), MAX_ADDRESS_CHARS)) as int));
                *r = cur;
                return Err(e);
            },
        };
        let ghost n2 = parse_string(s.skip(n1 as int), MAX_ADDRESS_CHARS)->Ok_0.1;
        assert(cur@ =~= s.skip((n1 + n2) as int));
        let server_port = match read_u16(&mut cur) {
            Ok(p) => p,
            Err(e) => {
                assert(cur@ =~= s.skip(s.len() as int));
                *r = cur;
                return Err(e);
            },
        };
        assert(cur@ =~= s.skip((n1 + n2 + 2) as int));
        proof {
            lemma_parse_varint_len(cur@);
            lemma_leb128_taken(cur@, 5);
        }
        let state = match read_varint(&mut cur) {
            Ok(v) => v,
            Err(e) => {
                assert(cur@ =~= s.skip((n1 + n2 + 2 + varint_taken(s.skip((n1 + n2 + 2) as int))) as int));
                *r = cur;
                return Err(e);
            },
        };
        let ghost n4 = parse_varint(s.skip((n1 + n2 + 2) as int))->Ok_0.1;
        assert(cur@ =~= s.skip((n1 + n2 + 2 + n4) as int));
        *r = cur;
        let next_state = match NextState::from_i32(state) {
            Ok(st) => st,
            Err(e) => return Err(e),
        };
        Ok(Handshake { protocol_version, server_address, server_port, next_state })
    }

    proof fn lemma_parse_body_len(s: Seq<u8>) {
        lemma_parse_varint_len(s);
        if let Ok((_, n1)) = parse_varint(s) {
            lemma_parse_string_len(s.skip(n1 as int), MAX_ADDRESS_CHARS);
            if let Ok((_, n2)) = parse_string(s.skip(n1 as int), MAX_ADDRESS_CHARS) {
                lemma_parse_varint_len(s.skip((n1 + n2 + 2) as int));
            }
        }
    }

    proof fn lemma_body_roundtrip(v: HandshakeView, rest: Seq<u8>) {
        let addr = encode_string(v.server_address, MAX_ADDRESS_CHARS)->Ok_0;
        let vb = varint_bytes(v.protocol_version);
        let pb = be_bytes(v.server_port as nat, 2);
        let sb = varint_bytes(next_state_value(v.next_state));
        let s = handshake_body(v)->Ok_0 + rest;
        assert(s =~= vb + (addr + (pb + (sb + rest))));
        lemma_varint_roundtrip(v.protocol_version, addr + (pb + (sb + rest)));
        assert(s.skip(vb.len() as int) =~= addr + (pb + (sb + rest)));
        lemma_string_roundtrip_limited(v.server_address, MAX_ADDRESS_CHARS, pb + (sb + rest));
        assert(s.skip((vb.len() + addr.len()) as int) =~= pb + (sb + rest));
        lemma_u16_roundtrip(v.server_port, sb + rest);
        assert(s.skip((vb.len() + addr.len() + 2) as int) =~= sb + rest);
        lemma_varint_roundtrip(next_state_value(v.next_state), rest);
    }
}

/// The handshake's last field is the next state as one byte on the wire: `1` for
/// status, `2` for login, `3` for a transfer. Written, the body ends with that byte;
/// read, the same fields followed by `1`, `2` or `3` give status, login or transfer.
pub proof fn lemma_handshake_next_state_on_wire(v: HandshakeView, rest: Seq<u8>)
    requires
        handshake_body(v) is Ok,
    ensures
        handshake_body(v)->Ok_0.last() == (match v.next_state {
            NextState::Status => 1u8,
            NextState::Login => 2u8,
            NextState::Transfer => 3u8,
        }),
        handshake_body(v)->Ok_0.drop_last() == varint_bytes(v.protocol_version) + encode_string(
            v.server_address,
            MAX_ADDRESS_CHARS,
        )->Ok_0 + be_bytes(v.server_port as nat, 2),
        ({
            let pre = handshake_body(v)->Ok_0.drop_last();
            &&& parse_handshake(pre + seq![1u8] + rest) == Ok::<(HandshakeView, nat), Error>(
                (
                    HandshakeView {
                        protocol_version: v.protocol_version,
                        server_address: v.server_address,
                        server_port: v.server_port,
                        next_state: NextState::Status,
                    },
                    pre.len() + 1,
                ),
            )
            &&& parse_handshake(pre + seq![2u8] + rest) == Ok::<(HandshakeView, nat), Error>(
                (
                    HandshakeView {
                        protocol_version: v.protocol_version,
                        server_address: v.server_address,
                        server_port: v.server_port,
                        next_state: NextState::Login,
                    },
                    pre.len() + 1,
                ),
            )
            &&& parse_handshake(pre + seq![3u8] + rest) == Ok::<(HandshakeView, nat), Error>(
                (
                    HandshakeView {
                        protocol_version: v.protocol_version,
                        server_address: v.server_address,
                        server_port: v.server_port,
                        next_state: NextState::Transfer,
                    },
                    pre.len() + 1,
                ),
            )
        }),
{
    let addr = encode_string(v.server_address, MAX_ADDRESS_CHARS)->Ok_0;
    let pre = varint_bytes(v.protocol_version) + addr + be_bytes(v.server_port as nat, 2);
    assert(varint_bytes(1) =~= seq![1u8]);
    assert(varint_bytes(2) =~= seq![2u8]);
    assert(varint_bytes(3) =~= seq![3u8]);
    assert(handshake_body(v)->Ok_0.drop_last() =~= pre);
    let vs = HandshakeView {
        protocol_version: v.protocol_version,
        server_address: v.server_address,
        server_port: v.server_port,
        next_state: NextState::Status,
    };
    let vl = HandshakeView { next_state: NextState::Login, ..vs };
    let vt = HandshakeView { next_state: NextState::Transfer, ..vs };
    assert(handshake_body(vs)->Ok_0 =~= pre + seq![1u8]);
    assert(handshake_body(vl)->Ok_0 =~= pre + seq![2u8]);
    assert(handshake_body(vt)->Ok_0 =~= pre + seq![3u8]);
    Handshake::lemma_body_roundtrip(vs, rest);
    Handshake::lemma_body_roundtrip(vl, rest);
    Handshake::lemma_body_roundtrip(vt, rest);
}

} // verus!
