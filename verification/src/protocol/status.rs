//! Status ("server list ping") packets.

use vstd::prelude::*;

use crate::protocol::codec::{
    be_bytes, be_value, lemma_be_bytes_len, lemma_be_roundtrip, pow256, lemma_pow256_values, encode_string, lemma_i64_roundtrip, lemma_parse_string_len, string_taken, lemma_string_roundtrip_limited, parse_be,
    parse_string, read_i64, read_string, write_i64, write_string,
};
use crate::protocol::error::{eof, Error};
use crate::protocol::packet::Packet;

verus! {

/// Maximum length of the status JSON string.
pub const MAX_STATUS_JSON_CHARS: usize = 32_767;

/// Serverbound status request (id 0x00, empty body).
#[derive(Debug, Clone, Copy, PartialEq, Eq, Default)]
pub struct StatusRequest;

impl View for StatusRequest {
    type V = ();

    open spec fn view(&self) -> () {
        ()
    }
}

impl Packet for StatusRequest {
    const ID: i32 = 0x00;

    open spec fn spec_id() -> i32 {
        0x00
    }

    proof fn lemma_id() {
    }

    open spec fn encode_body(v: ()) -> Result<Seq<u8>, Error> {
        Ok(Seq::empty())
    }

    open spec fn parse_body(s: Seq<u8>) -> Result<((), nat), Error> {
        Ok(((), 0))
    }

    open spec fn read_taken(s: Seq<u8>) -> nat {
        0
    }

    open spec fn within_read_limits(v: ()) -> bool {
        true
    }

    fn write_body(&self, w: &mut Vec<u8>) -> (res: Result<(), Error>) {
        assert(w@ =~= w@ + Seq::<u8>::empty());
        Ok(())
    }

    fn read_body(r: &mut &[u8]) -> (res: Result<Self, Error>) {
        assert(r@ =~= r@.skip(0));
        Ok(StatusRequest)
    }

    proof fn lemma_parse_body_len(s: Seq<u8>) {
    }

    proof fn lemma_body_roundtrip(v: (), rest: Seq<u8>) {
    }
}

/// Clientbound status response (id 0x00). The JSON is kept as raw text; parsing it is
/// left to the caller.
#[derive(Debug, Clone, PartialEq, Eq)]
pub struct StatusResponse {
    pub json: String,
}

impl View for StatusResponse {
    type V = Seq<char>;

    open spec fn view(&self) -> Seq<char> {
        self.json@
    }
}

impl Packet for StatusResponse {
    const ID: i32 = 0x00;

    open spec fn spec_id() -> i32 {
        0x00
    }

    proof fn lemma_id() {
    }

    open spec fn encode_body(v: Seq<char>) -> Result<Seq<u8>, Error> {
        encode_string(v, MAX_STATUS_JSON_CHARS)
    }

    open spec fn parse_body(s: Seq<u8>) -> Result<(Seq<char>, nat), Error> {
        parse_string(s, MAX_STATUS_JSON_CHARS)
    }

    open spec fn read_taken(s: Seq<u8>) -> nat {
        string_taken(s, MAX_STATUS_JSON_CHARS)
    }

    open spec fn within_read_limits(v: Seq<char>) -> bool {
        true
    }

    fn write_body(&self, w: &mut Vec<u8>) -> (res: Result<(), Error>) {
        write_string(w, self.json.as_str(), MAX_STATUS_JSON_CHARS)
    }

    fn read_body(r: &mut &[u8]) -> (res: Result<Self, Error>) {
        match read_string(r, MAX_STATUS_JSON_CHARS) {
            Ok(json) => Ok(StatusResponse { json }),
            Err(e) => Err(e),
        }
    }

    proof fn lemma_parse_body_len(s: Seq<u8>) {
        lemma_parse_string_len(s, MAX_STATUS_JSON_CHARS);
    }

    proof fn lemma_body_roundtrip(v: Seq<char>, rest: Seq<u8>) {
        lemma_string_roundtrip_limited(v, MAX_STATUS_JSON_CHARS, rest);
    }
}

/// Serverbound ping request (id 0x01).
#[derive(Debug, Clone, Copy, PartialEq, Eq)]
pub struct PingRequest {
    pub payload: i64,
}

impl View for PingRequest {
    type V = i64;

    open spec fn view(&self) -> i64 {
        self.payload
    }
}

/// The body of a ping or pong: the payload as a big-endian `i64`.
pub open spec fn payload_bytes(v: i64) -> Seq<u8> {
    be_bytes((v as u64) as nat, 8)
}

/// A ping or pong body at the front of `s`.
pub open spec fn parse_payload(s: Seq<u8>) -> Result<(i64, nat), Error> {
    match parse_be(s, 8) {
        Ok(x) => Ok(((x as u64) as i64, 8)),
        Err(e) => Err(e),
    }
}

impl Packet for PingRequest {
    const ID: i32 = 0x01;

    open spec fn spec_id() -> i32 {
        0x01
    }

    proof fn lemma_id() {
    }

    open spec fn encode_body(v: i64) -> Result<Seq<u8>, Error> {
        Ok(payload_bytes(v))
    }

    open spec fn parse_body(s: Seq<u8>) -> Result<(i64, nat), Error> {
        parse_payload(s)
    }

    open spec fn read_taken(s: Seq<u8>) -> nat {
        s.len()
    }

    open spec fn within_read_limits(v: i64) -> bool {
        true
    }

    fn write_body(&self, w: &mut Vec<u8>) -> (res: Result<(), Error>) {
        write_i64(w, self.payload)
    }

    fn read_body(r: &mut &[u8]) -> (res: Result<Self, Error>) {
        match read_i64(r) {
            Ok(payload) => Ok(PingRequest { payload }),
            Err(e) => Err(e),
        }
    }

    proof fn lemma_parse_body_len(s: Seq<u8>) {
    }

    proof fn lemma_body_roundtrip(v: i64, rest: Seq<u8>) {
        lemma_i64_roundtrip(v, rest);
    }
}

/// Clientbound pong response (id 0x01). The server echoes the ping payload.
#[derive(Debug, Clone, Copy, PartialEq, Eq)]
pub struct PongResponse {
    pub payload: i64,
}

impl View for PongResponse {
    type V = i64;

    open spec fn view(&self) -> i64 {
        self.payload
    }
}

impl Packet for PongResponse {
    const ID: i32 = 0x01;

    open spec fn spec_id() -> i32 {
        0x01
    }

    proof fn lemma_id() {
    }

    open spec fn encode_body(v: i64) -> Result<Seq<u8>, Error> {
        Ok(payload_bytes(v))
    }

    open spec fn parse_body(s: Seq<u8>) -> Result<(i64, nat), Error> {
        parse_payload(s)
    }

    open spec fn read_taken(s: Seq<u8>) -> nat {
        s.len()
    }

    open spec fn within_read_limits(v: i64) -> bool {
        true
    }

    fn write_body(&self, w: &mut Vec<u8>) -> (res: Result<(), Error>) {
        write_i64(w, self.payload)
    }

    fn read_body(r: &mut &[u8]) -> (res: Result<Self, Error>) {
        match read_i64(r) {
            Ok(payload) => Ok(PongResponse { payload }),
            Err(e) => Err(e),
        }
    }

    proof fn lemma_parse_body_len(s: Seq<u8>) {
    }

    proof fn lemma_body_roundtrip(v: i64, rest: Seq<u8>) {
        lemma_i64_roundtrip(v, rest);
    }
}

/// The pong body is the payload as eight big-endian bytes, the same bytes as the ping
/// body, and read back as the payload: its bytes spell `v` as a 64-bit two's complement
/// number, and any eight bytes read as the number they spell.
pub proof fn lemma_pong_body_is_payload(v: i64, s: Seq<u8>)
    ensures
        PongResponse::encode_body(v) == Ok::<Seq<u8>, Error>(be_bytes((v as u64) as nat, 8)),
        PongResponse::encode_body(v) == PingRequest::encode_body(v),
        PongResponse::encode_body(v)->Ok_0.len() == 8,
        be_value(PongResponse::encode_body(v)->Ok_0) == (v as u64) as nat,
        s.len() < 8 ==> PongResponse::parse_body(s) == Err::<(i64, nat), Error>(eof()),
        s.len() >= 8 ==> PongResponse::parse_body(s) == Ok::<(i64, nat), Error>(
            ((be_value(s.take(8)) as u64) as i64, 8),
        ),
        PongResponse::parse_body(PongResponse::encode_body(v)->Ok_0 + s) == Ok::<
            (i64, nat),
            Error,
        >((v, 8)),
{
    let u = (v as u64) as nat;
    lemma_be_bytes_len(u, 8);
    lemma_be_roundtrip(u, 8);
    lemma_pow256_values();
    assert(u % pow256(8) == u);
    PongResponse::lemma_body_roundtrip(v, s);
}

} // verus!
