//! Packet trait and uncompressed framing (`[length][id][body]`).

use vstd::prelude::*;
use vstd::slice::{slice_subrange, slice_to_vec};

use crate::protocol::codec::append_bytes;
use crate::protocol::error::{eof, Error, IoError};
use crate::protocol::varint::{
    lemma_leb128_taken, lemma_parse_varint_len, lemma_varint_roundtrip, parse_varint, varint_taken,
    read_varint, varint_bytes, write_varint,
};

verus! {

/// Largest allowed frame: the length prefix is at most 3 bytes (2^21 - 1).
pub const MAX_FRAME_LEN: usize = 2_097_151;

/// A single packet with a fixed id in a fixed state and direction.
///
/// A packet is described by its view: `encode_body` says what `write_body` writes for a
/// value, `parse_body` what `read_body` reads from a byte sequence, and
/// `lemma_body_roundtrip` that reading gives back what writing wrote.
pub trait Packet: Sized + View {
    /// Packet id (a VarInt on the wire).
    const ID: i32;

    /// The packet id, with its value open to other modules.
    spec fn spec_id() -> i32;

    /// `ID` is `spec_id()`.
    proof fn lemma_id()
        ensures
            Self::ID == Self::spec_id(),
    ;

    /// The body `write_body` writes for `v`, or the error it returns.
    spec fn encode_body(v: Self::V) -> Result<Seq<u8>, Error>;

    /// The value `read_body` reads from the front of `s` and the number of bytes it
    /// takes, or the error it returns.
    spec fn parse_body(s: Seq<u8>) -> Result<(Self::V, nat), Error>;

    /// How many bytes `read_body` takes from the front of `s` when it fails: what its
    /// readers took before the error showed, as from a stream.
    spec fn read_taken(s: Seq<u8>) -> nat;

    /// The values that `read_body` accepts back once they are written (its limits on
    /// lengths and counts).
    spec fn within_read_limits(v: Self::V) -> bool;

    /// Writes the body, without length prefix and id. On an error, what was written
    /// before stays in place (the fields before the faulty one may follow it).
    fn write_body(&self, w: &mut Vec<u8>) -> (res: Result<(), Error>)
        ensures
            match Self::encode_body(self@) {
                Ok(b) => res is Ok && final(w)@ == old(w)@ + b,
                Err(e) => res == Err::<(), Error>(e),
            },
            old(w)@.is_prefix_of(final(w)@),
    ;

    /// Reads the body, without length prefix and id, advancing `r` past it. On an error
    /// `r` has lost what was read before the error showed (`read_taken`).
    fn read_body(r: &mut &[u8]) -> (res: Result<Self, Error>)
        ensures
            match Self::parse_body(old(r)@) {
                Ok((v, n)) => res matches Ok(p) && p@ == v && final(r)@ == old(r)@.skip(n as int),
                Err(e) => res matches Err(x) && x == e && final(r)@ == old(r)@.skip(
                    Self::read_taken(old(r)@) as int,
                ),
            },
    ;

    /// A body takes no more bytes than there are.
    proof fn lemma_parse_body_len(s: Seq<u8>)
        ensures
            Self::parse_body(s) matches Ok((v, n)) ==> n <= s.len(),
    ;

    /// Reading a written body gives the value back and takes exactly its bytes, whatever
    /// follows them.
    proof fn lemma_body_roundtrip(v: Self::V, rest: Seq<u8>)
        requires
            Self::encode_body(v) is Ok,
            Self::within_read_limits(v),
        ensures
            Self::parse_body(Self::encode_body(v)->Ok_0 + rest) == Ok::<(Self::V, nat), Error>(
                (v, Self::encode_body(v)->Ok_0.len()),
            ),
    ;
}

/// The payload (`[id][body]`) of a frame for the packet `v`.
pub open spec fn frame_payload<P: Packet>(v: P::V) -> Result<Seq<u8>, Error> {
    match P::encode_body(v) {
        Ok(b) => Ok(varint_bytes(P::ID) + b),
        Err(e) => Err(e),
    }
}

/// A complete frame (`[length][id][body]`) for the packet `v`, or the error `encode`
/// returns.
pub open spec fn encode_frame<P: Packet>(v: P::V) -> Result<Seq<u8>, Error> {
    match frame_payload::<P>(v) {
        Err(e) => Err(e),
        Ok(p) => if p.len() > MAX_FRAME_LEN {
            Err(Error::FrameTooLarge { len: p.len() as usize, max: MAX_FRAME_LEN })
        } else {
            Ok(varint_bytes(p.len() as i32) + p)
        },
    }
}

/// One frame at the front of `s`: its payload and the number of bytes the whole frame
/// takes.
pub open spec fn parse_frame(s: Seq<u8>) -> Result<(Seq<u8>, nat), Error> {
    match parse_varint(s) {
        Err(e) => Err(e),
        Ok((len, n)) => if len < 0 {
            Err(Error::NegativeLength(len))
        } else if len > MAX_FRAME_LEN {
            Err(Error::FrameTooLarge { len: len as usize, max: MAX_FRAME_LEN })
        } else if s.len() < n + len {
            Err(eof())
        } else {
            Ok((s.subrange(n as int, n + len), n + len as nat))
        },
    }
}

/// How many bytes `read_frame` takes from the front of `s`, whether it succeeds or not:
/// what the length prefix took; after a refused length only the prefix; when the input
/// ends inside the frame all of it; else the whole frame.
pub open spec fn frame_taken(s: Seq<u8>) -> nat {
    match parse_varint(s) {
        Err(_) => varint_taken(s),
        Ok((len, n)) => if len < 0 || len > MAX_FRAME_LEN {
            n
        } else if s.len() < n + len {
            s.len()
        } else {
            n + len as nat
        },
    }
}

/// `read_frame` takes no more bytes than there are.
pub proof fn lemma_frame_taken(s: Seq<u8>)
    ensures
        frame_taken(s) <= s.len(),
        parse_frame(s) matches Ok((p, n)) ==> frame_taken(s) == n,
{
    lemma_leb128_taken(s, 5);
    lemma_parse_varint_len(s);
}

/// A packet `P` read from a frame payload: the id must be `P::ID` and the body must take
/// the rest of the payload exactly.
pub open spec fn decode_payload<P: Packet>(payload: Seq<u8>) -> Result<P::V, Error> {
    match parse_varint(payload) {
        Err(e) => Err(e),
        Ok((id, n)) => if id != P::ID {
            Err(Error::UnexpectedPacketId { expected: P::ID, got: id })
        } else {
            decode_body::<P>(payload.skip(n as int))
        },
    }
}

/// A packet `P` read from a body that must be taken whole.
pub open spec fn decode_body<P: Packet>(body: Seq<u8>) -> Result<P::V, Error> {
    match P::parse_body(body) {
        Err(e) => Err(e),
        Ok((v, m)) => if m != body.len() {
            Err(Error::TrailingBytes((body.len() - m) as usize))
        } else {
            Ok(v)
        },
    }
}

/// Encodes a packet into a complete frame: `[length][id][body]`.
pub fn encode<P: Packet>(packet: &P) -> (res: Result<Vec<u8>, Error>)
    ensures
        match encode_frame::<P>(packet@) {
            Ok(b) => res matches Ok(v) && v@ == b,
            Err(e) => res matches Err(x) && x == e,
        },
{
    let mut payload: Vec<u8> = Vec::new();
    let _ = write_varint(&mut payload, P::ID);
    match packet.write_body(&mut payload) {
        Ok(()) => {},
        Err(e) => return Err(e),
    }
    if payload.len() > MAX_FRAME_LEN {
        return Err(Error::FrameTooLarge { len: payload.len(), max: MAX_FRAME_LEN });
    }
    let mut out: Vec<u8> = Vec::new();
    let _ = write_varint(&mut out, payload.len() as i32);
    append_bytes(&mut out, payload.as_slice());
    assert(payload@ =~= varint_bytes(P::ID) + P::encode_body(packet@)->Ok_0);
    Ok(out)
}

/// Reads one frame and returns its payload (`[id][body]`), without the length prefix,
/// advancing `r` past the frame. On an error `r` has lost what was read before the error
/// showed (`frame_taken`), as from a stream.
pub fn read_frame(r: &mut &[u8]) -> (res: Result<Vec<u8>, Error>)
    ensures
        match parse_frame(old(r)@) {
            Ok((p, n)) => res matches Ok(v) && v@ == p && final(r)@ == old(r)@.skip(n as int),
            Err(e) => res matches Err(x) && x == e && final(r)@ == old(r)@.skip(
                frame_taken(old(r)@) as int,
            ),
        },
{
    let ghost s = r@;
    let mut cur: &[u8] = *r;
    let len = match read_varint(&mut cur) {
        Ok(len) => len,
        Err(e) => {
            *r = cur;
            return Err(e);
        },
    };
    proof {
        lemma_parse_varint_len(s);
    }
    let ghost n = parse_varint(s)->Ok_0.1;
    if len < 0 {
        *r = cur;
        return Err(Error::NegativeLength(len));
    }
    let len = len as usize;
    if len > MAX_FRAME_LEN {
        *r = cur;
        return Err(Error::FrameTooLarge { len, max: MAX_FRAME_LEN });
    }
    if cur.len() < len {
        *r = slice_subrange(cur, cur.len(), cur.len());
        assert(r@ =~= s.skip(s.len() as int));
        return Err(Error::Io(IoError::UnexpectedEof));
    }
    let buf = slice_to_vec(slice_subrange(cur, 0, len));
    assert(buf@ =~= s.subrange(n as int, n + len));
    *r = slice_subrange(cur, len, cur.len());
    assert(r@ =~= s.skip(n + len));
    Ok(buf)
}

/// Decodes a frame payload (`[id][body]`) as the packet `P`.
pub fn decode<P: Packet>(payload: &[u8]) -> (res: Result<P, Error>)
    ensures
        match decode_payload::<P>(payload@) {
            Ok(v) => res matches Ok(p) && p@ == v,
            Err(e) => res matches Err(x) && x == e,
        },
{
    let mut cur: &[u8] = payload;
    let id = match read_varint(&mut cur) {
        Ok(id) => id,
        Err(e) => return Err(e),
    };
    if id != P::ID {
        return Err(Error::UnexpectedPacketId { expected: P::ID, got: id });
    }
    decode_whole_body::<P>(cur)
}

/// Reads the body of `P` from `body`, which it must take whole.
pub fn decode_whole_body<P: Packet>(body: &[u8]) -> (res: Result<P, Error>)
    ensures
        match decode_body::<P>(body@) {
            Ok(v) => res matches Ok(p) && p@ == v,
            Err(e) => res matches Err(x) && x == e,
        },
{
    let mut cur: &[u8] = body;
    let packet = match P::read_body(&mut cur) {
        Ok(p) => p,
        Err(e) => return Err(e),
    };
    proof {
        P::lemma_parse_body_len(body@);
    }
    let rest = cur.len();
    if rest != 0 {
        return Err(Error::TrailingBytes(rest));
    }
    Ok(packet)
}

/// A frame written by `encode` is read whole by `read_frame`, whatever follows it, and
/// its payload is the id and body of the packet.
pub proof fn lemma_frame_roundtrip<P: Packet>(v: P::V, rest: Seq<u8>)
    requires
        encode_frame::<P>(v) is Ok,
    ensures
        parse_frame(encode_frame::<P>(v)->Ok_0 + rest) == Ok::<(Seq<u8>, nat), Error>(
            (frame_payload::<P>(v)->Ok_0, encode_frame::<P>(v)->Ok_0.len()),
        ),
{
    let p = frame_payload::<P>(v)->Ok_0;
    let len = p.len() as i32;
    let s = encode_frame::<P>(v)->Ok_0 + rest;
    assert(s =~= varint_bytes(len) + (p + rest));
    lemma_varint_roundtrip(len, p + rest);
    let n = varint_bytes(len).len();
    assert(s.subrange(n as int, n + len) =~= p);
}

/// Decoding the payload of a frame written by `encode` gives back the packet, as long as
/// the packet is within the limits its reader enforces.
pub proof fn lemma_payload_roundtrip<P: Packet>(v: P::V)
    requires
        P::encode_body(v) is Ok,
        P::within_read_limits(v),
    ensures
        decode_payload::<P>(frame_payload::<P>(v)->Ok_0) == Ok::<P::V, Error>(v),
{
    let b = P::encode_body(v)->Ok_0;
    let p = frame_payload::<P>(v)->Ok_0;
    lemma_varint_roundtrip(P::ID, b);
    assert(p.skip(varint_bytes(P::ID).len() as int) =~= b);
    P::lemma_body_roundtrip(v, Seq::empty());
    assert(b + Seq::<u8>::empty() =~= b);
}

/// A body written by `write_body` decodes, taken whole, to the value it was written
/// from, as long as the value is within the limits its reader enforces.
pub proof fn lemma_decode_body_roundtrip<P: Packet>(v: P::V)
    requires
        P::encode_body(v) is Ok,
        P::within_read_limits(v),
    ensures
        decode_body::<P>(P::encode_body(v)->Ok_0) == Ok::<P::V, Error>(v),
{
    let b = P::encode_body(v)->Ok_0;
    P::lemma_body_roundtrip(v, Seq::empty());
    assert(b + Seq::<u8>::empty() =~= b);
}

} // verus!
