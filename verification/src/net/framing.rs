//! Packet framing with optional zlib compression.
//!
//! Without compression a frame is `[length][id][body]`. Once the server has sent Set
//! Compression, every frame is `[length][data length][id + body]`, where the part after
//! the data length is zlib-compressed if the packet reached the threshold, and the data
//! length is `0` for packets that were sent uncompressed.

use std::io::{Read, Write};

use vstd::prelude::*;

use crate::net::error::Error;
use crate::protocol::codec::append_bytes;
use crate::protocol::error::Error as ProtocolError;
use crate::protocol::packet::{
    decode_body, decode_whole_body, encode_frame, frame_taken, parse_frame, read_frame, Packet,
    MAX_FRAME_LEN,
};
use crate::protocol::varint::{
    lemma_parse_varint_len, lemma_varint_len_bound, lemma_varint_roundtrip, parse_varint,
    read_varint, varint_bytes, varint_len, write_varint,
};

verus! {

/// Upper bound for the size of a decompressed packet (protects against zip bombs).
pub const MAX_DECOMPRESSED_LEN: usize = 32 * 1024 * 1024;

/// The zlib stream (default compression level) that `flate2` produces for `data`.
pub uninterp spec fn zlib_compressed(data: Seq<u8>) -> Seq<u8>;

/// What `flate2`'s zlib decoder yields for `data` when at most `limit` bytes of output
/// are read: the bytes, or `None` when decoding fails.
pub uninterp spec fn zlib_inflated(data: Seq<u8>, limit: nat) -> Option<Seq<u8>>;

/// Compresses `data` into a zlib stream.
///
/// Trusted: calls `flate2::write::ZlibEncoder` (default level) over a vector, which
/// cannot fail. The contract claims that the result is determined by `data` and that the
/// `flate2` decoder gives `data` back from it when it may read more than `data.len()`
/// bytes: zlib is lossless.
#[verifier::external_body]
fn zlib_compress(data: &[u8]) -> (out: Vec<u8>)
    ensures
        out@ == zlib_compressed(data@),
        forall|limit: nat|
            limit > data@.len() ==> #[trigger] zlib_inflated(out@, limit) == Some(data@),
{
    let mut enc = flate2::write::ZlibEncoder::new(Vec::new(), flate2::Compression::default());
    let _ = enc.write_all(data);
    enc.finish().unwrap_or_default()
}

/// Decompresses the zlib stream at the front of `data`, reading at most `limit` bytes of
/// output.
///
/// Trusted: calls `flate2::read::ZlibDecoder` through `Read::take(limit)` and
/// `read_to_end`; an error of the decoder becomes `None`. The contract claims that the
/// result is determined by `data` and `limit`, and (from `take`) that it holds at most
/// `limit` bytes.
#[verifier::external_body]
fn zlib_decompress(data: &[u8], limit: u64) -> (res: Option<Vec<u8>>)
    ensures
        match zlib_inflated(data@, limit as nat) {
            Some(x) => res matches Some(v) && v@ == x,
            None => res is None,
        },
        res matches Some(v) ==> v@.len() <= limit,
{
    let mut out = Vec::new();
    let mut dec = flate2::read::ZlibDecoder::new(data).take(limit);
    match dec.read_to_end(&mut out) {
        Ok(_) => Some(out),
        Err(_) => None,
    }
}

/// A packet with its id, as it travels between the connection and the game.
#[derive(Debug, Clone, PartialEq, Eq)]
pub struct RawPacket {
    pub id: i32,
    pub body: Vec<u8>,
}

impl View for RawPacket {
    type V = (i32, Seq<u8>);

    open spec fn view(&self) -> (i32, Seq<u8>) {
        (self.id, self.body@)
    }
}

/// `[id][body]` of a raw packet.
pub open spec fn raw_payload(p: (i32, Seq<u8>)) -> Seq<u8> {
    varint_bytes(p.0) + p.1
}

/// A protocol error as an error of this layer.
pub open spec fn protocol_err<T>(r: Result<T, ProtocolError>) -> Result<T, Error> {
    match r {
        Ok(v) => Ok(v),
        Err(e) => Err(Error::Protocol(e)),
    }
}

impl RawPacket {
    pub fn new(id: i32, body: Vec<u8>) -> (p: Self)
        ensures
            p@ == (id, body@),
    {
        Self { id, body }
    }

    /// Builds a raw packet from a typed one.
    pub fn of<P: Packet>(packet: &P) -> (res: Result<Self, Error>)
        ensures
            match P::encode_body(packet@) {
                Ok(b) => res matches Ok(p) && p@ == (P::ID, b),
                Err(e) => res matches Err(Error::Protocol(x)) && x == e,
            },
    {
        let mut body: Vec<u8> = Vec::new();
        match packet.write_body(&mut body) {
            Ok(()) => {},
            Err(e) => return Err(Error::Protocol(e)),
        }
        assert(body@ =~= Seq::<u8>::empty() + P::encode_body(packet@)->Ok_0);
        Ok(Self { id: P::ID, body })
    }

    /// Decodes the body as `P`, checking the id and that no bytes are left over.
    pub fn decode<P: Packet>(&self) -> (res: Result<P, Error>)
        ensures
            self.id != P::ID ==> (res matches Err(Error::Protocol(x)) && x
                == (ProtocolError::UnexpectedPacketId { expected: P::ID, got: self.id })),
            self.id == P::ID ==> (match decode_body::<P>(self.body@) {
                Ok(v) => res matches Ok(p) && p@ == v,
                Err(e) => res matches Err(Error::Protocol(x)) && x == e,
            }),
    {
        if self.id != P::ID {
            return Err(
                Error::Protocol(ProtocolError::UnexpectedPacketId { expected: P::ID, got: self.id }),
            );
        }
        match decode_whole_body::<P>(self.body.as_slice()) {
            Ok(p) => Ok(p),
            Err(e) => Err(Error::Protocol(e)),
        }
    }

    /// `[id][body]`.
    fn payload(&self) -> (out: Vec<u8>)
        ensures
            out@ == raw_payload(self@),
    {
        let mut out: Vec<u8> = Vec::new();
        let _ = write_varint(&mut out, self.id);
        append_bytes(&mut out, self.body.as_slice());
        assert(out@ =~= raw_payload(self@));
        out
    }
}

/// Compression setting of a connection: `None` means disabled.
pub type Threshold = Option<usize>;

/// The threshold a Set Compression value sets: a negative value disables compression.
pub open spec fn threshold_of(value: i32) -> Option<usize> {
    if value < 0 {
        None
    } else {
        Some(value as usize)
    }
}

/// Converts the value of a Set Compression packet into a [`Threshold`].
pub fn threshold_from_packet(value: i32) -> (t: Option<usize>)
    ensures
        t == threshold_of(value),
{
    if value < 0 {
        None
    } else {
        Some(value as usize)
    }
}

/// The part of a frame after its length prefix: the payload itself without compression;
/// with compression the uncompressed length and the zlib stream when the payload reaches
/// the threshold, else `0` and the payload.
pub open spec fn spec_frame_body(payload: Seq<u8>, threshold: Option<usize>) -> Seq<u8> {
    match threshold {
        None => payload,
        Some(t) => if payload.len() >= t {
            varint_bytes(payload.len() as i32) + zlib_compressed(payload)
        } else {
            varint_bytes(0) + payload
        },
    }
}

/// The frame for a frame body: its length as a VarInt, then the body; or
/// `FrameTooLarge` when the body is longer than `MAX_FRAME_LEN`.
pub open spec fn frame_of_body(body: Seq<u8>) -> Result<Seq<u8>, Error> {
    if body.len() > MAX_FRAME_LEN {
        Err(
            Error::Protocol(
                ProtocolError::FrameTooLarge { len: body.len() as usize, max: MAX_FRAME_LEN },
            ),
        )
    } else {
        Ok(varint_bytes(body.len() as i32) + body)
    }
}

/// The frame `write_packet` writes for `p`, or its error.
pub open spec fn packet_frame(p: (i32, Seq<u8>), threshold: Option<usize>) -> Result<
    Seq<u8>,
    Error,
> {
    frame_of_body(spec_frame_body(raw_payload(p), threshold))
}

/// The frame body of a compressed packet: the uncompressed length as a VarInt, then the
/// zlib stream.
pub fn compressed_frame_body(data_len: usize, compressed: &[u8]) -> (body: Vec<u8>)
    ensures
        body@ == varint_bytes(data_len as i32) + compressed@,
{
    let mut body: Vec<u8> = Vec::new();
    let _ = write_varint(&mut body, data_len as i32);
    append_bytes(&mut body, compressed);
    body
}

/// Writes the frame for a frame body at the end of `w`: its length as a VarInt, then the
/// body. When the body is too long, nothing is written.
pub fn write_frame_body(w: &mut Vec<u8>, body: &[u8]) -> (res: Result<(), Error>)
    ensures
        match frame_of_body(body@) {
            Ok(f) => res is Ok && final(w)@ == old(w)@ + f,
            Err(e) => res matches Err(Error::Protocol(x)) && e == Error::Protocol(x) && final(w)@
                == old(w)@,
        },
{
    if body.len() > MAX_FRAME_LEN {
        return Err(
            Error::Protocol(ProtocolError::FrameTooLarge { len: body.len(), max: MAX_FRAME_LEN }),
        );
    }
    proof {
        lemma_varint_len_bound(body.len() as i32);
    }
    let mut out: Vec<u8> = Vec::with_capacity(varint_len(body.len() as i32) + body.len());
    let _ = write_varint(&mut out, body.len() as i32);
    append_bytes(&mut out, body);
    append_bytes(w, out.as_slice());
    assert(w@ =~= old(w)@ + frame_of_body(body@)->Ok_0);
    Ok(())
}

/// Writes one packet at the end of `w`, compressing it if it reaches the threshold.
/// When the frame would be too large, nothing is written.
pub fn write_packet(w: &mut Vec<u8>, packet: &RawPacket, threshold: Option<usize>) -> (res:
    Result<(), Error>)
    ensures
        match packet_frame(packet@, threshold) {
            Ok(f) => res is Ok && final(w)@ == old(w)@ + f,
            Err(e) => res matches Err(Error::Protocol(x)) && e == Error::Protocol(x) && final(w)@
                == old(w)@,
        },
        // a compressed payload inflates back to itself
        (threshold matches Some(t) && raw_payload(packet@).len() >= t) ==> zlib_inflated(
            zlib_compressed(raw_payload(packet@)),
            raw_payload(packet@).len() + 1,
        ) == Some(raw_payload(packet@)),
        // reading the frame back gives the packet
        res is Ok && raw_payload(packet@).len() <= MAX_DECOMPRESSED_LEN ==> parse_packet(
            packet_frame(packet@, threshold)->Ok_0,
            threshold is Some,
        ) == Ok::<((i32, Seq<u8>), nat), Error>(
            (packet@, packet_frame(packet@, threshold)->Ok_0.len()),
        ),
{
    let payload = packet.payload();
    let frame_body = match threshold {
        None => payload,
        Some(t) => {
            if payload.len() >= t {
                let compressed = zlib_compress(payload.as_slice());
                assert(zlib_inflated(compressed@, payload@.len() + 1) == Some(payload@));
                compressed_frame_body(payload.len(), compressed.as_slice())
            } else {
                let mut body: Vec<u8> = Vec::new();
                let _ = write_varint(&mut body, 0);
                append_bytes(&mut body, payload.as_slice());
                body
            }
        },
    };
    assert(frame_body@ =~= spec_frame_body(raw_payload(packet@), threshold));
    let res = write_frame_body(w, frame_body.as_slice());
    proof {
        if res is Ok && raw_payload(packet@).len() <= MAX_DECOMPRESSED_LEN {
            let f = packet_frame(packet@, threshold)->Ok_0;
            lemma_packet_roundtrip(packet@, threshold, Seq::empty());
            assert(f + Seq::<u8>::empty() =~= f);
        }
    }
    res
}

/// The payload (`[id][body]`) that a frame body carries: the frame body itself without
/// compression; with compression the bytes after the data length when that is `0`, else
/// the decompressed bytes, which must be exactly as many as announced.
pub open spec fn frame_payload_of(frame: Seq<u8>, compression: bool) -> Result<Seq<u8>, Error> {
    if !compression {
        Ok(frame)
    } else {
        match parse_varint(frame) {
            Err(e) => Err(Error::Protocol(e)),
            Ok((data_len, n)) => {
                let rest = frame.skip(n as int);
                if data_len == 0 {
                    Ok(rest)
                } else if data_len < 0 || data_len > MAX_DECOMPRESSED_LEN {
                    Err(Error::BadCompression)
                } else {
                    inflated_payload(data_len as nat, zlib_inflated(rest, (data_len + 1) as nat))
                }
            },
        }
    }
}

/// The payload of a compressed frame once its zlib stream was inflated: the bytes, which
/// must be exactly `data_len` many.
pub open spec fn inflated_payload(data_len: nat, inflated: Option<Seq<u8>>) -> Result<
    Seq<u8>,
    Error,
> {
    match inflated {
        None => Err(Error::BadCompression),
        Some(out) => if out.len() != data_len {
            Err(Error::BadCompression)
        } else {
            Ok(out)
        },
    }
}

/// A raw packet from a payload: its id (VarInt) and the rest as body.
pub open spec fn raw_packet_of(payload: Seq<u8>) -> Result<(i32, Seq<u8>), Error> {
    match parse_varint(payload) {
        Err(e) => Err(Error::Protocol(e)),
        Ok((id, n)) => Ok((id, payload.skip(n as int))),
    }
}

/// The packet `read_packet` reads from the front of `s` and the bytes its frame takes.
pub open spec fn parse_packet(s: Seq<u8>, compression: bool) -> Result<
    ((i32, Seq<u8>), nat),
    Error,
> {
    match parse_frame(s) {
        Err(e) => Err(Error::Protocol(e)),
        Ok((frame, n)) => match frame_payload_of(frame, compression) {
            Err(e) => Err(e),
            Ok(payload) => match raw_packet_of(payload) {
                Err(e) => Err(e),
                Ok(p) => Ok((p, n)),
            },
        },
    }
}

/// Splits `[id][body]` into a raw packet.
fn split_payload(payload: &[u8]) -> (res: Result<RawPacket, Error>)
    ensures
        match raw_packet_of(payload@) {
            Ok(p) => res matches Ok(rp) && rp@ == p,
            Err(e) => res matches Err(Error::Protocol(x)) && e == Error::Protocol(x),
        },
{
    let mut cur: &[u8] = payload;
    match read_varint(&mut cur) {
        Ok(id) => {
            let mut body: Vec<u8> = Vec::new();
            append_bytes(&mut body, cur);
            assert(body@ =~= cur@);
            Ok(RawPacket { id, body })
        },
        Err(e) => Err(Error::Protocol(e)),
    }
}

/// The raw packet of a compressed frame once its zlib stream was inflated (`None` when
/// inflating failed): the inflated bytes must be exactly `data_len` many.
pub fn raw_packet_from_inflated(data_len: usize, inflated: Option<Vec<u8>>) -> (res: Result<
    RawPacket,
    Error,
>)
    ensures
        match inflated_payload(
            data_len as nat,
            match inflated {
                Some(v) => Some(v@),
                None => None,
            },
        ) {
            Ok(payload) => match raw_packet_of(payload) {
                Ok(p) => res matches Ok(rp) && rp@ == p,
                Err(e) => res matches Err(x) && x == e,
            },
            Err(e) => res matches Err(x) && x == e,
        },
{
    let out = match inflated {
        Some(out) => out,
        None => return Err(Error::BadCompression),
    };
    if out.len() != data_len {
        return Err(Error::BadCompression);
    }
    split_payload(out.as_slice())
}

/// Reads one packet from the front of `r`, decompressing it if compression is enabled,
/// and advances `r` past its frame. On an error `r` has lost what reading the frame took
/// (`frame_taken`), as from a stream; when the frame was read but its content is bad, the
/// whole frame.
pub fn read_packet(r: &mut &[u8], compression: bool) -> (res: Result<RawPacket, Error>)
    ensures
        match parse_packet(old(r)@, compression) {
            Ok((p, n)) => res matches Ok(rp) && rp@ == p && final(r)@ == old(r)@.skip(n as int),
            Err(e) => res matches Err(x) && x == e,
        },
        parse_frame(old(r)@) is Err ==> final(r)@ == old(r)@.skip(frame_taken(old(r)@) as int),
        parse_frame(old(r)@) matches Ok((f, n)) ==> final(r)@ == old(r)@.skip(n as int),
{
    let frame = match read_frame(r) {
        Ok(f) => f,
        Err(e) => return Err(Error::Protocol(e)),
    };
    if !compression {
        return split_payload(frame.as_slice());
    }
    let mut cur: &[u8] = frame.as_slice();
    let data_len = match read_varint(&mut cur) {
        Ok(d) => d,
        Err(e) => return Err(Error::Protocol(e)),
    };
    proof {
        lemma_parse_varint_len(frame@);
    }
    if data_len == 0 {
        return split_payload(cur);
    }
    if data_len < 0 {
        return Err(Error::BadCompression);
    }
    let data_len = data_len as usize;
    if data_len > MAX_DECOMPRESSED_LEN {
        return Err(Error::BadCompression);
    }
    let inflated = zlib_decompress(cur, data_len as u64 + 1);
    raw_packet_from_inflated(data_len, inflated)
}

/// Without compression, `write_packet` frames the raw form of a packet exactly as
/// `encode` frames the packet itself.
pub proof fn lemma_uncompressed_frame_is_encode<P: Packet>(v: P::V)
    requires
        P::encode_body(v) is Ok,
    ensures
        packet_frame((P::ID, P::encode_body(v)->Ok_0), None) == protocol_err(
            encode_frame::<P>(v),
        ),
{
}

/// The frame of `p` is read back as `p`, whatever follows it, given that the zlib decoder
/// gives back what the encoder compressed (which `write_packet` states of the frames it
/// writes).
pub proof fn lemma_packet_roundtrip(p: (i32, Seq<u8>), threshold: Option<usize>, rest: Seq<u8>)
    requires
        packet_frame(p, threshold) is Ok,
        raw_payload(p).len() <= MAX_DECOMPRESSED_LEN,
        threshold matches Some(t) && raw_payload(p).len() >= t ==> zlib_inflated(
            zlib_compressed(raw_payload(p)),
            raw_payload(p).len() + 1,
        ) == Some(raw_payload(p)),
    ensures
        parse_packet(packet_frame(p, threshold)->Ok_0 + rest, threshold is Some) == Ok::<
            ((i32, Seq<u8>), nat),
            Error,
        >((p, packet_frame(p, threshold)->Ok_0.len())),
{
    let payload = raw_payload(p);
    let body = spec_frame_body(payload, threshold);
    let f = packet_frame(p, threshold)->Ok_0;
    let len = body.len() as i32;
    assert(f + rest =~= varint_bytes(len) + (body + rest));
    lemma_varint_roundtrip(len, body + rest);
    let n = varint_bytes(len).len();
    assert((f + rest).subrange(n as int, n + len) =~= body);
    assert(parse_frame(f + rest) == Ok::<(Seq<u8>, nat), ProtocolError>((body, f.len())));
    lemma_varint_roundtrip(p.0, p.1);
    assert(payload.skip(varint_bytes(p.0).len() as int) =~= p.1);
    match threshold {
        None => {},
        Some(t) => {
            if payload.len() >= t {
                let dl = payload.len() as i32;
                let z = zlib_compressed(payload);
                lemma_varint_roundtrip(dl, z);
                assert(body.skip(varint_bytes(dl).len() as int) =~= z);
                lemma_varint_len_bound(p.0);
            } else {
                lemma_varint_roundtrip(0, payload);
                assert(body.skip(varint_bytes(0).len() as int) =~= payload);
            }
        },
    }
}

} // verus!
