//! Primitive readers and writers (big-endian numbers, booleans, UUIDs and
//! length-prefixed strings).
//!
//! Readers take the input as `&mut &[u8]` and advance it past what they consumed. They
//! take bytes as a stream reader does: on an error the input has lost what was read
//! before the error showed, and an input that ends too early is consumed to its end.
//! Writers append to a `Vec<u8>`.

use vstd::prelude::*;
use vstd::slice::{slice_subrange, slice_to_vec};
use vstd::utf8::*;

use crate::protocol::error::{eof, Error, IoError};
use crate::protocol::varint::{
    lemma_leb128_taken, lemma_parse_varint_len, lemma_varint_roundtrip, parse_varint, varint_taken, read_varint, varint_bytes, write_varint,
};

verus! {

broadcast use vstd::utf8::encode_utf8_valid_utf8, vstd::utf8::encode_utf8_decode_utf8;

// ---------------------------------------------------------------------------------
// Big-endian numbers
// ---------------------------------------------------------------------------------

/// The number that the bytes `s` spell in big-endian order.
pub open spec fn be_value(s: Seq<u8>) -> nat
    decreases s.len(),
{
    if s.len() == 0 {
        0
    } else {
        be_value(s.drop_last()) * 256 + s.last() as nat
    }
}

/// The lowest `n` bytes of `v` in big-endian order.
pub open spec fn be_bytes(v: nat, n: nat) -> Seq<u8>
    decreases n,
{
    if n == 0 {
        Seq::empty()
    } else {
        be_bytes(v / 256, (n - 1) as nat).push((v % 256) as u8)
    }
}

/// `256` to the power `k`.
pub open spec fn pow256(k: nat) -> nat
    decreases k,
{
    if k == 0 {
        1
    } else {
        256 * pow256((k - 1) as nat)
    }
}

/// An `n`-byte big-endian number at the front of `s`.
pub open spec fn parse_be(s: Seq<u8>, n: nat) -> Result<nat, Error> {
    if s.len() < n {
        Err(eof())
    } else {
        Ok(be_value(s.take(n as int)))
    }
}

proof fn lemma_pow256_mono(a: nat, b: nat)
    requires
        a <= b,
    ensures
        1 <= pow256(a) <= pow256(b),
    decreases b,
{
    if a < b {
        lemma_pow256_mono(a, (b - 1) as nat);
    } else if a > 0 {
        lemma_pow256_mono((a - 1) as nat, (a - 1) as nat);
    }
}

pub proof fn lemma_pow256_values()
    ensures
        pow256(2) == 0x1_0000,
        pow256(8) == 0x1_0000_0000_0000_0000,
        pow256(16) == 0x1_0000_0000_0000_0000_0000_0000_0000_0000,
        pow256(6) == 0x1_0000_0000_0000,
        pow256(7) == 0x100_0000_0000_0000,
        pow256(9) == 0x1_0000_0000_0000_0000_00,
{
    reveal_with_fuel(pow256, 17);
}

/// A big-endian number of `k` bytes is below `256^k`.
pub proof fn lemma_be_value_bound(s: Seq<u8>)
    ensures
        be_value(s) < pow256(s.len()),
    decreases s.len(),
{
    if s.len() > 0 {
        lemma_be_value_bound(s.drop_last());
    }
}

/// `be_bytes` writes `n` bytes.
pub proof fn lemma_be_bytes_len(v: nat, n: nat)
    ensures
        be_bytes(v, n).len() == n,
    decreases n,
{
    if n > 0 {
        lemma_be_bytes_len(v / 256, (n - 1) as nat);
    }
}

/// Writing out a big-endian number in as many bytes as it was read from gives those bytes.
pub proof fn lemma_be_bytes_of_value(s: Seq<u8>)
    ensures
        be_bytes(be_value(s), s.len()) == s,
    decreases s.len(),
{
    if s.len() > 0 {
        lemma_be_bytes_of_value(s.drop_last());
        assert(be_bytes(be_value(s), s.len()) =~= s);
    }
}

/// A big-endian number split in two: the high part shifted by the length of the low one.
pub proof fn lemma_be_value_concat(a: Seq<u8>, b: Seq<u8>)
    ensures
        be_value(a + b) == be_value(a) * pow256(b.len()) + be_value(b),
    decreases b.len(),
{
    let x = be_value(a);
    if b.len() == 0 {
        assert(a + b =~= a);
        assert(x * 1 == x) by (nonlinear_arith);
    } else {
        let ab = a + b;
        let bd = b.drop_last();
        assert(ab.drop_last() =~= a + bd);
        lemma_be_value_concat(a, bd);
        let p = pow256(bd.len());
        let y = be_value(bd);
        assert(be_value(ab) == (x * p + y) * 256 + b.last() as nat);
        assert((x * p + y) * 256 == x * (256 * p) + y * 256) by (nonlinear_arith);
    }
}

/// Reading back the bytes `be_bytes` writes gives the value modulo `256^n`.
pub proof fn lemma_be_roundtrip(v: nat, n: nat)
    ensures
        be_value(be_bytes(v, n)) == v % pow256(n),
    decreases n,
{
    if n > 0 {
        lemma_be_roundtrip(v / 256, (n - 1) as nat);
        lemma_be_bytes_len(v / 256, (n - 1) as nat);
        let b = be_bytes(v, n);
        assert(b.drop_last() =~= be_bytes(v / 256, (n - 1) as nat));
        let p = pow256((n - 1) as nat);
        lemma_pow256_mono(0, (n - 1) as nat);
        // v = 256 * q + r with q = v / 256, and q = p * (q / p) + q % p
        assert((v / 256) % p * 256 + v % 256 == v % (256 * p)) by (nonlinear_arith)
            requires
                p >= 1,
        {
            let q = v / 256;
            assert(v == 256 * q + v % 256);
            assert(q == p * (q / p) + q % p);
            assert(v == (256 * p) * (q / p) + (q % p * 256 + v % 256));
            assert(0 <= q % p * 256 + v % 256 < 256 * p);
            vstd::arithmetic::div_mod::lemma_fundamental_div_mod_converse(
                v as int,
                (256 * p) as int,
                (q / p) as int,
                (q % p * 256 + v % 256) as int,
            );
        }
    }
}

/// Reading back `n` big-endian bytes that `be_bytes` wrote gives the value, whatever
/// follows them, when the value fits in `n` bytes.
pub proof fn lemma_be_parse_roundtrip(v: nat, n: nat, rest: Seq<u8>)
    requires
        v < pow256(n),
    ensures
        parse_be(be_bytes(v, n) + rest, n) == Ok::<nat, Error>(v),
{
    lemma_be_bytes_len(v, n);
    lemma_be_roundtrip(v, n);
    assert((be_bytes(v, n) + rest).take(n as int) =~= be_bytes(v, n));
    vstd::arithmetic::div_mod::lemma_small_mod(v, pow256(n));
}

/// `write_u16` followed by `read_u16` gives the value back.
pub proof fn lemma_u16_roundtrip(v: u16, rest: Seq<u8>)
    ensures
        parse_be(be_bytes(v as nat, 2) + rest, 2) == Ok::<nat, Error>(v as nat),
        be_bytes(v as nat, 2).len() == 2,
{
    lemma_pow256_values();
    lemma_be_bytes_len(v as nat, 2);
    lemma_be_parse_roundtrip(v as nat, 2, rest);
}

/// `write_i64` followed by `read_i64` gives the value back.
pub proof fn lemma_i64_roundtrip(v: i64, rest: Seq<u8>)
    ensures
        parse_be(be_bytes((v as u64) as nat, 8) + rest, 8) matches Ok(x) && (x as u64) as i64
            == v,
        be_bytes((v as u64) as nat, 8).len() == 8,
{
    lemma_pow256_values();
    let u: u64 = v as u64;
    lemma_be_bytes_len(u as nat, 8);
    lemma_be_parse_roundtrip(u as nat, 8, rest);
    assert((u as i64) == v) by (bit_vector)
        requires
            u == v as u64,
    ;
}

/// `write_uuid` followed by `read_uuid` gives the value back.
pub proof fn lemma_uuid_roundtrip(v: u128, rest: Seq<u8>)
    ensures
        parse_be(be_bytes(v as nat, 16) + rest, 16) == Ok::<nat, Error>(v as nat),
        be_bytes(v as nat, 16).len() == 16,
{
    lemma_pow256_values();
    lemma_be_bytes_len(v as nat, 16);
    lemma_be_parse_roundtrip(v as nat, 16, rest);
}

/// Reads an `n`-byte big-endian number from the front of `s`.
fn read_be(s: &[u8], n: usize) -> (v: u128)
    requires
        n <= 16,
        n <= s@.len(),
    ensures
        v == be_value(s@.take(n as int)),
        v < pow256(n as nat),
{
    let mut acc: u128 = 0;
    let mut i: usize = 0;
    proof {
        assert(s@.take(0) =~= Seq::<u8>::empty());
    }
    while i < n
        invariant
            i <= n <= 16,
            n <= s@.len(),
            acc == be_value(s@.take(i as int)),
            acc < pow256(i as nat),
        decreases n - i,
    {
        proof {
            lemma_pow256_values();
            lemma_pow256_mono(i as nat, 15);
            assert(s@.take(i + 1).drop_last() =~= s@.take(i as int));
        }
        acc = acc * 256 + s[i] as u128;
        i = i + 1;
    }
    acc
}

/// Appends the lowest `n` bytes of `v` in big-endian order.
fn write_be(w: &mut Vec<u8>, v: u128, n: usize)
    ensures
        final(w)@ == old(w)@ + be_bytes(v as nat, n as nat),
    decreases n,
{
    if n == 0 {
        assert(old(w)@ + be_bytes(v as nat, 0) =~= old(w)@);
        return ;
    }
    write_be(w, v / 256, n - 1);
    w.push((v % 256) as u8);
    assert(w@ =~= old(w)@ + be_bytes(v as nat, n as nat));
}

/// Reads `n` big-endian bytes from the front of `r`, advancing it past them; when fewer
/// are left, they are all consumed, as a stream reader consumes them.
fn read_be_advance(r: &mut &[u8], n: usize) -> (res: Result<u128, Error>)
    requires
        n <= 16,
    ensures
        match parse_be(old(r)@, n as nat) {
            Ok(v) => res matches Ok(x) && x == v && final(r)@ == old(r)@.skip(n as int),
            Err(e) => res == Err::<u128, Error>(e) && final(r)@ == Seq::<u8>::empty(),
        },
        res matches Ok(v) ==> v < pow256(n as nat),
{
    if r.len() < n {
        *r = slice_subrange(*r, r.len(), r.len());
        return Err(Error::Io(IoError::UnexpectedEof));
    }
    let v = read_be(*r, n);
    *r = slice_subrange(*r, n, r.len());
    Ok(v)
}

/// Reads a big-endian `u16`.
pub fn read_u16(r: &mut &[u8]) -> (res: Result<u16, Error>)
    ensures
        match parse_be(old(r)@, 2) {
            Ok(v) => res == Ok::<u16, Error>(v as u16) && final(r)@ == old(r)@.skip(2),
            Err(e) => res == Err::<u16, Error>(e) && final(r)@ == Seq::<u8>::empty(),
        },
{
    proof {
        lemma_pow256_values();
    }
    match read_be_advance(r, 2) {
        Ok(v) => Ok(v as u16),
        Err(e) => Err(e),
    }
}

/// Writes a big-endian `u16`. Writing to a vector cannot fail.
pub fn write_u16(w: &mut Vec<u8>, v: u16) -> (res: Result<(), Error>)
    ensures
        res is Ok,
        final(w)@ == old(w)@ + be_bytes(v as nat, 2),
{
    write_be(w, v as u128, 2);
    Ok(())
}

/// Reads a big-endian two's complement `i64`.
pub fn read_i64(r: &mut &[u8]) -> (res: Result<i64, Error>)
    ensures
        match parse_be(old(r)@, 8) {
            Ok(v) => res == Ok::<i64, Error>((v as u64) as i64) && final(r)@ == old(r)@.skip(8),
            Err(e) => res == Err::<i64, Error>(e) && final(r)@ == Seq::<u8>::empty(),
        },
{
    proof {
        lemma_pow256_values();
    }
    match read_be_advance(r, 8) {
        Ok(v) => {
            let u = v as u64;
            assert(u as nat == v as nat);
            Ok(u as i64)
        },
        Err(e) => Err(e),
    }
}

/// Writes a big-endian two's complement `i64`. Writing to a vector cannot fail.
pub fn write_i64(w: &mut Vec<u8>, v: i64) -> (res: Result<(), Error>)
    ensures
        res is Ok,
        final(w)@ == old(w)@ + be_bytes((v as u64) as nat, 8),
{
    write_be(w, (v as u64) as u128, 8);
    Ok(())
}

/// Reads a UUID: 16 bytes, big-endian.
pub fn read_uuid(r: &mut &[u8]) -> (res: Result<u128, Error>)
    ensures
        match parse_be(old(r)@, 16) {
            Ok(v) => res matches Ok(x) && x == v && final(r)@ == old(r)@.skip(16),
            Err(e) => res == Err::<u128, Error>(e) && final(r)@ == Seq::<u8>::empty(),
        },
{
    proof {
        lemma_pow256_values();
    }
    read_be_advance(r, 16)
}

/// Writes a UUID: 16 bytes, big-endian. Writing to a vector cannot fail.
pub fn write_uuid(w: &mut Vec<u8>, v: u128) -> (res: Result<(), Error>)
    ensures
        res is Ok,
        final(w)@ == old(w)@ + be_bytes(v as nat, 16),
{
    write_be(w, v, 16);
    Ok(())
}

/// Reads one unsigned byte.
pub fn read_u8(r: &mut &[u8]) -> (res: Result<u8, Error>)
    ensures
        old(r)@.len() >= 1 ==> res == Ok::<u8, Error>(old(r)@[0]) && final(r)@ == old(r)@.skip(1),
        old(r)@.len() == 0 ==> res == Err::<u8, Error>(eof()) && final(r)@ == old(r)@,
{
    if r.len() == 0 {
        return Err(Error::Io(IoError::UnexpectedEof));
    }
    let b = r[0];
    *r = slice_subrange(*r, 1, r.len());
    Ok(b)
}

/// Writes one unsigned byte. Writing to a vector cannot fail.
pub fn write_u8(w: &mut Vec<u8>, v: u8) -> (res: Result<(), Error>)
    ensures
        res is Ok,
        final(w)@ == old(w)@.push(v),
{
    w.push(v);
    Ok(())
}

/// Reads a boolean: one byte, anything but `0` is `true`.
pub fn read_bool(r: &mut &[u8]) -> (res: Result<bool, Error>)
    ensures
        old(r)@.len() >= 1 ==> res == Ok::<bool, Error>(old(r)@[0] != 0) && final(r)@ == old(
            r,
        )@.skip(1),
        old(r)@.len() == 0 ==> res == Err::<bool, Error>(eof()) && final(r)@ == old(r)@,
{
    match read_u8(r) {
        Ok(b) => Ok(b != 0),
        Err(e) => Err(e),
    }
}

/// Writes a boolean as the byte `1` or `0`. Writing to a vector cannot fail.
pub fn write_bool(w: &mut Vec<u8>, v: bool) -> (res: Result<(), Error>)
    ensures
        res is Ok,
        final(w)@ == old(w)@.push(if v { 1u8 } else { 0u8 }),
{
    w.push(if v { 1 } else { 0 });
    Ok(())
}

// ---------------------------------------------------------------------------------
// Strings
// ---------------------------------------------------------------------------------

/// Length of `cs` in UTF-16 code units: characters outside the Basic Multilingual Plane
/// take two (a surrogate pair), all others one.
pub open spec fn utf16_len(cs: Seq<char>) -> nat
    decreases cs.len(),
{
    if cs.len() == 0 {
        0
    } else {
        (if cs[0] as u32 >= 0x10000 {
            2nat
        } else {
            1nat
        }) + utf16_len(cs.drop_first())
    }
}

/// Every character takes one or two UTF-16 code units.
pub proof fn lemma_utf16_len_bound(cs: Seq<char>)
    ensures
        cs.len() <= utf16_len(cs) <= 2 * cs.len(),
    decreases cs.len(),
{
    if cs.len() > 0 {
        lemma_utf16_len_bound(cs.drop_first());
    }
}

/// UTF-16 code units that a byte of a UTF-8 encoding accounts for: a continuation byte
/// none, the first byte of a four-byte sequence two, any other byte one.
pub open spec fn utf16_units_of_byte(b: u8) -> nat {
    if is_continuation_byte(b) {
        0
    } else if b >= 0xF0 {
        2
    } else {
        1
    }
}

/// UTF-16 code units of the text whose UTF-8 encoding is `bytes`, counted byte by byte.
pub open spec fn utf16_units(bytes: Seq<u8>) -> nat
    decreases bytes.len(),
{
    if bytes.len() == 0 {
        0
    } else {
        utf16_units(bytes.drop_last()) + utf16_units_of_byte(bytes.last())
    }
}

proof fn lemma_utf16_units_concat(a: Seq<u8>, b: Seq<u8>)
    ensures
        utf16_units(a + b) == utf16_units(a) + utf16_units(b),
    decreases b.len(),
{
    if b.len() > 0 {
        assert((a + b).drop_last() =~= a + b.drop_last());
        lemma_utf16_units_concat(a, b.drop_last());
    } else {
        assert(a + b =~= a);
    }
}

/// Counting code units over the UTF-8 bytes gives the UTF-16 length of the text they
/// encode.
pub proof fn lemma_utf16_units_decode(bytes: Seq<u8>)
    requires
        valid_utf8(bytes),
    ensures
        utf16_units(bytes) == utf16_len(decode_utf8(bytes)),
        utf16_units(bytes) <= bytes.len(),
        bytes.len() <= 3 * utf16_units(bytes),
    decreases bytes.len(),
{
    if bytes.len() > 0 {
        let first = take_first_scalar(bytes);
        let rest = pop_first_scalar(bytes);
        let l = length_of_first_scalar(bytes);
        assert(1 <= l <= 4);
        assert(bytes =~= first + rest);
        lemma_utf16_units_concat(first, rest);
        lemma_utf16_units_decode(rest);
        decode_utf8_first_scalar(bytes);
        let c = decode_first_scalar(bytes) as char;
        char_is_scalar(c);
        let chars = decode_utf8(bytes);
        assert(chars[0] == c);
        assert(chars.drop_first() =~= decode_utf8(rest));
        reveal_with_fuel(utf16_units, 5);
        if l == 1 {
            assert(first.drop_last() =~= Seq::<u8>::empty());
        } else if l == 2 {
            assert(first.drop_last().drop_last() =~= Seq::<u8>::empty());
        } else if l == 3 {
            assert(first.drop_last().drop_last().drop_last() =~= Seq::<u8>::empty());
        } else {
            assert(first.drop_last().drop_last().drop_last().drop_last() =~= Seq::<u8>::empty());
        }
    }
}

/// Counts the UTF-16 code units of the text whose UTF-8 encoding is `bytes`.
pub fn utf16_len_of_utf8(bytes: &[u8]) -> (n: usize)
    requires
        valid_utf8(bytes@),
    ensures
        n == utf16_len(decode_utf8(bytes@)),
        n <= bytes@.len(),
{
    let mut n: usize = 0;
    let mut i: usize = 0;
    proof {
        lemma_utf16_units_decode(bytes@);
        assert(bytes@.take(0) =~= Seq::<u8>::empty());
    }
    while i < bytes.len()
        invariant
            i <= bytes@.len(),
            n == utf16_units(bytes@.take(i as int)),
            utf16_units(bytes@) <= bytes@.len(),
        decreases bytes.len() - i,
    {
        let b = bytes[i];
        proof {
            assert(bytes@.take(i + 1).drop_last() =~= bytes@.take(i as int));
            assert(bytes@ =~= bytes@.take(i + 1) + bytes@.skip(i + 1));
            lemma_utf16_units_concat(bytes@.take(i + 1), bytes@.skip(i + 1));
        }
        if 0x80 <= b && b <= 0xBF {
        } else if b >= 0xF0 {
            n = n + 2;
        } else {
            n = n + 1;
        }
        i = i + 1;
    }
    proof {
        assert(bytes@.take(i as int) =~= bytes@);
    }
    n
}

/// A length-prefixed string at the front of `s`, at most `max_chars` UTF-16 code units
/// long and at most `3 * max_chars` bytes long: its characters and the bytes it took.
#[verifier::opaque]
pub open spec fn parse_string(s: Seq<u8>, max_chars: usize) -> Result<(Seq<char>, nat), Error> {
    match parse_varint(s) {
        Err(e) => Err(e),
        Ok((len, n)) => {
            if len < 0 {
                Err(Error::NegativeLength(len))
            } else if len > max_chars * 3 {
                Err(Error::StringTooLong { len: len as usize, max: (max_chars * 3) as usize })
            } else if s.len() < n + len {
                Err(eof())
            } else {
                let bytes = s.subrange(n as int, n + len);
                if !valid_utf8(bytes) {
                    Err(Error::InvalidUtf8)
                } else if utf16_len(decode_utf8(bytes)) > max_chars {
                    Err(
                        Error::StringTooLong {
                            len: utf16_len(decode_utf8(bytes)) as usize,
                            max: max_chars,
                        },
                    )
                } else {
                    Ok((decode_utf8(bytes), n + len as nat))
                }
            }
        },
    }
}

/// A string takes no more bytes than there are, and is within its limit.
pub proof fn lemma_parse_string_len(s: Seq<u8>, max_chars: usize)
    ensures
        parse_string(s, max_chars) matches Ok((cs, n)) ==> n <= s.len() && utf16_len(cs)
            <= max_chars,
{
    reveal(parse_string);
    lemma_parse_varint_len(s);
}

/// How many bytes `read_string` takes from the front of `s`, whether it succeeds or
/// not: what the length prefix took; after a refused length only the prefix; when the
/// input ends inside the string all of it; else the prefix and the string bytes.
pub open spec fn string_taken(s: Seq<u8>, max_chars: usize) -> nat {
    match parse_varint(s) {
        Err(_) => varint_taken(s),
        Ok((len, n)) => if len < 0 || len > max_chars * 3 {
            n
        } else if s.len() < n + len {
            s.len()
        } else {
            n + len as nat
        },
    }
}

/// `read_string` takes no more bytes than there are.
pub proof fn lemma_string_taken(s: Seq<u8>, max_chars: usize)
    ensures
        string_taken(s, max_chars) <= s.len(),
{
    lemma_leb128_taken(s, 5);
    lemma_parse_varint_len(s);
}

/// The bytes of a length-prefixed string: its UTF-8 length as a VarInt, then its UTF-8
/// encoding.
pub open spec fn string_bytes(cs: Seq<char>) -> Seq<u8> {
    varint_bytes(encode_utf8(cs).len() as i32) + encode_utf8(cs)
}

/// What writing `cs` with the limit `max_chars` gives: the bytes, or the error when the
/// text is longer than `max_chars` UTF-16 code units.
pub open spec fn encode_string(cs: Seq<char>, max_chars: usize) -> Result<Seq<u8>, Error> {
    if utf16_len(cs) > max_chars {
        Err(Error::StringTooLong { len: utf16_len(cs) as usize, max: max_chars })
    } else {
        Ok(string_bytes(cs))
    }
}

/// Turns bytes into a `String` when they are valid UTF-8.
///
/// Trusted: calls `String::from_utf8`, which std documents to succeed exactly on valid
/// UTF-8 and then to hold the characters that the bytes encode.
#[verifier::external_body]
pub(crate) fn string_from_utf8(bytes: Vec<u8>) -> (res: Option<String>)
    ensures
        res is Some <==> valid_utf8(bytes@),
        res matches Some(s) ==> s@ == decode_utf8(bytes@),
{
    String::from_utf8(bytes).ok()
}

/// Reads a VarInt-length-prefixed UTF-8 string of at most `max_chars` characters.
///
/// Like the vanilla implementation, the limit is counted in UTF-16 code units, and the
/// encoded byte length may not exceed `max_chars * 3`.
pub fn read_string(r: &mut &[u8], max_chars: usize) -> (res: Result<String, Error>)
    requires
        max_chars * 3 <= usize::MAX,
    ensures
        match parse_string(old(r)@, max_chars) {
            Ok((cs, n)) => res matches Ok(s) && s@ == cs && final(r)@ == old(r)@.skip(n as int),
            Err(e) => res == Err::<String, Error>(e) && final(r)@ == old(r)@.skip(
                string_taken(old(r)@, max_chars) as int,
            ),
        },
{
    reveal(parse_string);
    let ghost s0 = r@;
    let mut cur: &[u8] = *r;
    let len = match read_varint(&mut cur) {
        Ok(len) => len,
        Err(e) => {
            *r = cur;
            return Err(e);
        },
    };
    proof {
        lemma_parse_varint_len(s0);
    }
    let ghost n = parse_varint(s0)->Ok_0.1;
    if len < 0 {
        *r = cur;
        return Err(Error::NegativeLength(len));
    }
    let len = len as usize;
    let max_bytes = max_chars * 3;
    if len > max_bytes {
        *r = cur;
        return Err(Error::StringTooLong { len, max: max_bytes });
    }
    if cur.len() < len {
        *r = slice_subrange(cur, cur.len(), cur.len());
        assert(r@ =~= s0.skip(s0.len() as int));
        return Err(Error::Io(IoError::UnexpectedEof));
    }
    let bytes = slice_subrange(cur, 0, len);
    assert(bytes@ =~= s0.subrange(n as int, n + len));
    *r = slice_subrange(cur, len, cur.len());
    assert(r@ =~= s0.skip(n + len));
    let owned = slice_to_vec(bytes);
    let s = match string_from_utf8(owned) {
        Some(s) => s,
        None => return Err(Error::InvalidUtf8),
    };
    let chars = utf16_len_of_utf8(bytes);
    if chars > max_chars {
        return Err(Error::StringTooLong { len: chars, max: max_chars });
    }
    Ok(s)
}

/// Appends the bytes of `bytes`.
pub(crate) fn append_bytes(w: &mut Vec<u8>, bytes: &[u8])
    ensures
        final(w)@ == old(w)@ + bytes@,
{
    let mut i: usize = 0;
    while i < bytes.len()
        invariant
            i <= bytes@.len(),
            w@ == old(w)@ + bytes@.take(i as int),
        decreases bytes.len() - i,
    {
        w.push(bytes[i]);
        assert(bytes@.take(i + 1) =~= bytes@.take(i as int).push(bytes@[i as int]));
        i = i + 1;
    }
    assert(bytes@.take(i as int) =~= bytes@);
}

/// Writes a VarInt-length-prefixed UTF-8 string of at most `max_chars` characters
/// (counted in UTF-16 code units).
///
/// When the string is too long, nothing is written.
pub fn write_string(w: &mut Vec<u8>, s: &str, max_chars: usize) -> (res: Result<(), Error>)
    ensures
        match encode_string(s@, max_chars) {
            Ok(bytes) => res is Ok && final(w)@ == old(w)@ + bytes,
            Err(e) => res == Err::<(), Error>(e) && final(w)@ == old(w)@,
        },
{
    let bytes = s.as_bytes();
    proof {
        assert(bytes@ == encode_utf8(s@));
        assert(decode_utf8(bytes@) == s@);
    }
    let chars = utf16_len_of_utf8(bytes);
    if chars > max_chars {
        return Err(Error::StringTooLong { len: chars, max: max_chars });
    }
    let _ = write_varint(w, bytes.len() as i32);
    append_bytes(w, bytes);
    assert(w@ =~= old(w)@ + string_bytes(s@));
    Ok(())
}

/// A string written with `write_string` is read back by `read_string` with the same
/// limit, whatever follows it, as long as its UTF-8 encoding fits the VarInt length
/// prefix (at most `i32::MAX` bytes) and `3 * max_chars` fits a `usize`.
pub proof fn lemma_string_roundtrip(cs: Seq<char>, max_chars: usize, rest: Seq<u8>)
    requires
        encode_string(cs, max_chars) is Ok,
        encode_utf8(cs).len() <= i32::MAX,
        max_chars * 3 <= usize::MAX,
    ensures
        parse_string(encode_string(cs, max_chars)->Ok_0 + rest, max_chars) == Ok::<
            (Seq<char>, nat),
            Error,
        >((cs, string_bytes(cs).len())),
{
    reveal(parse_string);
    let bytes = encode_utf8(cs);
    let len = bytes.len() as i32;
    let s = string_bytes(cs) + rest;
    assert(s =~= varint_bytes(len) + (bytes + rest));
    lemma_varint_roundtrip(len, bytes + rest);
    let n = varint_bytes(len).len();
    lemma_utf16_units_decode(bytes);
    assert(s.subrange(n as int, n + len) =~= bytes);
}

/// The string roundtrip for a limit small enough that every accepted string fits the
/// VarInt length prefix: `3 * max_chars` at most `i32::MAX`.
pub proof fn lemma_string_roundtrip_limited(cs: Seq<char>, max_chars: usize, rest: Seq<u8>)
    requires
        encode_string(cs, max_chars) is Ok,
        max_chars * 3 <= i32::MAX,
    ensures
        parse_string(encode_string(cs, max_chars)->Ok_0 + rest, max_chars) == Ok::<
            (Seq<char>, nat),
            Error,
        >((cs, string_bytes(cs).len())),
{
    lemma_utf16_units_decode(encode_utf8(cs));
    lemma_string_roundtrip(cs, max_chars, rest);
}

} // verus!
