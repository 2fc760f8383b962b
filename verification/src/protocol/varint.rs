//! Variable-length integers (VarInt: up to 5 bytes, VarLong: up to 10 bytes).
//!
//! A value is written in base 128, least significant digit first; every byte but the
//! last has its high bit set. Negative numbers are written as their two's complement,
//! so they always take the full 5 (or 10) bytes.

use vstd::prelude::*;
use vstd::slice::slice_subrange;

use crate::protocol::error::{eof, Error, IoError};

verus! {

pub const MAX_VARINT_BYTES: usize = 5;

pub const MAX_VARLONG_BYTES: usize = 10;

/// The base-128 digits of `n`, least significant first, every byte but the last
/// with its high bit set.
pub open spec fn leb128(n: nat) -> Seq<u8>
    decreases n,
{
    if n < 128 {
        seq![n as u8]
    } else {
        seq![(n % 128 + 128) as u8] + leb128(n / 128)
    }
}

/// The unsigned value a VarInt carries: the two's complement of `value` on 32 bits.
pub open spec fn varint_unsigned(value: i32) -> nat {
    (value as u32) as nat
}

/// The unsigned value a VarLong carries: the two's complement of `value` on 64 bits.
pub open spec fn varlong_unsigned(value: i64) -> nat {
    (value as u64) as nat
}

/// The bytes of `value` as a VarInt.
pub open spec fn varint_bytes(value: i32) -> Seq<u8> {
    leb128(varint_unsigned(value))
}

/// The bytes of `value` as a VarLong.
pub open spec fn varlong_bytes(value: i64) -> Seq<u8> {
    leb128(varlong_unsigned(value))
}

/// Reads base-128 digits from the front of `s`, at most `max` of them, and returns the
/// value they spell and how many bytes they took.
///
/// A byte without the high bit ends the number. Running out of input is an I/O error;
/// needing more than `max` bytes is `VarIntTooLong`.
pub open spec fn parse_leb128(s: Seq<u8>, max: nat) -> Result<(nat, nat), Error>
    decreases max,
{
    if max == 0 {
        Err(Error::VarIntTooLong)
    } else if s.len() == 0 {
        Err(eof())
    } else if s[0] < 128 {
        Ok((s[0] as nat, 1))
    } else {
        match parse_leb128(s.drop_first(), (max - 1) as nat) {
            Ok((v, n)) => Ok(((s[0] - 128) as nat + 128 * v, n + 1)),
            Err(e) => Err(e),
        }
    }
}

/// A VarInt at the front of `s`: its value and its length in bytes. Digits beyond the
/// 32nd bit are dropped, as a 32-bit shift drops them.
pub open spec fn parse_varint(s: Seq<u8>) -> Result<(i32, nat), Error> {
    match parse_leb128(s, 5) {
        Ok((v, n)) => Ok(((v as u32) as i32, n)),
        Err(e) => Err(e),
    }
}

/// A VarLong at the front of `s`: its value and its length in bytes. Digits beyond the
/// 64th bit are dropped, as a 64-bit shift drops them.
pub open spec fn parse_varlong(s: Seq<u8>) -> Result<(i64, nat), Error> {
    match parse_leb128(s, 10) {
        Ok((v, n)) => Ok(((v as u64) as i64, n)),
        Err(e) => Err(e),
    }
}

/// `128` to the power `k`.
pub open spec fn pow128(k: nat) -> nat
    decreases k,
{
    if k == 0 {
        1
    } else {
        128 * pow128((k - 1) as nat)
    }
}

proof fn lemma_pow128_mono(a: nat, b: nat)
    requires
        a <= b,
    ensures
        1 <= pow128(a) <= pow128(b),
    decreases b,
{
    if a < b {
        lemma_pow128_mono(a, (b - 1) as nat);
    } else if a > 0 {
        lemma_pow128_mono((a - 1) as nat, (a - 1) as nat);
    }
}

proof fn lemma_pow128_10()
    ensures
        pow128(10) == 0x40_0000_0000_0000_0000,
        pow128(5) == 0x8_0000_0000,
{
    reveal_with_fuel(pow128, 11);
}

/// The value `parse_leb128` returns is below `128^max`, and its length is at most `max`.
proof fn lemma_parse_leb128_bounds(s: Seq<u8>, max: nat)
    ensures
        parse_leb128(s, max) matches Ok((v, n)) ==> v < pow128(max) && 1 <= n <= max && n
            <= s.len(),
    decreases max,
{
    if max > 0 && s.len() > 0 && s[0] >= 128 {
        lemma_parse_leb128_bounds(s.drop_first(), (max - 1) as nat);
    }
    if max > 0 {
        lemma_pow128_mono(1, max);
    }
}

/// The number of bytes `leb128(n)` takes: one more for every further factor of 128.
pub proof fn lemma_leb128_len(n: nat, k: nat)
    requires
        k >= 1,
        n < pow128(k),
    ensures
        1 <= leb128(n).len() <= k,
    decreases n,
{
    if n >= 128 {
        assert(k >= 2) by {
            if k == 1 {
                reveal_with_fuel(pow128, 2);
            }
        }
        assert(n / 128 < pow128((k - 1) as nat));
        lemma_leb128_len(n / 128, (k - 1) as nat);
    }
}

/// Reading back the digits `leb128` writes gives the value and the length, whatever
/// follows them, as long as there are at most `max` of them.
pub proof fn lemma_parse_leb128_roundtrip(n: nat, rest: Seq<u8>, max: nat)
    requires
        leb128(n).len() <= max,
    ensures
        parse_leb128(leb128(n) + rest, max) == Ok::<(nat, nat), Error>((n, leb128(n).len())),
    decreases n,
{
    let s = leb128(n) + rest;
    if n < 128 {
        assert(s[0] == n as u8);
    } else {
        lemma_parse_leb128_roundtrip(n / 128, rest, (max - 1) as nat);
        assert(s.drop_first() =~= leb128(n / 128) + rest);
        assert(s[0] == (n % 128 + 128) as u8);
    }
}

/// A VarInt takes at most 5 bytes.
pub proof fn lemma_varint_len_bound(value: i32)
    ensures
        1 <= varint_bytes(value).len() <= MAX_VARINT_BYTES,
{
    lemma_pow128_10();
    lemma_leb128_len(varint_unsigned(value), 5);
}

/// A VarLong takes at most 10 bytes.
pub proof fn lemma_varlong_len_bound(value: i64)
    ensures
        1 <= varlong_bytes(value).len() <= MAX_VARLONG_BYTES,
{
    lemma_pow128_10();
    lemma_leb128_len(varlong_unsigned(value), 10);
}

/// Reading a VarInt back from what `write_varint` wrote gives the value again and
/// consumes exactly those bytes, whatever follows them.
pub proof fn lemma_varint_roundtrip(value: i32, rest: Seq<u8>)
    ensures
        parse_varint(varint_bytes(value) + rest) == Ok::<(i32, nat), Error>(
            (value, varint_bytes(value).len()),
        ),
{
    lemma_varint_len_bound(value);
    lemma_parse_leb128_roundtrip(varint_unsigned(value), rest, 5);
    let u: u32 = value as u32;
    assert((u as i32) == value) by (bit_vector)
        requires
            u == value as u32,
    ;
}

/// Reading a VarLong back from what `write_varlong` wrote gives the value again and
/// consumes exactly those bytes, whatever follows them.
pub proof fn lemma_varlong_roundtrip(value: i64, rest: Seq<u8>)
    ensures
        parse_varlong(varlong_bytes(value) + rest) == Ok::<(i64, nat), Error>(
            (value, varlong_bytes(value).len()),
        ),
{
    lemma_varlong_len_bound(value);
    lemma_parse_leb128_roundtrip(varlong_unsigned(value), rest, 10);
    let u: u64 = value as u64;
    assert((u as i64) == value) by (bit_vector)
        requires
            u == value as u64,
    ;
}

/// A VarInt takes between 1 and 5 bytes of its input.
pub proof fn lemma_parse_varint_len(s: Seq<u8>)
    ensures
        parse_varint(s) matches Ok((v, n)) ==> 1 <= n <= 5 && n <= s.len(),
{
    lemma_parse_leb128_bounds(s, 5);
}

/// How many bytes reading up to `max` base-128 digits takes from the front of `s`, as
/// bytes are read one at a time: up to and including the byte that ends the number,
/// all of `s` when it ends first, `max` bytes when none of them ends it.
pub open spec fn leb128_taken(s: Seq<u8>, max: nat) -> nat
    decreases max,
{
    if max == 0 || s.len() == 0 {
        0
    } else if s[0] < 128 {
        1
    } else {
        1 + leb128_taken(s.drop_first(), (max - 1) as nat)
    }
}

/// How many bytes `read_varint` takes from the front of `s`, whether it succeeds or not.
pub open spec fn varint_taken(s: Seq<u8>) -> nat {
    leb128_taken(s, 5)
}

/// How many bytes `read_varlong` takes from the front of `s`, whether it succeeds or not.
pub open spec fn varlong_taken(s: Seq<u8>) -> nat {
    leb128_taken(s, 10)
}

/// What reading digits takes is no more than there is, and on success it is the length
/// of the number.
pub proof fn lemma_leb128_taken(s: Seq<u8>, max: nat)
    ensures
        leb128_taken(s, max) <= s.len(),
        leb128_taken(s, max) <= max,
        parse_leb128(s, max) matches Ok((v, n)) ==> leb128_taken(s, max) == n,
    decreases max,
{
    if max > 0 && s.len() > 0 && s[0] >= 128 {
        lemma_leb128_taken(s.drop_first(), (max - 1) as nat);
    }
}

/// Reads up to `max` base-128 digits from the front of `s`; also says how many bytes
/// were taken, on success and on failure.
fn read_leb128(s: &[u8], max: usize) -> (res: (Result<(u128, usize), Error>, usize))
    requires
        max <= 10,
    ensures
        match parse_leb128(s@, max as nat) {
            Ok((v, n)) => res.0 matches Ok((rv, rn)) && rv == v && rn == n,
            Err(e) => res.0 == Err::<(u128, usize), Error>(e),
        },
        res.1 == leb128_taken(s@, max as nat),
    decreases max,
{
    if max == 0 {
        return (Err(Error::VarIntTooLong), 0);
    }
    if s.len() == 0 {
        return (Err(Error::Io(IoError::UnexpectedEof)), 0);
    }
    let b = s[0];
    if b < 128 {
        return (Ok((b as u128, 1)), 1);
    }
    let rest = slice_subrange(s, 1, s.len());
    proof {
        assert(rest@ =~= s@.drop_first());
        lemma_parse_leb128_bounds(rest@, (max - 1) as nat);
        lemma_leb128_taken(rest@, (max - 1) as nat);
        lemma_pow128_10();
        lemma_pow128_mono((max - 1) as nat, 9);
        reveal_with_fuel(pow128, 10);
    }
    let (res, taken) = read_leb128(rest, max - 1);
    match res {
        Ok((v, n)) => (Ok(((b - 128) as u128 + 128 * v, n + 1)), taken + 1),
        Err(e) => (Err(e), taken + 1),
    }
}

/// The value that base-128 digits spell, least significant first: the low seven bits of
/// each byte.
pub open spec fn leb128_value(e: Seq<u8>) -> nat
    decreases e.len(),
{
    if e.len() == 0 {
        0
    } else {
        (e[0] % 128) as nat + 128 * leb128_value(e.drop_first())
    }
}

/// The shape of the base-128 digits of `n`: every byte but the last carries the
/// continuation bit `0x80` and the last does not, the digits spell `n`, and the form is
/// the shortest (its last byte is `0` only when it is the only byte).
pub proof fn lemma_leb128_shape(n: nat)
    ensures
        leb128(n).len() >= 1,
        forall|i: int| 0 <= i < leb128(n).len() - 1 ==> #[trigger] leb128(n)[i] >= 0x80,
        leb128(n).last() < 0x80,
        leb128_value(leb128(n)) == n,
        leb128(n).len() == 1 || leb128(n).last() != 0,
    decreases n,
{
    if n >= 128 {
        let tail = leb128(n / 128);
        lemma_leb128_shape(n / 128);
        let e = leb128(n);
        assert(e == seq![(n % 128 + 128) as u8] + tail);
        assert(e.drop_first() =~= tail);
        assert forall|i: int| 0 <= i < e.len() - 1 implies #[trigger] e[i] >= 0x80 by {
            if i > 0 {
                assert(e[i] == tail[i - 1]);
            }
        }
        assert(e.last() == tail.last());
        if tail.len() == 1 {
            assert(tail == seq![(n / 128) as u8]);
        }
        assert(e[0] % 128 == n % 128);
        assert(leb128_value(e) == (e[0] % 128) as nat + 128 * leb128_value(tail));
    } else {
        let e = leb128(n);
        assert(e.drop_first() =~= Seq::<u8>::empty());
        assert(leb128_value(e) == (e[0] % 128) as nat + 128 * leb128_value(e.drop_first()));
    }
}

/// The bytes `write_varint` writes for `value`: at most five, every one but the last with
/// the continuation bit `0x80`, their low seven bits spelling the 32-bit two's complement
/// of `value` least significant first, in the shortest such form.
pub proof fn lemma_varint_shape(value: i32)
    ensures
        1 <= varint_bytes(value).len() <= MAX_VARINT_BYTES,
        forall|i: int|
            0 <= i < varint_bytes(value).len() - 1 ==> #[trigger] varint_bytes(value)[i] >= 0x80,
        varint_bytes(value).last() < 0x80,
        leb128_value(varint_bytes(value)) == (value as u32) as nat,
        varint_bytes(value).len() == 1 || varint_bytes(value).last() != 0,
{
    lemma_varint_len_bound(value);
    lemma_leb128_shape(varint_unsigned(value));
}

/// The bytes `write_varlong` writes for `value`: at most ten, shaped as a VarInt's, their
/// low seven bits spelling the 64-bit two's complement of `value`.
pub proof fn lemma_varlong_shape(value: i64)
    ensures
        1 <= varlong_bytes(value).len() <= MAX_VARLONG_BYTES,
        forall|i: int|
            0 <= i < varlong_bytes(value).len() - 1 ==> #[trigger] varlong_bytes(value)[i] >= 0x80,
        varlong_bytes(value).last() < 0x80,
        leb128_value(varlong_bytes(value)) == (value as u64) as nat,
        varlong_bytes(value).len() == 1 || varlong_bytes(value).last() != 0,
{
    lemma_varlong_len_bound(value);
    lemma_leb128_shape(varlong_unsigned(value));
}

/// Reads a VarInt from the front of `r` and advances `r` past it.
///
/// Bytes are taken one at a time, as from a stream: on an error `r` has lost what was
/// read before the error showed (all of it when the input ended, five bytes when the
/// VarInt was too long).
pub fn read_varint(r: &mut &[u8]) -> (res: Result<i32, Error>)
    ensures
        match parse_varint(old(r)@) {
            Ok((v, n)) => res == Ok::<i32, Error>(v) && final(r)@ == old(r)@.skip(n as int),
            Err(e) => res == Err::<i32, Error>(e) && final(r)@ == old(r)@.skip(
                varint_taken(old(r)@) as int,
            ),
        },
{
    let (res, taken) = read_leb128(*r, MAX_VARINT_BYTES);
    proof {
        lemma_leb128_taken(r@, 5);
        lemma_parse_leb128_bounds(r@, 5);
    }
    *r = slice_subrange(*r, taken, r.len());
    match res {
        Ok((v, n)) => Ok((v as u32) as i32),
        Err(e) => Err(e),
    }
}

/// Writes `value` as a VarInt at the end of `w`. Writing to a vector cannot fail.
pub fn write_varint(w: &mut Vec<u8>, value: i32) -> (res: Result<(), Error>)
    ensures
        res is Ok,
        final(w)@ == old(w)@ + varint_bytes(value),
{
    write_leb128(w, (value as u32) as u64);
    Ok(())
}

/// Appends the base-128 digits of `v`.
fn write_leb128(w: &mut Vec<u8>, v: u64)
    ensures
        final(w)@ == old(w)@ + leb128(v as nat),
{
    let mut v = v;
    let ghost start = v;
    while v >= 128
        invariant
            w@ + leb128(v as nat) == old(w)@ + leb128(start as nat),
        decreases v,
    {
        let ghost before = w@;
        w.push((v % 128 + 128) as u8);
        proof {
            assert(leb128(v as nat) == seq![(v % 128 + 128) as u8] + leb128((v / 128) as nat));
            assert(w@ + leb128((v / 128) as nat) =~= before + leb128(v as nat));
        }
        v = v / 128;
    }
    let ghost before = w@;
    w.push(v as u8);
    proof {
        assert(w@ =~= before + leb128(v as nat));
    }
}

/// Number of bytes `value` occupies as a VarInt.
pub fn varint_len(value: i32) -> (len: usize)
    ensures
        len == varint_bytes(value).len(),
{
    let v = value as u32;
    proof {
        reveal_with_fuel(leb128, 5);
    }
    if v <= 0x7F {
        1
    } else if v <= 0x3FFF {
        assert(v / 128 < 128);
        2
    } else if v <= 0x1F_FFFF {
        assert(v / 128 / 128 < 128);
        3
    } else if v <= 0x0FFF_FFFF {
        assert(v / 128 / 128 / 128 < 128);
        4
    } else {
        assert(v / 128 / 128 / 128 / 128 < 128);
        assert(v / 128 / 128 / 128 >= 128);
        5
    }
}

/// Reads a VarLong from the front of `r` and advances `r` past it.
///
/// Bytes are taken one at a time, as from a stream: on an error `r` has lost what was
/// read before the error showed (all of it when the input ended, ten bytes when the
/// VarLong was too long).
pub fn read_varlong(r: &mut &[u8]) -> (res: Result<i64, Error>)
    ensures
        match parse_varlong(old(r)@) {
            Ok((v, n)) => res == Ok::<i64, Error>(v) && final(r)@ == old(r)@.skip(n as int),
            Err(e) => res == Err::<i64, Error>(e) && final(r)@ == old(r)@.skip(
                varlong_taken(old(r)@) as int,
            ),
        },
{
    let (res, taken) = read_leb128(*r, MAX_VARLONG_BYTES);
    proof {
        lemma_leb128_taken(r@, 10);
        lemma_parse_leb128_bounds(r@, 10);
    }
    *r = slice_subrange(*r, taken, r.len());
    match res {
        Ok((v, n)) => Ok((v as u64) as i64),
        Err(e) => Err(e),
    }
}

/// Writes `value` as a VarLong at the end of `w`. Writing to a vector cannot fail.
pub fn write_varlong(w: &mut Vec<u8>, value: i64) -> (res: Result<(), Error>)
    ensures
        res is Ok,
        final(w)@ == old(w)@ + varlong_bytes(value),
{
    write_leb128(w, value as u64);
    Ok(())
}

} // verus!
