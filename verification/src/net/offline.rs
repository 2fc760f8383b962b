//! Offline-mode player UUIDs.

use md5::{Digest, Md5};

use vstd::prelude::*;
use vstd::utf8::encode_utf8;

use crate::protocol::error::lemma_encode_utf8_concat;
use crate::protocol::codec::{
    append_bytes, be_bytes, be_value, lemma_be_bytes_of_value, lemma_be_value_bound,
    lemma_be_value_concat, lemma_pow256_values, read_uuid,
};

verus! {

/// The MD5 digest of `data`.
pub uninterp spec fn md5_digest(data: Seq<u8>) -> Seq<u8>;

/// The MD5 digest of `data`.
///
/// Trusted: calls `Md5::digest` of the `md-5` crate. The contract claims that the result
/// is determined by `data` and that it has 16 bytes, the size of an MD5 digest.
#[verifier::external_body]
fn md5(data: &[u8]) -> (out: Vec<u8>)
    ensures
        out@ == md5_digest(data@),
        out@.len() == 16,
{
    Md5::digest(data).to_vec()
}

/// The bytes whose digest gives the offline UUID of `name`: `"OfflinePlayer:"` and the
/// name, in UTF-8.
pub open spec fn offline_name_bytes(name: Seq<char>) -> Seq<u8> {
    encode_utf8("OfflinePlayer:"@) + encode_utf8(name)
}

/// A digest with the version of a name-based (MD5) UUID set: the high half of byte 6
/// becomes `3`, the two top bits of byte 8 become `10`.
pub open spec fn version3_bytes(d: Seq<u8>) -> Seq<u8> {
    d.update(6, (d[6] & 0x0f) | 0x30).update(8, (d[8] & 0x3f) | 0x80)
}

/// What is hashed for the offline UUID of `name` is the UTF-8 encoding of the whole text
/// `"OfflinePlayer:"` followed by the whole name: every character of the name counts.
pub proof fn lemma_offline_name_bytes(name: Seq<char>)
    ensures
        offline_name_bytes(name) == encode_utf8("OfflinePlayer:"@ + name),
        offline_name_bytes(name).len() == encode_utf8("OfflinePlayer:"@).len() + encode_utf8(
            name,
        ).len(),
        offline_name_bytes(name).skip(encode_utf8("OfflinePlayer:"@).len() as int)
            == encode_utf8(name),
{
    lemma_encode_utf8_concat("OfflinePlayer:"@, name);
    let p = encode_utf8("OfflinePlayer:"@);
    assert((p + encode_utf8(name)).skip(p.len() as int) =~= encode_utf8(name));
}

/// The version 3 UUID that a 16-byte MD5 digest gives, as a big-endian number.
pub fn uuid_from_digest(digest: &[u8]) -> (uuid: u128)
    requires
        digest@.len() == 16,
    ensures
        uuid == be_value(version3_bytes(digest@)),
{
    let mut hash: Vec<u8> = Vec::new();
    append_bytes(&mut hash, digest);
    let b6 = (hash[6] & 0x0f) | 0x30;
    hash.set(6, b6);
    let b8 = (hash[8] & 0x3f) | 0x80;
    hash.set(8, b8);
    assert(hash@ =~= version3_bytes(digest@));
    let mut cur: &[u8] = hash.as_slice();
    proof {
        assert(cur@.take(16) =~= cur@);
    }
    match read_uuid(&mut cur) {
        Ok(u) => u,
        Err(_) => 0,
    }
}

/// The UUID a vanilla server derives from a player name in offline mode
/// (a version 3 UUID over `"OfflinePlayer:" + name`).
pub fn offline_uuid(name: &str) -> (uuid: u128)
    ensures
        uuid == be_value(
            version3_bytes(md5_digest(encode_utf8("OfflinePlayer:"@) + encode_utf8(name@))),
        ),
        md5_digest(encode_utf8("OfflinePlayer:"@) + encode_utf8(name@)).len() == 16,
        uuid == be_value(version3_bytes(md5_digest(offline_name_bytes(name@)))),
{
    let mut data: Vec<u8> = Vec::new();
    append_bytes(&mut data, "OfflinePlayer:".as_bytes());
    append_bytes(&mut data, name.as_bytes());
    let digest = md5(data.as_slice());
    assert(data@ =~= encode_utf8("OfflinePlayer:"@) + encode_utf8(name@));
    uuid_from_digest(digest.as_slice())
}

/// An offline UUID is a version 3 UUID: written out big-endian, its byte 6 starts with
/// the nibble `3` and its byte 8 with the bits `10`.
pub proof fn lemma_offline_uuid_is_version3(d: Seq<u8>)
    requires
        d.len() == 16,
    ensures
        be_bytes(be_value(version3_bytes(d)), 16) == version3_bytes(d),
        version3_bytes(d)[6] >> 4 == 3,
        version3_bytes(d)[8] >> 6 == 2,
{
    lemma_be_bytes_of_value(version3_bytes(d));
    let b6 = d[6];
    let b8 = d[8];
    assert(((b6 & 0x0f) | 0x30) >> 4 == 3) by (bit_vector);
    assert(((b8 & 0x3f) | 0x80) >> 6 == 2) by (bit_vector);
}

/// An offline UUID is a version 3 UUID of the RFC 4122 variant: as a number, bits 76 to
/// 79 hold `3` and bits 62 and 63 hold `0b10`.
pub proof fn lemma_offline_uuid_version_bits(d: Seq<u8>)
    requires
        d.len() == 16,
    ensures
        be_value(version3_bytes(d)) < 0x1_0000_0000_0000_0000_0000_0000_0000_0000,
        ({
            let u = be_value(version3_bytes(d)) as u128;
            &&& (u >> 76) & 0xf == 3
            &&& (u >> 62) & 0x3 == 2
        }),
{
    let v = version3_bytes(d);
    lemma_offline_uuid_is_version3(d);
    lemma_pow256_values();
    lemma_be_value_bound(v);
    // byte 6 between the six bytes above it and the nine below it
    let hi = v.take(6);
    let lo = v.skip(7);
    assert(v.take(7) =~= hi.push(v[6]));
    assert(v =~= v.take(7) + lo);
    lemma_be_value_concat(v.take(7), lo);
    assert(v.take(7).drop_last() =~= hi);
    lemma_be_value_bound(hi);
    lemma_be_value_bound(lo);
    // byte 8 between the eight bytes above it and the seven below it
    let hi2 = v.take(8);
    let lo2 = v.skip(9);
    assert(v.take(9) =~= hi2.push(v[8]));
    assert(v =~= v.take(9) + lo2);
    lemma_be_value_concat(v.take(9), lo2);
    assert(v.take(9).drop_last() =~= hi2);
    lemma_be_value_bound(hi2);
    lemma_be_value_bound(lo2);
    let x: u128 = be_value(v) as u128;
    let h: u128 = be_value(hi) as u128;
    let l: u128 = be_value(lo) as u128;
    let b6: u8 = v[6];
    let h2: u128 = be_value(hi2) as u128;
    let l2: u128 = be_value(lo2) as u128;
    let b8: u8 = v[8];
    assert(x == (h * 256 + b6 as u128) * 0x1_0000_0000_0000_0000_00 + l);
    assert(x == (h2 * 256 + b8 as u128) * 0x100_0000_0000_0000 + l2);
    assert((x >> 76) & 0xf == (b6 >> 4) as u128) by (bit_vector)
        requires
            x == (h * 256 + b6 as u128) * 0x1_0000_0000_0000_0000_00 + l,
            h < 0x1_0000_0000_0000,
            l < 0x1_0000_0000_0000_0000_00,
    ;
    assert((x >> 62) & 0x3 == (b8 >> 6) as u128) by (bit_vector)
        requires
            x == (h2 * 256 + b8 as u128) * 0x100_0000_0000_0000 + l2,
            h2 < 0x1_0000_0000_0000_0000,
            l2 < 0x100_0000_0000_0000,
    ;
}

} // verus!
