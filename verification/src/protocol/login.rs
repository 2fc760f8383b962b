//! Login-state packets (the parts needed for an offline-mode login).
//!
//! Packet ids follow protocol 776 (26.2) from the Minecraft Wiki and have not been checked
//! against 777 yet.

use vstd::prelude::*;

use crate::protocol::codec::{
    be_bytes, encode_string, lemma_parse_string_len, lemma_string_roundtrip_limited, lemma_string_taken, string_taken, lemma_uuid_roundtrip, parse_be,
    parse_string, read_bool, read_string, read_uuid, write_bool, write_string, write_uuid,
};
use crate::protocol::error::{eof, Error};
use crate::protocol::packet::Packet;
use crate::protocol::varint::{
    leb128_value, lemma_varint_shape, lemma_leb128_taken, lemma_parse_varint_len, lemma_varint_roundtrip, parse_varint, read_varint, varint_bytes, varint_taken,
    write_varint,
};

verus! {

pub const MAX_NAME_CHARS: usize = 16;

pub const MAX_DISCONNECT_CHARS: usize = 262_144;

/// Most properties a Login Success may carry.
pub const MAX_PROPERTIES: usize = 1024;

/// Longest property name.
pub const MAX_PROPERTY_NAME_CHARS: usize = 64;

/// Longest property value.
pub const MAX_PROPERTY_VALUE_CHARS: usize = 32_767;

/// Longest property signature.
pub const MAX_PROPERTY_SIGNATURE_CHARS: usize = 1024;

/// Serverbound Login Start (id 0x00).
#[derive(Debug, Clone, PartialEq, Eq)]
pub struct LoginStart {
    pub name: String,
    pub uuid: u128,
}

impl View for LoginStart {
    type V = (Seq<char>, u128);

    open spec fn view(&self) -> (Seq<char>, u128) {
        (self.name@, self.uuid)
    }
}

/// The body of a Login Start: the name (at most 16 characters), then the UUID.
pub open spec fn login_start_body(v: (Seq<char>, u128)) -> Result<Seq<u8>, Error> {
    match encode_string(v.0, MAX_NAME_CHARS) {
        Err(e) => Err(e),
        Ok(name) => Ok(name + be_bytes(v.1 as nat, 16)),
    }
}

/// A Login Start body at the front of `s`.
pub open spec fn parse_login_start(s: Seq<u8>) -> Result<((Seq<char>, u128), nat), Error> {
    match parse_string(s, MAX_NAME_CHARS) {
        Err(e) => Err(e),
        Ok((name, n)) => match parse_be(s.skip(n as int), 16) {
            Err(e) => Err(e),
            Ok(uuid) => Ok(((name, uuid as u128), n + 16)),
        },
    }
}

/// How many bytes reading a Login Start body takes from the front of `s` when it fails.
pub open spec fn login_start_taken(s: Seq<u8>) -> nat {
    match parse_string(s, MAX_NAME_CHARS) {
        Err(_) => string_taken(s, MAX_NAME_CHARS),
        Ok((_, n)) => if s.len() < n + 16 {
            s.len()
        } else {
            n + 16
        },
    }
}

impl Packet for LoginStart {
    const ID: i32 = 0x00;

    open spec fn spec_id() -> i32 {
        0x00
    }

    proof fn lemma_id() {
    }

    open spec fn encode_body(v: (Seq<char>, u128)) -> Result<Seq<u8>, Error> {
        login_start_body(v)
    }

    open spec fn parse_body(s: Seq<u8>) -> Result<((Seq<char>, u128), nat), Error> {
        parse_login_start(s)
    }

    open spec fn read_taken(s: Seq<u8>) -> nat {
        login_start_taken(s)
    }

    open spec fn within_read_limits(v: (Seq<char>, u128)) -> bool {
        true
    }

    fn write_body(&self, w: &mut Vec<u8>) -> (res: Result<(), Error>) {
        let ghost w0 = w@;
        match write_string(w, self.name.as_str(), MAX_NAME_CHARS) {
            Ok(()) => {},
            Err(e) => return Err(e),
        }
        let r = write_uuid(w, self.uuid);
        assert(w@ =~= w0 + login_start_body(self@)->Ok_0);
        r
    }

    fn read_body(r: &mut &[u8]) -> (res: Result<Self, Error>) {
        let ghost s = r@;
        let mut cur: &[u8] = *r;
        proof {
            lemma_parse_string_len(s, MAX_NAME_CHARS);
            lemma_string_taken(s, MAX_NAME_CHARS);
        }
        let name = match read_string(&mut cur, MAX_NAME_CHARS) {
            Ok(n) => n,
            Err(e) => {
                *r = cur;
                return Err(e);
            },
        };
        let ghost n = parse_string(s, MAX_NAME_CHARS)->Ok_0.1;
        let uuid = match read_uuid(&mut cur) {
            Ok(u) => u,
            Err(e) => {
                assert(cur@ =~= s.skip(s.len() as int));
                *r = cur;
                return Err(e);
            },
        };
        assert(cur@ =~= s.skip((n + 16) as int));
        *r = cur;
        Ok(LoginStart { name, uuid })
    }

    proof fn lemma_parse_body_len(s: Seq<u8>) {
        lemma_parse_string_len(s, MAX_NAME_CHARS);
    }

    proof fn lemma_body_roundtrip(v: (Seq<char>, u128), rest: Seq<u8>) {
        let name = encode_string(v.0, MAX_NAME_CHARS)->Ok_0;
        let ub = be_bytes(v.1 as nat, 16);
        let s = login_start_body(v)->Ok_0 + rest;
        assert(s =~= name + (ub + rest));
        lemma_string_roundtrip_limited(v.0, MAX_NAME_CHARS, ub + rest);
        assert(s.skip(name.len() as int) =~= ub + rest);
        lemma_uuid_roundtrip(v.1, rest);
    }
}

/// A profile property, usually the skin `textures`.
#[derive(Debug, Clone, PartialEq, Eq)]
pub struct Property {
    pub name: String,
    pub value: String,
    pub signature: Option<String>,
}

/// The fields of a property, as characters.
pub struct PropertyView {
    pub name: Seq<char>,
    pub value: Seq<char>,
    pub signature: Option<Seq<char>>,
}

impl View for Property {
    type V = PropertyView;

    open spec fn view(&self) -> PropertyView {
        PropertyView {
            name: self.name@,
            value: self.value@,
            signature: match self.signature {
                Some(s) => Some(s@),
                None => None,
            },
        }
    }
}

/// The views of a list of properties.
pub open spec fn properties_view(ps: Seq<Property>) -> Seq<PropertyView> {
    ps.map_values(|p: Property| p@)
}

/// The bytes of one property: name, value, whether a signature follows, the signature.
pub open spec fn property_bytes(p: PropertyView) -> Result<Seq<u8>, Error> {
    match encode_string(p.name, MAX_PROPERTY_NAME_CHARS) {
        Err(e) => Err(e),
        Ok(name) => match encode_string(p.value, MAX_PROPERTY_VALUE_CHARS) {
            Err(e) => Err(e),
            Ok(value) => match p.signature {
                None => Ok(name + value + seq![0u8]),
                Some(sig) => match encode_string(sig, MAX_PROPERTY_SIGNATURE_CHARS) {
                    Err(e) => Err(e),
                    Ok(sb) => Ok(name + value + seq![1u8] + sb),
                },
            },
        },
    }
}

/// The bytes of a list of properties, one after the other; the first that cannot be
/// written decides the error.
pub open spec fn properties_bytes(ps: Seq<PropertyView>) -> Result<Seq<u8>, Error>
    decreases ps.len(),
{
    if ps.len() == 0 {
        Ok(Seq::empty())
    } else {
        match property_bytes(ps[0]) {
            Err(e) => Err(e),
            Ok(first) => match properties_bytes(ps.drop_first()) {
                Err(e) => Err(e),
                Ok(others) => Ok(first + others),
            },
        }
    }
}

/// One property at the front of `s`.
pub open spec fn parse_property(s: Seq<u8>) -> Result<(PropertyView, nat), Error> {
    match parse_string(s, MAX_PROPERTY_NAME_CHARS) {
        Err(e) => Err(e),
        Ok((name, n1)) => match parse_string(s.skip(n1 as int), MAX_PROPERTY_VALUE_CHARS) {
            Err(e) => Err(e),
            Ok((value, n2)) => if s.len() < n1 + n2 + 1 {
                Err(eof())
            } else if s[(n1 + n2) as int] == 0 {
                Ok((PropertyView { name, value, signature: None }, n1 + n2 + 1))
            } else {
                match parse_string(s.skip((n1 + n2 + 1) as int), MAX_PROPERTY_SIGNATURE_CHARS) {
                    Err(e) => Err(e),
                    Ok((sig, n3)) => Ok(
                        (PropertyView { name, value, signature: Some(sig) }, n1 + n2 + 1 + n3),
                    ),
                }
            },
        },
    }
}

/// `count` properties at the front of `s`.
pub open spec fn parse_properties(s: Seq<u8>, count: nat) -> Result<
    (Seq<PropertyView>, nat),
    Error,
>
    decreases count,
{
    if count == 0 {
        Ok((Seq::empty(), 0))
    } else {
        match parse_property(s) {
            Err(e) => Err(e),
            Ok((p, n)) => match parse_properties(s.skip(n as int), (count - 1) as nat) {
                Err(e) => Err(e),
                Ok((ps, m)) => Ok((seq![p] + ps, n + m)),
            },
        }
    }
}

/// How many bytes reading one property takes from the front of `s`, whether it succeeds
/// or not.
pub open spec fn property_taken(s: Seq<u8>) -> nat {
    match parse_string(s, MAX_PROPERTY_NAME_CHARS) {
        Err(_) => string_taken(s, MAX_PROPERTY_NAME_CHARS),
        Ok((_, n1)) => match parse_string(s.skip(n1 as int), MAX_PROPERTY_VALUE_CHARS) {
            Err(_) => n1 + string_taken(s.skip(n1 as int), MAX_PROPERTY_VALUE_CHARS),
            Ok((_, n2)) => if s.len() < n1 + n2 + 1 {
                s.len()
            } else if s[(n1 + n2) as int] == 0 {
                n1 + n2 + 1
            } else {
                n1 + n2 + 1 + string_taken(
                    s.skip((n1 + n2 + 1) as int),
                    MAX_PROPERTY_SIGNATURE_CHARS,
                )
            },
        },
    }
}

/// How many bytes reading `count` properties takes from the front of `s` when it fails:
/// the properties read before the faulty one, and what reading that one took.
pub open spec fn properties_taken(s: Seq<u8>, count: nat) -> nat
    decreases count,
{
    if count == 0 {
        0
    } else {
        match parse_property(s) {
            Err(_) => property_taken(s),
            Ok((_, n)) => n + properties_taken(s.skip(n as int), (count - 1) as nat),
        }
    }
}

proof fn lemma_property_taken(s: Seq<u8>)
    ensures
        property_taken(s) <= s.len(),
{
    lemma_string_taken(s, MAX_PROPERTY_NAME_CHARS);
    lemma_parse_string_len(s, MAX_PROPERTY_NAME_CHARS);
    if let Ok((_, n1)) = parse_string(s, MAX_PROPERTY_NAME_CHARS) {
        lemma_string_taken(s.skip(n1 as int), MAX_PROPERTY_VALUE_CHARS);
        lemma_parse_string_len(s.skip(n1 as int), MAX_PROPERTY_VALUE_CHARS);
        if let Ok((_, n2)) = parse_string(s.skip(n1 as int), MAX_PROPERTY_VALUE_CHARS) {
            lemma_string_taken(s.skip((n1 + n2 + 1) as int), MAX_PROPERTY_SIGNATURE_CHARS);
        }
    }
}

proof fn lemma_properties_taken(s: Seq<u8>, count: nat)
    ensures
        properties_taken(s, count) <= s.len(),
    decreases count,
{
    if count > 0 {
        lemma_property_taken(s);
        lemma_parse_property_len(s);
        if let Ok((_, n)) = parse_property(s) {
            lemma_properties_taken(s.skip(n as int), (count - 1) as nat);
        }
    }
}

proof fn lemma_parse_property_len(s: Seq<u8>)
    ensures
        parse_property(s) matches Ok((p, n)) ==> n <= s.len(),
{
    lemma_parse_string_len(s, MAX_PROPERTY_NAME_CHARS);
    if let Ok((_, n1)) = parse_string(s, MAX_PROPERTY_NAME_CHARS) {
        lemma_parse_string_len(s.skip(n1 as int), MAX_PROPERTY_VALUE_CHARS);
        if let Ok((_, n2)) = parse_string(s.skip(n1 as int), MAX_PROPERTY_VALUE_CHARS) {
            lemma_parse_string_len(s.skip((n1 + n2 + 1) as int), MAX_PROPERTY_SIGNATURE_CHARS);
        }
    }
}

proof fn lemma_parse_properties_len(s: Seq<u8>, count: nat)
    ensures
        parse_properties(s, count) matches Ok((ps, n)) ==> n <= s.len() && ps.len() == count,
    decreases count,
{
    if count > 0 {
        lemma_parse_property_len(s);
        if let Ok((p, n)) = parse_property(s) {
            lemma_parse_properties_len(s.skip(n as int), (count - 1) as nat);
        }
    }
}

proof fn lemma_property_roundtrip(p: PropertyView, rest: Seq<u8>)
    requires
        property_bytes(p) is Ok,
    ensures
        parse_property(property_bytes(p)->Ok_0 + rest) == Ok::<(PropertyView, nat), Error>(
            (p, property_bytes(p)->Ok_0.len()),
        ),
{
    let name = encode_string(p.name, MAX_PROPERTY_NAME_CHARS)->Ok_0;
    let value = encode_string(p.value, MAX_PROPERTY_VALUE_CHARS)->Ok_0;
    let s = property_bytes(p)->Ok_0 + rest;
    match p.signature {
        None => {
            assert(s =~= name + (value + (seq![0u8] + rest)));
            lemma_string_roundtrip_limited(p.name, MAX_PROPERTY_NAME_CHARS, value + (seq![0u8] + rest));
            assert(s.skip(name.len() as int) =~= value + (seq![0u8] + rest));
            lemma_string_roundtrip_limited(p.value, MAX_PROPERTY_VALUE_CHARS, seq![0u8] + rest);
        },
        Some(sig) => {
            let sb = encode_string(sig, MAX_PROPERTY_SIGNATURE_CHARS)->Ok_0;
            assert(s =~= name + (value + (seq![1u8] + (sb + rest))));
            lemma_string_roundtrip_limited(
                p.name,
                MAX_PROPERTY_NAME_CHARS,
                value + (seq![1u8] + (sb + rest)),
            );
            assert(s.skip(name.len() as int) =~= value + (seq![1u8] + (sb + rest)));
            lemma_string_roundtrip_limited(
                p.value,
                MAX_PROPERTY_VALUE_CHARS,
                seq![1u8] + (sb + rest),
            );
            assert(s.skip((name.len() + value.len() + 1) as int) =~= sb + rest);
            lemma_string_roundtrip_limited(sig, MAX_PROPERTY_SIGNATURE_CHARS, rest);
        },
    }
}

/// A property's value is followed by one flag byte, `1` exactly when a signature
/// follows: written, the flag is `1` and the signature string comes after it when the
/// property is signed, and the flag `0` ends an unsigned property; read, a signature is
/// taken exactly when the flag byte after the value is not zero.
pub proof fn lemma_property_signature_flag(p: PropertyView, s: Seq<u8>)
    ensures
        property_bytes(p) is Ok ==> ({
            let b = property_bytes(p)->Ok_0;
            let k = encode_string(p.name, MAX_PROPERTY_NAME_CHARS)->Ok_0.len()
                + encode_string(p.value, MAX_PROPERTY_VALUE_CHARS)->Ok_0.len();
            &&& b.take(k as int) == encode_string(p.name, MAX_PROPERTY_NAME_CHARS)->Ok_0
                + encode_string(p.value, MAX_PROPERTY_VALUE_CHARS)->Ok_0
            &&& k < b.len()
            &&& b[k as int] == (if p.signature is Some { 1u8 } else { 0u8 })
            &&& p.signature is None ==> b.len() == k + 1
            &&& p.signature matches Some(sig) ==> b.skip((k + 1) as int) == encode_string(
                sig,
                MAX_PROPERTY_SIGNATURE_CHARS,
            )->Ok_0
        }),
        parse_property(s) matches Ok((q, n)) ==> ({
            let n1 = parse_string(s, MAX_PROPERTY_NAME_CHARS)->Ok_0.1;
            let n2 = parse_string(s.skip(n1 as int), MAX_PROPERTY_VALUE_CHARS)->Ok_0.1;
            &&& n1 + n2 < s.len()
            &&& q.name == parse_string(s, MAX_PROPERTY_NAME_CHARS)->Ok_0.0
            &&& q.value == parse_string(s.skip(n1 as int), MAX_PROPERTY_VALUE_CHARS)->Ok_0.0
            &&& (q.signature is Some <==> s[(n1 + n2) as int] != 0)
            &&& q.signature is None ==> n == n1 + n2 + 1
            &&& q.signature matches Some(sig) ==> parse_string(
                s.skip((n1 + n2 + 1) as int),
                MAX_PROPERTY_SIGNATURE_CHARS,
            ) == Ok::<(Seq<char>, nat), Error>((sig, (n - n1 - n2 - 1) as nat))
        }),
{
    if property_bytes(p) is Ok {
        let name = encode_string(p.name, MAX_PROPERTY_NAME_CHARS)->Ok_0;
        let value = encode_string(p.value, MAX_PROPERTY_VALUE_CHARS)->Ok_0;
        let b = property_bytes(p)->Ok_0;
        let k = name.len() + value.len();
        assert(b.take(k as int) =~= name + value);
        if let Some(sig) = p.signature {
            let sb = encode_string(sig, MAX_PROPERTY_SIGNATURE_CHARS)->Ok_0;
            assert(b.skip((k + 1) as int) =~= sb);
        }
    }
}

proof fn lemma_properties_roundtrip(ps: Seq<PropertyView>, rest: Seq<u8>)
    requires
        properties_bytes(ps) is Ok,
    ensures
        parse_properties(properties_bytes(ps)->Ok_0 + rest, ps.len()) == Ok::<
            (Seq<PropertyView>, nat),
            Error,
        >((ps, properties_bytes(ps)->Ok_0.len())),
    decreases ps.len(),
{
    if ps.len() > 0 {
        let first = property_bytes(ps[0])->Ok_0;
        let others = properties_bytes(ps.drop_first())->Ok_0;
        let s = properties_bytes(ps)->Ok_0 + rest;
        assert(s =~= first + (others + rest));
        lemma_property_roundtrip(ps[0], others + rest);
        assert(s.skip(first.len() as int) =~= others + rest);
        lemma_properties_roundtrip(ps.drop_first(), rest);
        assert(seq![ps[0]] + ps.drop_first() =~= ps);
    } else {
        assert(ps =~= Seq::<PropertyView>::empty());
    }
}

/// Writes one property.
fn write_property(w: &mut Vec<u8>, p: &Property) -> (res: Result<(), Error>)
    ensures
        match property_bytes(p@) {
            Ok(b) => res is Ok && final(w)@ == old(w)@ + b,
            Err(e) => res == Err::<(), Error>(e),
        },
        old(w)@.is_prefix_of(final(w)@),
{
    let ghost w0 = w@;
    match write_string(w, p.name.as_str(), MAX_PROPERTY_NAME_CHARS) {
        Ok(()) => {},
        Err(e) => return Err(e),
    }
    match write_string(w, p.value.as_str(), MAX_PROPERTY_VALUE_CHARS) {
        Ok(()) => {},
        Err(e) => return Err(e),
    }
    let _ = write_bool(w, p.signature.is_some());
    match &p.signature {
        Some(sig) => {
            match write_string(w, sig.as_str(), MAX_PROPERTY_SIGNATURE_CHARS) {
                Ok(()) => {},
                Err(e) => return Err(e),
            }
        },
        None => {},
    }
    assert(w@ =~= w0 + property_bytes(p@)->Ok_0);
    Ok(())
}

/// Writes the properties from index `i` on.
fn write_properties(w: &mut Vec<u8>, ps: &Vec<Property>, i: usize) -> (res: Result<(), Error>)
    requires
        i <= ps@.len(),
    ensures
        match properties_bytes(properties_view(ps@).skip(i as int)) {
            Ok(b) => res is Ok && final(w)@ == old(w)@ + b,
            Err(e) => res == Err::<(), Error>(e),
        },
        old(w)@.is_prefix_of(final(w)@),
    decreases ps@.len() - i,
{
    let ghost vs = properties_view(ps@).skip(i as int);
    if i == ps.len() {
        assert(vs =~= Seq::<PropertyView>::empty());
        assert(w@ =~= w@ + Seq::<u8>::empty());
        return Ok(());
    }
    assert(vs[0] == ps@[i as int]@);
    assert(vs.drop_first() =~= properties_view(ps@).skip((i + 1) as int));
    let ghost w0 = w@;
    match write_property(w, &ps[i]) {
        Ok(()) => {},
        Err(e) => return Err(e),
    }
    let r = write_properties(w, ps, i + 1);
    proof {
        if r is Ok {
            assert(w@ =~= w0 + properties_bytes(vs)->Ok_0);
        }
    }
    r
}

/// Reads one property.
fn read_property(r: &mut &[u8]) -> (res: Result<Property, Error>)
    ensures
        match parse_property(old(r)@) {
            Ok((v, n)) => res matches Ok(p) && p@ == v && final(r)@ == old(r)@.skip(n as int),
            Err(e) => res == Err::<Property, Error>(e) && final(r)@ == old(r)@.skip(
                property_taken(old(r)@) as int,
            ),
        },
{
    let ghost s = r@;
    let mut cur: &[u8] = *r;
    proof {
        lemma_parse_string_len(s, MAX_PROPERTY_NAME_CHARS);
        lemma_string_taken(s, MAX_PROPERTY_NAME_CHARS);
    }
    let name = match read_string(&mut cur, MAX_PROPERTY_NAME_CHARS) {
        Ok(x) => x,
        Err(e) => {
            *r = cur;
            return Err(e);
        },
    };
    let ghost n1 = parse_string(s, MAX_PROPERTY_NAME_CHARS)->Ok_0.1;
    proof {
        lemma_parse_string_len(s.skip(n1 as int), MAX_PROPERTY_VALUE_CHARS);
        lemma_string_taken(s.skip(n1 as int), MAX_PROPERTY_VALUE_CHARS);
    }
    let value = match read_string(&mut cur, MAX_PROPERTY_VALUE_CHARS) {
        Ok(x) => x,
        Err(e) => {
            assert(cur@ =~= s.skip((n1 + string_taken(s.skip(n1 as int), MAX_PROPERTY_VALUE_CHARS)) as int));
            *r = cur;
            return Err(e);
        },
    };
    let ghost n2 = parse_string(s.skip(n1 as int), MAX_PROPERTY_VALUE_CHARS)->Ok_0.1;
    assert(cur@ =~= s.skip((n1 + n2) as int));
    let signed = match read_bool(&mut cur) {
        Ok(b) => b,
        Err(e) => {
            assert(cur@ =~= s.skip(s.len() as int));
            *r = cur;
            return Err(e);
        },
    };
    assert(cur@ =~= s.skip((n1 + n2 + 1) as int));
    proof {
        lemma_parse_string_len(s.skip((n1 + n2 + 1) as int), MAX_PROPERTY_SIGNATURE_CHARS);
        lemma_string_taken(s.skip((n1 + n2 + 1) as int), MAX_PROPERTY_SIGNATURE_CHARS);
    }
    let signature = if signed {
        match read_string(&mut cur, MAX_PROPERTY_SIGNATURE_CHARS) {
            Ok(x) => Some(x),
            Err(e) => {
                assert(cur@ =~= s.skip(
                    (n1 + n2 + 1 + string_taken(s.skip((n1 + n2 + 1) as int), MAX_PROPERTY_SIGNATURE_CHARS)) as int,
                ));
                *r = cur;
                return Err(e);
            },
        }
    } else {
        None
    };
    proof {
        if signed {
            let n3 = parse_string(s.skip((n1 + n2 + 1) as int), MAX_PROPERTY_SIGNATURE_CHARS)->Ok_0.1;
            assert(cur@ =~= s.skip((n1 + n2 + 1 + n3) as int));
        }
    }
    *r = cur;
    Ok(Property { name, value, signature })
}

/// Reads `count` properties and appends them to `out`.
fn read_properties(r: &mut &[u8], count: usize, out: &mut Vec<Property>) -> (res: Result<
    (),
    Error,
>)
    ensures
        match parse_properties(old(r)@, count as nat) {
            Ok((ps, n)) => res is Ok && properties_view(final(out)@) == properties_view(old(out)@)
                + ps && final(r)@ == old(r)@.skip(n as int),
            Err(e) => res == Err::<(), Error>(e) && final(r)@ == old(r)@.skip(
                properties_taken(old(r)@, count as nat) as int,
            ),
        },
    decreases count,
{
    if count == 0 {
        assert(properties_view(out@) =~= properties_view(out@) + Seq::<PropertyView>::empty());
        assert(r@ =~= r@.skip(0));
        return Ok(());
    }
    let ghost s = r@;
    let p = match read_property(r) {
        Ok(p) => p,
        Err(e) => return Err(e),
    };
    let ghost before = out@;
    out.push(p);
    let ghost n = parse_property(s)->Ok_0.1;
    proof {
        lemma_parse_property_len(s);
        lemma_parse_properties_len(s.skip(n as int), (count - 1) as nat);
        lemma_properties_taken(s.skip(n as int), (count - 1) as nat);
    }
    let res = read_properties(r, count - 1, out);
    proof {
        if res is Err {
            assert(r@ =~= s.skip((n + properties_taken(s.skip(n as int), (count - 1) as nat)) as int));
        }
        if res is Ok {
            let ps = parse_properties(s.skip(n as int), (count - 1) as nat)->Ok_0.0;
            assert(properties_view(before.push(p)) =~= properties_view(before).push(p@));
            assert(properties_view(out@) =~= properties_view(before) + (seq![p@] + ps));
            assert(r@ =~= s.skip((n + parse_properties(s.skip(n as int), (count - 1) as nat)->Ok_0.1) as int));
        }
    }
    res
}

/// Clientbound Login Success (id 0x02): the game profile of the player.
#[derive(Debug, Clone, PartialEq, Eq)]
pub struct LoginSuccess {
    pub uuid: u128,
    pub username: String,
    pub properties: Vec<Property>,
    /// Session ID, added in protocol 776.
    pub session_id: u128,
}

/// The fields of a Login Success, as characters and property views.
pub struct LoginSuccessView {
    pub uuid: u128,
    pub username: Seq<char>,
    pub properties: Seq<PropertyView>,
    pub session_id: u128,
}

impl View for LoginSuccess {
    type V = LoginSuccessView;

    open spec fn view(&self) -> LoginSuccessView {
        LoginSuccessView {
            uuid: self.uuid,
            username: self.username@,
            properties: properties_view(self.properties@),
            session_id: self.session_id,
        }
    }
}

/// The body of a Login Success: UUID, name, property count (VarInt), properties,
/// session ID.
pub open spec fn login_success_body(v: LoginSuccessView) -> Result<Seq<u8>, Error> {
    match encode_string(v.username, MAX_NAME_CHARS) {
        Err(e) => Err(e),
        Ok(name) => match properties_bytes(v.properties) {
            Err(e) => Err(e),
            Ok(props) => Ok(
                be_bytes(v.uuid as nat, 16) + name + varint_bytes(v.properties.len() as i32)
                    + props + be_bytes(v.session_id as nat, 16),
            ),
        },
    }
}

/// A Login Success body at the front of `s`. More than 1024 properties are refused.
pub open spec fn parse_login_success(s: Seq<u8>) -> Result<(LoginSuccessView, nat), Error> {
    match parse_be(s, 16) {
        Err(e) => Err(e),
        Ok(uuid) => match parse_string(s.skip(16), MAX_NAME_CHARS) {
            Err(e) => Err(e),
            Ok((username, n1)) => match parse_varint(s.skip((16 + n1) as int)) {
                Err(e) => Err(e),
                Ok((count, n2)) => if count < 0 {
                    Err(Error::NegativeLength(count))
                } else if count > MAX_PROPERTIES {
                    Err(Error::StringTooLong { len: count as usize, max: MAX_PROPERTIES })
                } else {
                    match parse_properties(s.skip((16 + n1 + n2) as int), count as nat) {
                        Err(e) => Err(e),
                        Ok((properties, n3)) => match parse_be(s.skip((16 + n1 + n2 + n3) as int), 16) {
                            Err(e) => Err(e),
                            Ok(session_id) => Ok(
                                (
                                    LoginSuccessView {
                                        uuid: uuid as u128,
                                        username,
                                        properties,
                                        session_id: session_id as u128,
                                    },
                                    16 + n1 + n2 + n3 + 16,
                                ),
                            ),
                        },
                    }
                },
            },
        },
    }
}

/// How many bytes reading a Login Success body takes from the front of `s` when it
/// fails: the fields read before the faulty one, and what reading that one took.
pub open spec fn login_success_taken(s: Seq<u8>) -> nat {
    if s.len() < 16 {
        s.len()
    } else {
        match parse_string(s.skip(16), MAX_NAME_CHARS) {
            Err(_) => 16 + string_taken(s.skip(16), MAX_NAME_CHARS),
            Ok((_, n1)) => match parse_varint(s.skip((16 + n1) as int)) {
                Err(_) => 16 + n1 + varint_taken(s.skip((16 + n1) as int)),
                Ok((count, n2)) => if count < 0 || count > MAX_PROPERTIES {
                    16 + n1 + n2
                } else {
                    match parse_properties(s.skip((16 + n1 + n2) as int), count as nat) {
                        Err(_) => 16 + n1 + n2 + properties_taken(
                            s.skip((16 + n1 + n2) as int),
                            count as nat,
                        ),
                        Ok((_, n3)) => if s.len() < 16 + n1 + n2 + n3 + 16 {
                            s.len()
                        } else {
                            16 + n1 + n2 + n3 + 16
                        },
                    }
                },
            },
        }
    }
}

impl Packet for LoginSuccess {
    const ID: i32 = 0x02;

    open spec fn spec_id() -> i32 {
        0x02
    }

    proof fn lemma_id() {
    }

    open spec fn encode_body(v: LoginSuccessView) -> Result<Seq<u8>, Error> {
        login_success_body(v)
    }

    open spec fn parse_body(s: Seq<u8>) -> Result<(LoginSuccessView, nat), Error> {
        parse_login_success(s)
    }

    open spec fn read_taken(s: Seq<u8>) -> nat {
        login_success_taken(s)
    }

    open spec fn within_read_limits(v: LoginSuccessView) -> bool {
        v.properties.len() <= MAX_PROPERTIES
    }

    fn write_body(&self, w: &mut Vec<u8>) -> (res: Result<(), Error>) {
        let ghost w0 = w@;
        let _ = write_uuid(w, self.uuid);
        match write_string(w, self.username.as_str(), MAX_NAME_CHARS) {
            Ok(()) => {},
            Err(e) => return Err(e),
        }
        let _ = write_varint(w, self.properties.len() as i32);
        assert(properties_view(self.properties@).skip(0) =~= properties_view(self.properties@));
        match write_properties(w, &self.properties, 0) {
            Ok(()) => {},
            Err(e) => return Err(e),
        }
        let _ = write_uuid(w, self.session_id);
        assert(w@ =~= w0 + login_success_body(self@)->Ok_0);
        Ok(())
    }

    fn read_body(r: &mut &[u8]) -> (res: Result<Self, Error>) {
        let ghost s = r@;
        let mut cur: &[u8] = *r;
        let uuid = match read_uuid(&mut cur) {
            Ok(u) => u,
            Err(e) => {
                assert(cur@ =~= s.skip(s.len() as int));
                *r = cur;
                return Err(e);
            },
        };
        proof {
            lemma_parse_string_len(s.skip(16), MAX_NAME_CHARS);
            lemma_string_taken(s.skip(16), MAX_NAME_CHARS);
        }
        let username = match read_string(&mut cur, MAX_NAME_CHARS) {
            Ok(x) => x,
            Err(e) => {
                assert(cur@ =~= s.skip((16 + string_taken(s.skip(16), MAX_NAME_CHARS)) as int));
                *r = cur;
                return Err(e);
            },
        };
        let ghost n1 = parse_string(s.skip(16), MAX_NAME_CHARS)->Ok_0.1;
        assert(cur@ =~= s.skip((16 + n1) as int));
        proof {
            lemma_parse_varint_len(cur@);
            lemma_leb128_taken(cur@, 5);
        }
        let count = match read_varint(&mut cur) {
            Ok(c) => c,
            Err(e) => {
                assert(cur@ =~= s.skip((16 + n1 + varint_taken(s.skip((16 + n1) as int))) as int));
                *r = cur;
                return Err(e);
            },
        };
        let ghost n2 = parse_varint(s.skip((16 + n1) as int))->Ok_0.1;
        assert(cur@ =~= s.skip((16 + n1 + n2) as int));
        if count < 0 {
            *r = cur;
            return Err(Error::NegativeLength(count));
        }
        let count = count as usize;
        if count > MAX_PROPERTIES {
            *r = cur;
            return Err(Error::StringTooLong { len: count, max: MAX_PROPERTIES });
        }
        proof {
            lemma_parse_properties_len(s.skip((16 + n1 + n2) as int), count as nat);
            lemma_properties_taken(s.skip((16 + n1 + n2) as int), count as nat);
        }
        let mut properties: Vec<Property> = Vec::new();
        match read_properties(&mut cur, count, &mut properties) {
            Ok(()) => {},
            Err(e) => {
                assert(cur@ =~= s.skip(
                    (16 + n1 + n2 + properties_taken(s.skip((16 + n1 + n2) as int), count as nat)) as int,
                ));
                *r = cur;
                return Err(e);
            },
        }
        assert(properties_view(Seq::<Property>::empty()) =~= Seq::<PropertyView>::empty());
        let ghost n3 = parse_properties(s.skip((16 + n1 + n2) as int), count as nat)->Ok_0.1;
        assert(cur@ =~= s.skip((16 + n1 + n2 + n3) as int));
        let session_id = match read_uuid(&mut cur) {
            Ok(u) => u,
            Err(e) => {
                assert(cur@ =~= s.skip(s.len() as int));
                *r = cur;
                return Err(e);
            },
        };
        assert(cur@ =~= s.skip((16 + n1 + n2 + n3 + 16) as int));
        *r = cur;
        Ok(LoginSuccess { uuid, username, properties, session_id })
    }

    proof fn lemma_parse_body_len(s: Seq<u8>) {
        if let Ok(_) = parse_be(s, 16) {
            lemma_parse_string_len(s.skip(16), MAX_NAME_CHARS);
            if let Ok((_, n1)) = parse_string(s.skip(16), MAX_NAME_CHARS) {
                lemma_parse_varint_len(s.skip((16 + n1) as int));
                if let Ok((count, n2)) = parse_varint(s.skip((16 + n1) as int)) {
                    if 0 <= count {
                        lemma_parse_properties_len(s.skip((16 + n1 + n2) as int), count as nat);
                    }
                }
            }
        }
    }

    #[verifier::rlimit(40)]
    proof fn lemma_body_roundtrip(v: LoginSuccessView, rest: Seq<u8>) {
        let ub = be_bytes(v.uuid as nat, 16);
        let name = encode_string(v.username, MAX_NAME_CHARS)->Ok_0;
        let count = v.properties.len() as i32;
        let cb = varint_bytes(count);
        let props = properties_bytes(v.properties)->Ok_0;
        let sb = be_bytes(v.session_id as nat, 16);
        let s = login_success_body(v)->Ok_0 + rest;
        let s4 = sb + rest;
        let s3 = props + s4;
        let s2 = cb + s3;
        let s1 = name + s2;
        assert(s =~= ub + s1);
        lemma_uuid_roundtrip(v.uuid, s1);
        assert(s.skip(16) =~= s1);
        lemma_string_roundtrip_limited(v.username, MAX_NAME_CHARS, s2);
        let n1 = name.len();
        assert(s.skip((16 + n1) as int) =~= s2);
        lemma_varint_roundtrip(count, s3);
        let n2 = cb.len();
        assert(s.skip((16 + n1 + n2) as int) =~= s3);
        assert(count as nat == v.properties.len());
        lemma_properties_roundtrip(v.properties, s4);
        let n3 = props.len();
        assert(s.skip((16 + n1 + n2 + n3) as int) =~= s4);
        lemma_uuid_roundtrip(v.session_id, rest);
        assert(parse_be(s, 16) == Ok::<nat, Error>(v.uuid as nat));
        assert(parse_string(s.skip(16), MAX_NAME_CHARS) == Ok::<(Seq<char>, nat), Error>((v.username, n1)));
        assert(parse_varint(s.skip((16 + n1) as int)) == Ok::<(i32, nat), Error>((count, n2)));
        assert(parse_properties(s.skip((16 + n1 + n2) as int), count as nat) == Ok::<(Seq<PropertyView>, nat), Error>((v.properties, n3)));
        assert(parse_be(s.skip((16 + n1 + n2 + n3) as int), 16) == Ok::<nat, Error>(v.session_id as nat));
        assert(login_success_body(v)->Ok_0.len() == 16 + n1 + n2 + n3 + 16);
    }
}

/// Clientbound Set Compression (id 0x03). A negative threshold disables compression.
#[derive(Debug, Clone, Copy, PartialEq, Eq)]
pub struct SetCompression {
    pub threshold: i32,
}

impl View for SetCompression {
    type V = i32;

    open spec fn view(&self) -> i32 {
        self.threshold
    }
}

impl Packet for SetCompression {
    const ID: i32 = 0x03;

    open spec fn spec_id() -> i32 {
        0x03
    }

    proof fn lemma_id() {
    }

    open spec fn encode_body(v: i32) -> Result<Seq<u8>, Error> {
        Ok(varint_bytes(v))
    }

    open spec fn parse_body(s: Seq<u8>) -> Result<(i32, nat), Error> {
        parse_varint(s)
    }

    open spec fn read_taken(s: Seq<u8>) -> nat {
        varint_taken(s)
    }

    open spec fn within_read_limits(v: i32) -> bool {
        true
    }

    fn write_body(&self, w: &mut Vec<u8>) -> (res: Result<(), Error>) {
        write_varint(w, self.threshold)
    }

    fn read_body(r: &mut &[u8]) -> (res: Result<Self, Error>) {
        match read_varint(r) {
            Ok(threshold) => Ok(SetCompression { threshold }),
            Err(e) => Err(e),
        }
    }

    proof fn lemma_parse_body_len(s: Seq<u8>) {
        lemma_parse_varint_len(s);
    }

    proof fn lemma_body_roundtrip(v: i32, rest: Seq<u8>) {
        lemma_varint_roundtrip(v, rest);
    }
}

/// The Set Compression body is the threshold as a plain VarInt: written, its seven-bit
/// digits spell the threshold's 32-bit two's complement; read, any body is taken as the
/// VarInt at its front, so the threshold written is the threshold read.
pub proof fn lemma_set_compression_body_is_varint(v: i32, s: Seq<u8>, rest: Seq<u8>)
    ensures
        SetCompression::encode_body(v) == Ok::<Seq<u8>, Error>(varint_bytes(v)),
        leb128_value(SetCompression::encode_body(v)->Ok_0) == (v as u32) as nat,
        SetCompression::parse_body(s) == parse_varint(s),
        SetCompression::parse_body(SetCompression::encode_body(v)->Ok_0 + rest) == Ok::<
            (i32, nat),
            Error,
        >((v, varint_bytes(v).len())),
{
    lemma_varint_shape(v);
    lemma_varint_roundtrip(v, rest);
}

/// Serverbound Login Acknowledged (id 0x03, empty). Switches to the configuration state.
#[derive(Debug, Clone, Copy, PartialEq, Eq, Default)]
pub struct LoginAcknowledged;

impl View for LoginAcknowledged {
    type V = ();

    open spec fn view(&self) -> () {
        ()
    }
}

impl Packet for LoginAcknowledged {
    const ID: i32 = 0x03;

    open spec fn spec_id() -> i32 {
        0x03
    }

    proof fn lemma_id() {
    }

    open spec fn encode_body(v: ()) -> Result<Seq<u8>, Error> {
        Ok(Seq::empty())
    }

    open spec fn parse_body(s: Seq<u8>) -> Result<((), nat), Error> {
        Ok(((), 0))
    }

    open spec fn read_taken(s: Seq<u8>) -> nat {
        0
    }

    open spec fn within_read_limits(v: ()) -> bool {
        true
    }

    fn write_body(&self, w: &mut Vec<u8>) -> (res: Result<(), Error>) {
        assert(w@ =~= w@ + Seq::<u8>::empty());
        Ok(())
    }

    fn read_body(r: &mut &[u8]) -> (res: Result<Self, Error>) {
        assert(r@ =~= r@.skip(0));
        Ok(LoginAcknowledged)
    }

    proof fn lemma_parse_body_len(s: Seq<u8>) {
    }

    proof fn lemma_body_roundtrip(v: (), rest: Seq<u8>) {
    }
}

/// Clientbound Disconnect in the login state (id 0x00). The reason is JSON text.
#[derive(Debug, Clone, PartialEq, Eq)]
pub struct LoginDisconnect {
    pub reason: String,
}

impl View for LoginDisconnect {
    type V = Seq<char>;

    open spec fn view(&self) -> Seq<char> {
        self.reason@
    }
}

impl Packet for LoginDisconnect {
    const ID: i32 = 0x00;

    open spec fn spec_id() -> i32 {
        0x00
    }

    proof fn lemma_id() {
    }

    open spec fn encode_body(v: Seq<char>) -> Result<Seq<u8>, Error> {
        encode_string(v, MAX_DISCONNECT_CHARS)
    }

    open spec fn parse_body(s: Seq<u8>) -> Result<(Seq<char>, nat), Error> {
        parse_string(s, MAX_DISCONNECT_CHARS)
    }

    open spec fn read_taken(s: Seq<u8>) -> nat {
        string_taken(s, MAX_DISCONNECT_CHARS)
    }

    open spec fn within_read_limits(v: Seq<char>) -> bool {
        true
    }

    fn write_body(&self, w: &mut Vec<u8>) -> (res: Result<(), Error>) {
        write_string(w, self.reason.as_str(), MAX_DISCONNECT_CHARS)
    }

    fn read_body(r: &mut &[u8]) -> (res: Result<Self, Error>) {
        match read_string(r, MAX_DISCONNECT_CHARS) {
            Ok(reason) => Ok(LoginDisconnect { reason }),
            Err(e) => Err(e),
        }
    }

    proof fn lemma_parse_body_len(s: Seq<u8>) {
        lemma_parse_string_len(s, MAX_DISCONNECT_CHARS);
    }

    proof fn lemma_body_roundtrip(v: Seq<char>, rest: Seq<u8>) {
        lemma_string_roundtrip_limited(v, MAX_DISCONNECT_CHARS, rest);
    }
}

} // verus!
