use vstd::prelude::*;
use vstd::utf8::{encode_utf8, is_ascii_chars, is_ascii_chars_encode_utf8};

verus! {

broadcast use vstd::utf8::encode_utf8_valid_utf8, vstd::utf8::encode_utf8_decode_utf8;

/// Why reading from a byte slice failed at the I/O level.
#[derive(Debug, Clone, Copy, PartialEq, Eq, Structural)]
pub enum IoError {
    /// The slice ended before the value was complete.
    UnexpectedEof,
}

/// Errors produced while reading or writing protocol data.
#[derive(Debug, Clone, Copy, PartialEq, Eq, Structural)]
#[non_exhaustive]
pub enum Error {
    /// The input ended before the value was complete.
    Io(IoError),
    /// A VarInt or VarLong used more bytes than allowed.
    VarIntTooLong,
    /// A length prefix was negative.
    NegativeLength(i32),
    /// A packet frame exceeded the maximum allowed size.
    FrameTooLarge { len: usize, max: usize },
    /// A string exceeded its maximum length.
    StringTooLong { len: usize, max: usize },
    /// A string was not valid UTF-8.
    InvalidUtf8,
    /// The handshake requested a next state we do not know.
    InvalidNextState(i32),
    /// A frame carried a different packet id than expected.
    UnexpectedPacketId { expected: i32, got: i32 },
    /// A packet body had unread bytes left over.
    TrailingBytes(usize),
}

/// The error every reader returns when its input ends too early.
pub open spec fn eof() -> Error {
    Error::Io(IoError::UnexpectedEof)
}

// ---------------------------------------------------------------------------------
// Numbers as text
// ---------------------------------------------------------------------------------

/// The digit for `d` (below 16): `0`-`9`, then `a`-`f`.
pub open spec fn digit_char(d: nat) -> char {
    if d < 10 {
        (48 + d) as char
    } else {
        (87 + d) as char
    }
}

/// `n` in decimal, without leading zeros.
pub open spec fn decimal(n: nat) -> Seq<char>
    decreases n,
{
    if n < 10 {
        seq![digit_char(n)]
    } else {
        decimal(n / 10).push(digit_char(n % 10))
    }
}

/// `v` in decimal, with a `-` in front when it is negative.
pub open spec fn signed_decimal(v: int) -> Seq<char> {
    if v < 0 {
        seq!['-'] + decimal((-v) as nat)
    } else {
        decimal(v as nat)
    }
}

/// `n` in lower-case hexadecimal, padded with zeros to at least `width` digits.
pub open spec fn hex_digits(n: nat, width: nat) -> Seq<char>
    decreases n, width,
{
    if n < 16 && width <= 1 {
        seq![digit_char(n)]
    } else {
        hex_digits(n / 16, if width > 0 { (width - 1) as nat } else { 0 }).push(
            digit_char(n % 16),
        )
    }
}

/// UTF-8 encodes a concatenation piece by piece.
pub proof fn lemma_encode_utf8_concat(a: Seq<char>, b: Seq<char>)
    ensures
        encode_utf8(a + b) == encode_utf8(a) + encode_utf8(b),
    decreases a.len(),
{
    if a.len() == 0 {
        assert(a + b =~= b);
        assert(encode_utf8(a) =~= Seq::<u8>::empty());
        assert(encode_utf8(a) + encode_utf8(b) =~= encode_utf8(b));
    } else {
        assert((a + b).drop_first() =~= a.drop_first() + b);
        assert((a + b)[0] == a[0]);
        lemma_encode_utf8_concat(a.drop_first(), b);
        assert(encode_utf8(a + b) =~= encode_utf8(a) + encode_utf8(b));
    }
}

/// Appends one ASCII character's byte to text kept as UTF-8.
fn push_ascii(buf: &mut Vec<u8>, byte: u8, Ghost(text): Ghost<Seq<char>>, Ghost(c): Ghost<char>)
    requires
        old(buf)@ == encode_utf8(text),
        byte < 0x80,
        c as u32 == byte,
    ensures
        final(buf)@ == encode_utf8(text.push(c)),
{
    proof {
        let s = seq![c];
        assert(is_ascii_chars(s));
        is_ascii_chars_encode_utf8(s);
        assert(encode_utf8(s) =~= seq![byte]);
        lemma_encode_utf8_concat(text, s);
        assert(text + s =~= text.push(c));
    }
    buf.push(byte);
    proof {
        assert(buf@ =~= encode_utf8(text) + seq![byte]);
    }
}

/// Appends a string's bytes to text kept as UTF-8.
pub(crate) fn push_str(buf: &mut Vec<u8>, s: &str, Ghost(text): Ghost<Seq<char>>)
    requires
        old(buf)@ == encode_utf8(text),
    ensures
        final(buf)@ == encode_utf8(text + s@),
{
    let bytes = s.as_bytes();
    let mut i: usize = 0;
    while i < bytes.len()
        invariant
            i <= bytes@.len(),
            bytes@ == encode_utf8(s@),
            buf@ == old(buf)@ + bytes@.take(i as int),
        decreases bytes@.len() - i,
    {
        buf.push(bytes[i]);
        i = i + 1;
        assert(buf@ =~= old(buf)@ + bytes@.take(i as int));
    }
    proof {
        assert(bytes@.take(i as int) =~= bytes@);
        lemma_encode_utf8_concat(text, s@);
    }
}

/// The character of a digit below 16 and its ASCII byte.
proof fn lemma_digit_char(d: nat)
    requires
        d < 16,
    ensures
        digit_char(d) as u32 == if d < 10 { 48 + d } else { 87 + d },
{
}

/// Appends `n` in decimal.
fn push_decimal(buf: &mut Vec<u8>, n: u64, Ghost(text): Ghost<Seq<char>>)
    requires
        old(buf)@ == encode_utf8(text),
    ensures
        final(buf)@ == encode_utf8(text + decimal(n as nat)),
    decreases n,
{
    let d = (n % 10) as u8;
    let ghost mid = text;
    if n >= 10 {
        push_decimal(buf, n / 10, Ghost(text));
        proof {
            mid = text + decimal((n / 10) as nat);
        }
    }
    proof {
        lemma_digit_char(d as nat);
    }
    push_ascii(buf, 48 + d, Ghost(mid), Ghost(digit_char(d as nat)));
    proof {
        if n >= 10 {
            assert(mid.push(digit_char(d as nat)) =~= text + decimal(n as nat));
        } else {
            assert(mid.push(digit_char(d as nat)) =~= text + decimal(n as nat));
        }
    }
}

/// Appends `v` in decimal, with a `-` in front when it is negative.
pub(crate) fn push_signed(buf: &mut Vec<u8>, v: i64, Ghost(text): Ghost<Seq<char>>)
    requires
        old(buf)@ == encode_utf8(text),
    ensures
        final(buf)@ == encode_utf8(text + signed_decimal(v as int)),
{
    if v < 0 {
        push_ascii(buf, 45, Ghost(text), Ghost('-'));
        let magnitude: u64 = if v == i64::MIN {
            0x8000_0000_0000_0000
        } else {
            (-v) as u64
        };
        push_decimal(buf, magnitude, Ghost(text.push('-')));
        assert(text.push('-') + decimal(magnitude as nat) =~= text + signed_decimal(v as int));
    } else {
        push_decimal(buf, v as u64, Ghost(text));
    }
}

/// Appends `n` in hexadecimal, padded with zeros to at least `width` digits.
fn push_hex(buf: &mut Vec<u8>, n: u32, width: u32, Ghost(text): Ghost<Seq<char>>)
    requires
        old(buf)@ == encode_utf8(text),
    ensures
        final(buf)@ == encode_utf8(text + hex_digits(n as nat, width as nat)),
    decreases n, width,
{
    let d = (n % 16) as u8;
    let ghost mid = text;
    if n >= 16 || width > 1 {
        let w = if width > 0 {
            width - 1
        } else {
            0
        };
        push_hex(buf, n / 16, w, Ghost(text));
        proof {
            mid = text + hex_digits((n / 16) as nat, w as nat);
        }
    }
    proof {
        lemma_digit_char(d as nat);
    }
    let byte = if d < 10 {
        48 + d
    } else {
        87 + d
    };
    push_ascii(buf, byte, Ghost(mid), Ghost(digit_char(d as nat)));
    proof {
        assert(mid.push(digit_char(d as nat)) =~= text + hex_digits(n as nat, width as nat));
    }
}

/// Turns UTF-8 bytes built by the functions above into a `String`.
pub(crate) fn text_to_string(buf: Vec<u8>, Ghost(text): Ghost<Seq<char>>) -> (s: String)
    requires
        buf@ == encode_utf8(text),
    ensures
        s@ == text,
{
    match crate::protocol::codec::string_from_utf8(buf) {
        Some(s) => s,
        None => String::new(),
    }
}

// ---------------------------------------------------------------------------------
// Messages
// ---------------------------------------------------------------------------------

/// The message an error is shown with.
pub open spec fn message_text(e: Error) -> Seq<char> {
    match e {
        Error::Io(_) => "i/o error: failed to fill whole buffer"@,
        Error::VarIntTooLong => "VarInt/VarLong is too long"@,
        Error::NegativeLength(n) => "negative length prefix: "@ + signed_decimal(n as int),
        Error::FrameTooLarge { len, max } => "packet frame too large: "@ + decimal(len as nat)
            + " bytes (max "@ + decimal(max as nat) + ")"@,
        Error::StringTooLong { len, max } => "string too long: "@ + decimal(len as nat)
            + " (max "@ + decimal(max as nat) + ")"@,
        Error::InvalidUtf8 => "string is not valid UTF-8"@,
        Error::InvalidNextState(n) => "invalid handshake next state: "@ + signed_decimal(
            n as int,
        ),
        Error::UnexpectedPacketId { expected, got } => "unexpected packet id 0x"@ + hex_digits(
            (got as u32) as nat,
            2,
        ) + " (expected 0x"@ + hex_digits((expected as u32) as nat, 2) + ")"@,
        Error::TrailingBytes(n) => decimal(n as nat) + " unread bytes left in packet body"@,
    }
}

/// Appends the message of `e` to text kept as UTF-8.
pub(crate) fn push_message(buf: &mut Vec<u8>, e: &Error, Ghost(text): Ghost<Seq<char>>)
    requires
        old(buf)@ == encode_utf8(text),
    ensures
        final(buf)@ == encode_utf8(text + message_text(*e)),
{
    let ghost t = text;
    match e {
        Error::Io(_) => {
            push_str(buf, "i/o error: failed to fill whole buffer", Ghost(t));
        },
        Error::VarIntTooLong => {
            push_str(buf, "VarInt/VarLong is too long", Ghost(t));
        },
        Error::NegativeLength(n) => {
            push_str(buf, "negative length prefix: ", Ghost(t));
            push_signed(buf, *n as i64, Ghost(t + "negative length prefix: "@));
            assert(t + "negative length prefix: "@ + signed_decimal(*n as int) =~= t
                + message_text(*e));
        },
        Error::FrameTooLarge { len, max } => {
            push_str(buf, "packet frame too large: ", Ghost(t));
            let ghost t1 = t + "packet frame too large: "@;
            push_decimal(buf, *len as u64, Ghost(t1));
            let ghost t2 = t1 + decimal(*len as nat);
            push_str(buf, " bytes (max ", Ghost(t2));
            let ghost t3 = t2 + " bytes (max "@;
            push_decimal(buf, *max as u64, Ghost(t3));
            let ghost t4 = t3 + decimal(*max as nat);
            push_str(buf, ")", Ghost(t4));
            assert(t4 + ")"@ =~= t + message_text(*e));
        },
        Error::StringTooLong { len, max } => {
            push_str(buf, "string too long: ", Ghost(t));
            let ghost t1 = t + "string too long: "@;
            push_decimal(buf, *len as u64, Ghost(t1));
            let ghost t2 = t1 + decimal(*len as nat);
            push_str(buf, " (max ", Ghost(t2));
            let ghost t3 = t2 + " (max "@;
            push_decimal(buf, *max as u64, Ghost(t3));
            let ghost t4 = t3 + decimal(*max as nat);
            push_str(buf, ")", Ghost(t4));
            assert(t4 + ")"@ =~= t + message_text(*e));
        },
        Error::InvalidUtf8 => {
            push_str(buf, "string is not valid UTF-8", Ghost(t));
        },
        Error::InvalidNextState(n) => {
            push_str(buf, "invalid handshake next state: ", Ghost(t));
            push_signed(buf, *n as i64, Ghost(t + "invalid handshake next state: "@));
            assert(t + "invalid handshake next state: "@ + signed_decimal(*n as int) =~= t
                + message_text(*e));
        },
        Error::UnexpectedPacketId { expected, got } => {
            push_str(buf, "unexpected packet id 0x", Ghost(t));
            let ghost t1 = t + "unexpected packet id 0x"@;
            push_hex(buf, #[verifier::truncate] (*got as u32), 2, Ghost(t1));
            let ghost t2 = t1 + hex_digits((*got as u32) as nat, 2);
            push_str(buf, " (expected 0x", Ghost(t2));
            let ghost t3 = t2 + " (expected 0x"@;
            push_hex(buf, #[verifier::truncate] (*expected as u32), 2, Ghost(t3));
            let ghost t4 = t3 + hex_digits((*expected as u32) as nat, 2);
            push_str(buf, ")", Ghost(t4));
            assert(t4 + ")"@ =~= t + message_text(*e));
        },
        Error::TrailingBytes(n) => {
            push_decimal(buf, *n as u64, Ghost(t));
            push_str(buf, " unread bytes left in packet body", Ghost(t + decimal(*n as nat)));
            assert(t + decimal(*n as nat) + " unread bytes left in packet body"@ =~= t
                + message_text(*e));
        },
    }
}

impl Error {
    /// The message this error is shown with.
    pub fn message(&self) -> (m: String)
        ensures
            m@ == message_text(*self),
    {
        let mut buf: Vec<u8> = Vec::new();
        assert(buf@ =~= encode_utf8(Seq::<char>::empty()));
        push_message(&mut buf, self, Ghost(Seq::empty()));
        assert(Seq::<char>::empty() + message_text(*self) =~= message_text(*self));
        text_to_string(buf, Ghost(message_text(*self)))
    }
}

} // verus!
