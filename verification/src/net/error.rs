use vstd::prelude::*;

use serde_json::Error as JsonError;

use vstd::utf8::encode_utf8;

use crate::protocol;
use crate::protocol::error::{
    decimal, message_text, push_message, push_signed, push_str, signed_decimal, text_to_string,
};

verus! {

/// `std::io::Error`, carried through unchanged (nothing here looks inside it).
#[verifier::external_type_specification]
#[verifier::external_body]
pub struct ExIoError(std::io::Error);

/// `serde_json::Error`, carried through unchanged (nothing here looks inside it).
#[verifier::external_type_specification]
#[verifier::external_body]
pub struct ExJsonError(JsonError);

/// Errors of the connection layer.
#[derive(Debug)]
#[non_exhaustive]
pub enum Error {
    Io(std::io::Error),
    Protocol(protocol::Error),
    /// The host name did not resolve to any address.
    NoAddress,
    /// The pong payload did not match the ping payload.
    PongMismatch { sent: i64, received: i64 },
    /// The server ended the connection with a reason (JSON text in the login state).
    Disconnected(String),
    /// The server wants encryption, which needs online mode (not implemented yet).
    EncryptionRequired,
    /// The server sent something we cannot handle yet.
    Unsupported(&'static str),
    /// A decompressed packet was larger than allowed or its length field did not match.
    BadCompression,
    /// The connection was closed and no more packets can be sent or received.
    Closed,
    /// The status response was not valid JSON of the expected shape.
    Json(JsonError),
}

/// The message an error is shown with, where `inner` is the text of the outside error
/// that `Io` and `Json` carry (for the other variants it plays no part).
pub open spec fn net_message_text(e: &Error, inner: Seq<char>) -> Seq<char> {
    match e {
        Error::Io(_) => "i/o error: "@ + inner,
        Error::Protocol(p) => "protocol error: "@ + message_text(*p),
        Error::NoAddress => "host did not resolve to any address"@,
        Error::PongMismatch { sent, received } => "pong payload "@ + signed_decimal(
            *received as int,
        ) + " does not match ping payload "@ + signed_decimal(*sent as int),
        Error::Disconnected(reason) => "disconnected by server: "@ + reason@,
        Error::EncryptionRequired => "server requires encryption (online mode is not implemented yet)"@,
        Error::Unsupported(what) => "not supported yet: "@ + what@,
        Error::BadCompression => "invalid compressed packet"@,
        Error::Closed => "connection closed"@,
        Error::Json(_) => "invalid status JSON: "@ + inner,
    }
}

impl Error {
    /// The message this error is shown with. For `Io` and `Json` it ends with the text
    /// that the carried error displays.
    pub fn message(&self) -> (m: String)
        ensures
            exists|inner: Seq<char>| m@ == #[trigger] net_message_text(self, inner),
    {
        let mut buf: Vec<u8> = Vec::new();
        let ghost e = Seq::<char>::empty();
        assert(buf@ =~= encode_utf8(e));
        let ghost mut inner = Seq::<char>::empty();
        match self {
            Error::Io(err) => {
                push_str(&mut buf, "i/o error: ", Ghost(e));
                let text = err.to_string();
                push_str(&mut buf, text.as_str(), Ghost(e + "i/o error: "@));
                proof {
                    inner = text@;
                }
            },
            Error::Protocol(p) => {
                push_str(&mut buf, "protocol error: ", Ghost(e));
                push_message(&mut buf, p, Ghost(e + "protocol error: "@));
            },
            Error::NoAddress => {
                push_str(&mut buf, "host did not resolve to any address", Ghost(e));
            },
            Error::PongMismatch { sent, received } => {
                push_str(&mut buf, "pong payload ", Ghost(e));
                let ghost t1 = e + "pong payload "@;
                push_signed(&mut buf, *received, Ghost(t1));
                let ghost t2 = t1 + signed_decimal(*received as int);
                push_str(&mut buf, " does not match ping payload ", Ghost(t2));
                let ghost t3 = t2 + " does not match ping payload "@;
                push_signed(&mut buf, *sent, Ghost(t3));
                assert(t3 + signed_decimal(*sent as int) =~= net_message_text(self, inner));
            },
            Error::Disconnected(reason) => {
                push_str(&mut buf, "disconnected by server: ", Ghost(e));
                push_str(&mut buf, reason.as_str(), Ghost(e + "disconnected by server: "@));
            },
            Error::EncryptionRequired => {
                push_str(
                    &mut buf,
                    "server requires encryption (online mode is not implemented yet)",
                    Ghost(e),
                );
            },
            Error::Unsupported(what) => {
                push_str(&mut buf, "not supported yet: ", Ghost(e));
                push_str(&mut buf, what, Ghost(e + "not supported yet: "@));
            },
            Error::BadCompression => {
                push_str(&mut buf, "invalid compressed packet", Ghost(e));
            },
            Error::Closed => {
                push_str(&mut buf, "connection closed", Ghost(e));
            },
            Error::Json(err) => {
                push_str(&mut buf, "invalid status JSON: ", Ghost(e));
                let text = err.to_string();
                push_str(&mut buf, text.as_str(), Ghost(e + "invalid status JSON: "@));
                proof {
                    inner = text@;
                }
            },
        }
        assert(e + net_message_text(self, inner) =~= net_message_text(self, inner));
        assert(buf@ == encode_utf8(net_message_text(self, inner)));
        text_to_string(buf, Ghost(net_message_text(self, inner)))
    }
}

} // verus!
