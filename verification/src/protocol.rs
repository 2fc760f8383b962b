//! Wire-level primitives and packets: VarInts, big-endian numbers, length-prefixed
//! strings, the uncompressed `[length][id][body]` framing and the packets of the
//! handshake, status and login states.
//!
//! Everything works on byte slices: readers take `&mut &[u8]` and advance it past what
//! they consumed, writers append to a `Vec<u8>`.


pub mod codec;
pub mod error;
pub mod handshake;
pub mod login;
pub mod packet;
pub mod status;
pub mod varint;

pub use error::{Error, IoError};

use vstd::prelude::*;

verus! {

/// Protocol version sent in the handshake of a status request.
///
/// The protocol version is required by the Minecraft protocol. Servers may
/// ignore it, but some implementations use or reflect the value in the
/// returned status response.
pub const PROTOCOL_VERSION: i32 = -1;

} // verus!
