//! Connection layer: framing with optional zlib compression, offline-mode UUIDs, and
//! the decisions of the login, configuration and status conversations.
//!
//! The I/O itself (sockets, threads, timers) is not here; this module computes what to
//! send and what a received packet means.

pub mod connection;
pub mod error;
pub mod framing;
pub mod offline;
pub mod status;

pub use error::Error;
