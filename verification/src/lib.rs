//! Verified core of a small peer-to-peer social node: the wire events, the
//! newline-framed message stream, the reactions of a connection handler, the
//! decoding of a node's identity and the printable rendering of raw bytes.

pub mod events;
pub mod pipe;
pub mod handler;
pub mod connection;
pub mod escape;
pub mod identity;
pub mod message;
pub mod peer;
