//! Events exchanged between two peers over one connection, and the errors
//! that end a read.

use vstd::prelude::*;

verus! {

/// Asks the peer to answer with a [`Pong`].
#[derive(Debug, Clone, Copy, PartialEq, Eq, Structural)]
pub struct Ping {}

/// The answer to a [`Ping`].
#[derive(Debug, Clone, Copy, PartialEq, Eq, Structural)]
pub struct Pong {}

/// Asks the peer to close the connection.
#[derive(Debug, Clone, Copy, PartialEq, Eq, Structural)]
pub struct CloseRequest {}

/// Announces a close that both sides agreed on.
#[derive(Debug, Clone, Copy, PartialEq, Eq, Structural)]
pub struct PlannedClose {}

/// One message of the connection protocol.
#[derive(Debug, Clone, Copy, PartialEq, Eq, Structural)]
pub enum NetworkEvent {
    Ping(Ping),
    Pong(Pong),
    CloseRequest(CloseRequest),
}

/// The I/O error type of the standard library, carried through unchanged.
#[verifier::external_type_specification]
#[verifier::external_body]
pub struct ExIoError(std::io::Error);

/// The error type of `serde_json`, carried through unchanged.
#[verifier::external_type_specification]
#[verifier::external_body]
pub struct ExJsonError(serde_json::Error);

/// Why receiving an event failed.
#[derive(Debug)]
pub enum NetworkEventError {
    /// The underlying stream reported an error.
    Io(std::io::Error),
    /// A frame could not be decoded.
    Json(serde_json::Error),
    /// The stream ended before a complete frame arrived.
    IncompleteData,
    /// No bytes arrived within the read deadline.
    Timeout,
    /// The connection was closed on purpose.
    SafeClose,
}

} // verus!
