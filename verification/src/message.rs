//! The messages a node sends to another node outside a connection's event
//! stream: a ping and its pong.

use vstd::prelude::*;

verus! {

/// Asks a node to answer with a [`Pong`].
#[derive(Debug, Clone, Copy, PartialEq, Eq, Structural)]
pub struct Ping {}

/// The answer to a [`Ping`].
#[derive(Debug, Clone, Copy, PartialEq, Eq, Structural)]
pub struct Pong {}

/// A message between nodes.
#[derive(Debug, Clone, Copy, PartialEq, Eq, Structural)]
pub enum Message {
    Ping(Ping),
    Pong(Pong),
}

} // verus!
