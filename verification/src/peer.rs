//! The requests and responses by which peers exchange posts and introduce
//! each other to their own peers. They carry no fields yet.

use vstd::prelude::*;

verus! {

/// Asks a peer for its posts.
#[derive(Debug, Clone, Copy, PartialEq, Eq, Structural)]
pub struct PostRequest {}

/// A peer's answer to a [`PostRequest`].
#[derive(Debug, Clone, Copy, PartialEq, Eq, Structural)]
pub struct PostResponse {}

/// Asks a peer for the peers it trusts.
#[derive(Debug, Clone, Copy, PartialEq, Eq, Structural)]
pub struct SecondaryPeerRequest {}

/// A peer's answer to a [`SecondaryPeerRequest`].
#[derive(Debug, Clone, Copy, PartialEq, Eq, Structural)]
pub struct SecondaryPeerResponse {}

} // verus!
