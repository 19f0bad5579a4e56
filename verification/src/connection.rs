//! The receive loop of one connection: every event that arrives is handed to
//! its handler, and the loop ends after a close request or on the first
//! receive error.

use vstd::prelude::*;
use crate::events::{NetworkEvent, NetworkEventError};
use crate::pipe::Pipe;

verus! {

/// What the connection loop does with the outcome of one receive.
#[derive(Debug)]
pub enum ConnectionStep {
    /// Let the event's handler act, then receive the next event.
    Dispatch(NetworkEvent),
    /// Let the event's handler act, then end the loop successfully.
    DispatchThenFinish(NetworkEvent),
    /// End the loop with this error.
    Fail(NetworkEventError),
}

/// One connection to a peer, served over its pipe.
#[derive(Debug)]
pub struct ConnectionLogic {
    pub pipe: Pipe,
}

impl ConnectionLogic {
    pub fn new(pipe: Pipe) -> (connection: ConnectionLogic)
        ensures
            connection.pipe == pipe,
    {
        ConnectionLogic { pipe }
    }

    /// One turn of the connection loop: a received event is always handed
    /// to its handler; the loop ends successfully after a close request and
    /// with the error when the receive failed.
    pub fn handle_step(&self, received: Result<NetworkEvent, NetworkEventError>) -> (step: ConnectionStep)
        ensures
            match received {
                Ok(event) => if event is CloseRequest {
                    step == ConnectionStep::DispatchThenFinish(event)
                } else {
                    step == ConnectionStep::Dispatch(event)
                },
                Err(e) => step == ConnectionStep::Fail(e),
            },
    {
        match received {
            Ok(event) => match event {
                NetworkEvent::CloseRequest(_) => ConnectionStep::DispatchThenFinish(event),
                _ => ConnectionStep::Dispatch(event),
            },
            Err(e) => ConnectionStep::Fail(e),
        }
    }
}

} // verus!
