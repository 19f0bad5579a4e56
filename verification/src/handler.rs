//! How one end of a connection reacts to what it receives: a ping is
//! answered with a pong, a pong with a close request (after which the end
//! waits for the peer to close), and a close request ends the connection.

use vstd::prelude::*;
use crate::events::{CloseRequest, NetworkEvent, NetworkEventError, Ping, Pong};

verus! {

/// The application error code sent when a connection is closed on request.
pub const CLOSE_CODE: u32 = 200;

/// The reason sent with a connection closed on request.
pub fn close_reason() -> (reason: &'static str)
    ensures
        reason == "Received close request",
{
    "Received close request"
}

/// How a connection is closed: an application error code and a reason.
#[derive(Debug, Clone, Copy, PartialEq, Eq)]
pub struct CloseReason {
    pub code: u32,
    pub reason: &'static str,
}

/// What the handler does with one received event.
#[derive(Debug, Clone, Copy, PartialEq, Eq)]
pub enum HandlerStep {
    /// Send this event and keep receiving.
    Respond(NetworkEvent),
    /// Send this event, wait until the peer has closed the connection, then
    /// keep receiving.
    RespondThenAwaitClose(NetworkEvent),
    /// Finish the send stream, close the connection with this code and
    /// reason, and stop.
    Shutdown(CloseReason),
    /// Stop without sending anything.
    Stop,
}

/// The reaction to a received event, as a value.
pub open spec fn reaction(event: NetworkEvent) -> HandlerStep {
    match event {
        NetworkEvent::Ping(_) => HandlerStep::Respond(NetworkEvent::Pong(Pong {})),
        NetworkEvent::Pong(_) => HandlerStep::RespondThenAwaitClose(
            NetworkEvent::CloseRequest(CloseRequest {}),
        ),
        NetworkEvent::CloseRequest(_) => HandlerStep::Shutdown(
            CloseReason { code: CLOSE_CODE, reason: "Received close request" },
        ),
    }
}

/// The event a step sends to the peer, if it sends one.
pub open spec fn sent(step: HandlerStep) -> Option<NetworkEvent> {
    match step {
        HandlerStep::Respond(event) => Some(event),
        HandlerStep::RespondThenAwaitClose(event) => Some(event),
        _ => None,
    }
}

/// The steps taken by two handlers that answer each other, starting with
/// `first` arriving at one of them, for at most `turns` turns.
pub open spec fn conversation(first: NetworkEvent, turns: nat) -> Seq<HandlerStep>
    decreases turns,
{
    if turns == 0 {
        Seq::empty()
    } else {
        let step = reaction(first);
        match sent(step) {
            Some(next) => seq![step] + conversation(next, (turns - 1) as nat),
            None => seq![step],
        }
    }
}

/// Two handlers talking to each other always finish: whatever event opens
/// the exchange, within three turns one of them shuts the connection down
/// and nothing more is sent. A ping opens the full exchange of a pong, a
/// close request and the shutdown.
pub proof fn lemma_conversation_ends(first: NetworkEvent)
    ensures
        conversation(first, 3).len() >= 1,
        conversation(first, 3).last() matches HandlerStep::Shutdown(how)
            && how == (CloseReason { code: CLOSE_CODE, reason: "Received close request" }),
        sent(conversation(first, 3).last()) is None,
        first is Ping ==> conversation(first, 3) == seq![
            HandlerStep::Respond(NetworkEvent::Pong(Pong {})),
            HandlerStep::RespondThenAwaitClose(NetworkEvent::CloseRequest(CloseRequest {})),
            HandlerStep::Shutdown(CloseReason { code: CLOSE_CODE, reason: "Received close request" }),
        ],
{
    reveal_with_fuel(conversation, 4);
}

/// The handler of one connection; it keeps no state between events.
#[derive(Debug)]
pub struct LogicHandler {}

impl LogicHandler {
    pub fn new() -> (handler: LogicHandler)
        ensures
            handler == (LogicHandler {}),
    {
        LogicHandler {}
    }

    /// A ping is answered with a pong.
    pub fn received_ping(&self, ping: Ping) -> (reply: NetworkEvent)
        ensures
            reply == NetworkEvent::Pong(Pong {}),
    {
        NetworkEvent::Pong(Pong {})
    }

    /// A pong is answered with a close request.
    pub fn received_pong(&self, pong: Pong) -> (reply: NetworkEvent)
        ensures
            reply == NetworkEvent::CloseRequest(CloseRequest {}),
    {
        NetworkEvent::CloseRequest(CloseRequest {})
    }

    /// A close request closes the connection with code `CLOSE_CODE` and the
    /// reason "Received close request".
    pub fn received_close(&self, close: CloseRequest) -> (how: CloseReason)
        ensures
            how == (CloseReason { code: CLOSE_CODE, reason: "Received close request" }),
    {
        CloseReason { code: CLOSE_CODE, reason: close_reason() }
    }

    /// One turn of the handler's loop: what it does with the outcome of one
    /// receive. Any receive error stops the loop.
    pub fn handle_step(&self, received: Result<NetworkEvent, NetworkEventError>) -> (step: HandlerStep)
        ensures
            match received {
                Ok(event) => step == reaction(event),
                Err(_) => step == HandlerStep::Stop,
            },
    {
        match received {
            Ok(NetworkEvent::Ping(ping)) => HandlerStep::Respond(self.received_ping(ping)),
            Ok(NetworkEvent::Pong(pong)) => HandlerStep::RespondThenAwaitClose(self.received_pong(pong)),
            Ok(NetworkEvent::CloseRequest(close)) => HandlerStep::Shutdown(self.received_close(close)),
            Err(_) => HandlerStep::Stop,
        }
    }
}

} // verus!
