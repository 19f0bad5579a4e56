use p2psocial::connection::{ConnectionLogic, ConnectionStep};
use p2psocial::events::{CloseRequest, NetworkEvent, NetworkEventError, Ping, Pong};
use p2psocial::handler::{close_reason, CloseReason, HandlerStep, LogicHandler, CLOSE_CODE};
use p2psocial::pipe::Pipe;

#[test]
fn ping_is_answered_with_pong() {
    let handler = LogicHandler::new();
    assert_eq!(handler.received_ping(Ping {}), NetworkEvent::Pong(Pong {}));
    assert_eq!(
        handler.handle_step(Ok(NetworkEvent::Ping(Ping {}))),
        HandlerStep::Respond(NetworkEvent::Pong(Pong {}))
    );
}

#[test]
fn pong_is_answered_with_close_request() {
    let handler = LogicHandler::new();
    assert_eq!(handler.received_pong(Pong {}), NetworkEvent::CloseRequest(CloseRequest {}));
    assert_eq!(
        handler.handle_step(Ok(NetworkEvent::Pong(Pong {}))),
        HandlerStep::RespondThenAwaitClose(NetworkEvent::CloseRequest(CloseRequest {}))
    );
}

#[test]
fn close_request_shuts_down_with_code_200() {
    let handler = LogicHandler::new();
    let how = handler.received_close(CloseRequest {});
    assert_eq!(how, CloseReason { code: 200, reason: "Received close request" });
    assert_eq!(CLOSE_CODE, 200);
    assert_eq!(close_reason(), "Received close request");
    assert_eq!(handler.handle_step(Ok(NetworkEvent::CloseRequest(CloseRequest {}))), HandlerStep::Shutdown(how));
}

#[test]
fn receive_error_stops_handler() {
    let handler = LogicHandler::new();
    assert_eq!(handler.handle_step(Err(NetworkEventError::Timeout)), HandlerStep::Stop);
    assert_eq!(handler.handle_step(Err(NetworkEventError::IncompleteData)), HandlerStep::Stop);
}

#[test]
fn two_handlers_finish_a_ping_exchange() {
    let alice = LogicHandler::new();
    let bob = LogicHandler::new();
    let mut to_bob = Some(NetworkEvent::Ping(Ping {}));
    let mut to_alice = None;
    let mut turns = 0;
    let mut shut_down = false;
    while let Some(event) = to_bob.take().or_else(|| to_alice.take()) {
        let bob_turn = turns % 2 == 0;
        let handler = if bob_turn { &bob } else { &alice };
        turns += 1;
        match handler.handle_step(Ok(event)) {
            HandlerStep::Respond(e) | HandlerStep::RespondThenAwaitClose(e) => {
                if bob_turn { to_alice = Some(e) } else { to_bob = Some(e) }
            }
            HandlerStep::Shutdown(_) => shut_down = true,
            HandlerStep::Stop => {}
        }
    }
    assert!(shut_down);
    assert_eq!(turns, 3);
}

#[test]
fn connection_dispatches_and_finishes_on_close() {
    let connection = ConnectionLogic::new(Pipe::new([1u8; 32], 0));
    assert_eq!(connection.pipe.expire_epoch, 20);
    assert!(matches!(
        connection.handle_step(Ok(NetworkEvent::Ping(Ping {}))),
        ConnectionStep::Dispatch(NetworkEvent::Ping(_))
    ));
    assert!(matches!(
        connection.handle_step(Ok(NetworkEvent::Pong(Pong {}))),
        ConnectionStep::Dispatch(NetworkEvent::Pong(_))
    ));
    assert!(matches!(
        connection.handle_step(Ok(NetworkEvent::CloseRequest(CloseRequest {}))),
        ConnectionStep::DispatchThenFinish(NetworkEvent::CloseRequest(_))
    ));
    assert!(matches!(
        connection.handle_step(Err(NetworkEventError::SafeClose)),
        ConnectionStep::Fail(NetworkEventError::SafeClose)
    ));
}
