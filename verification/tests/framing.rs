use p2psocial::events::{NetworkEvent, NetworkEventError, Ping};
use p2psocial::pipe::{encode_frame, DecodeStep, FrameReader, Pipe, ReadEvent, ReceiveAction, PIPE_LIFETIME_SECS};

fn decoded(action: ReceiveAction) -> Vec<u8> {
    match action {
        ReceiveAction::Decode(frame) => frame,
        other => panic!("expected a frame, got {:?}", other),
    }
}

#[test]
fn encode_frame_appends_newline() {
    assert_eq!(encode_frame(b"{\"type\":\"Ping\",\"data\":{}}"), b"{\"type\":\"Ping\",\"data\":{}}\n".to_vec());
    assert_eq!(encode_frame(b""), b"\n".to_vec());
}

#[test]
fn written_frame_is_read_back() {
    let payload = b"{\"type\":\"Pong\",\"data\":{}}";
    let mut reader = FrameReader::new();
    let frame = decoded(reader.step(ReadEvent::Chunk(encode_frame(payload))));
    assert_eq!(frame, payload.to_vec());
}

#[test]
fn frame_split_over_reads_is_joined() {
    let mut reader = FrameReader::new();
    assert!(matches!(reader.step(ReadEvent::Chunk(b"{\"ty".to_vec())), ReceiveAction::ReadMore));
    assert!(matches!(reader.step(ReadEvent::Chunk(b"pe\":".to_vec())), ReceiveAction::ReadMore));
    let frame = decoded(reader.step(ReadEvent::Chunk(b"1}\n".to_vec())));
    assert_eq!(frame, b"{\"type\":1}".to_vec());
}

#[test]
fn bytes_after_newline_stay_pending() {
    let mut reader = FrameReader::new();
    let frame = decoded(reader.step(ReadEvent::Chunk(b"first\nsecond\n".to_vec())));
    assert_eq!(frame, b"first".to_vec());
    // only one frame is cut per read: the second comes with the next chunk
    let frame = decoded(reader.step(ReadEvent::Chunk(b"tail".to_vec())));
    assert_eq!(frame, b"second".to_vec());
    let frame = decoded(reader.step(ReadEvent::Chunk(b"\n".to_vec())));
    assert_eq!(frame, b"tail".to_vec());
}

#[test]
fn empty_frame_is_handed_out() {
    let mut reader = FrameReader::new();
    let frame = decoded(reader.step(ReadEvent::Chunk(b"\n".to_vec())));
    assert_eq!(frame, Vec::<u8>::new());
}

#[test]
fn end_of_stream_is_incomplete_data() {
    let mut reader = FrameReader::new();
    assert!(matches!(
        reader.step(ReadEvent::Chunk(Vec::new())),
        ReceiveAction::Fail(NetworkEventError::IncompleteData)
    ));
    let mut reader = FrameReader::new();
    assert!(matches!(reader.step(ReadEvent::Chunk(b"half".to_vec())), ReceiveAction::ReadMore));
    assert!(matches!(
        reader.step(ReadEvent::Chunk(Vec::new())),
        ReceiveAction::Fail(NetworkEventError::IncompleteData)
    ));
}

#[test]
fn timeout_and_stream_error_end_the_receive() {
    let mut reader = FrameReader::new();
    assert!(matches!(reader.step(ReadEvent::TimedOut), ReceiveAction::Fail(NetworkEventError::Timeout)));
    let err = std::io::Error::new(std::io::ErrorKind::ConnectionReset, "reset");
    match reader.step(ReadEvent::Failed(err)) {
        ReceiveAction::Fail(NetworkEventError::Io(e)) => {
            assert_eq!(e.kind(), std::io::ErrorKind::ConnectionReset)
        }
        other => panic!("unexpected {:?}", other),
    }
}

#[test]
fn pipe_expires_twenty_seconds_after_opening() {
    let pipe = Pipe::new([7u8; 32], 1_700_000_000);
    assert_eq!(pipe.node, [7u8; 32]);
    assert_eq!(pipe.expire_epoch, 1_700_000_020);
    assert_eq!(PIPE_LIFETIME_SECS, 20);
}

fn decode_ping(frame: &[u8]) -> Result<NetworkEvent, serde_json::Error> {
    serde_json::from_slice::<serde_json::Value>(frame).map(|_| NetworkEvent::Ping(Ping {}))
}

#[test]
fn decoded_event_is_delivered_and_bad_frame_dropped() {
    let reader = FrameReader::new();
    assert_eq!(reader.decoded(Ok(NetworkEvent::Ping(Ping {}))), DecodeStep::Deliver(NetworkEvent::Ping(Ping {})));
    let err = serde_json::from_slice::<serde_json::Value>(b"garbage").unwrap_err();
    assert_eq!(reader.decoded(Err(err)), DecodeStep::ReadMore);
}

#[test]
fn garbage_line_before_event_is_skipped() {
    let mut reader = FrameReader::new();
    let mut result = None;
    for chunk in [b"garbage\n".to_vec(), b"{\"type\":\"Ping\",\"data\":{}}\n".to_vec()] {
        match reader.step(ReadEvent::Chunk(chunk)) {
            ReceiveAction::ReadMore => {}
            ReceiveAction::Decode(frame) => match reader.decoded(decode_ping(&frame)) {
                DecodeStep::Deliver(event) => {
                    result = Some(event);
                    break;
                }
                DecodeStep::ReadMore => {}
            },
            ReceiveAction::Fail(e) => panic!("unexpected {:?}", e),
        }
    }
    assert_eq!(result, Some(NetworkEvent::Ping(Ping {})));
}

#[test]
fn lines_sharing_a_read_are_cut_one_per_read() {
    let mut reader = FrameReader::new();
    let chunks = [b"garbage\n{\"type\":\"Ping\",\"data\":{}}\n".to_vec(), b"{\"ty".to_vec()];
    let mut delivered = Vec::new();
    for chunk in chunks {
        match reader.step(ReadEvent::Chunk(chunk)) {
            ReceiveAction::ReadMore => {}
            ReceiveAction::Decode(frame) => {
                if let DecodeStep::Deliver(event) = reader.decoded(decode_ping(&frame)) {
                    delivered.push(event);
                    break;
                }
            }
            ReceiveAction::Fail(e) => panic!("unexpected {:?}", e),
        }
    }
    // the garbage line is cut by the first read and dropped; the ping line
    // waits in the reader until the second read cuts it
    assert_eq!(delivered, vec![NetworkEvent::Ping(Ping {})]);
}
