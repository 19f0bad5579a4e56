//! Newline-delimited framing of the byte stream between two peers.
//!
//! A frame is a payload followed by one newline byte. The reader gathers the
//! chunks that the stream hands out and, after each chunk, cuts off the first
//! complete frame it holds.

use vstd::prelude::*;
use crate::events::{NetworkEvent, NetworkEventError};

verus! {

/// The byte that ends a frame.
pub const NEWLINE: u8 = 10;

/// No byte of `s` is a newline.
pub open spec fn newline_free(s: Seq<u8>) -> bool {
    forall|i: int| 0 <= i < s.len() ==> s[i] != NEWLINE
}

/// The number of bytes of `s` before its first newline (`s.len()` when it has none).
pub open spec fn frame_len(s: Seq<u8>) -> nat
    decreases s.len(),
{
    if s.len() == 0 {
        0
    } else if s[0] == NEWLINE {
        0
    } else {
        1 + frame_len(s.drop_first())
    }
}

/// What the reader holds after absorbing a chunk.
pub enum Absorbed {
    /// No complete frame yet: all bytes stay pending.
    Pending(Seq<u8>),
    /// A complete frame (without its newline) and the bytes that follow it.
    Frame(Seq<u8>, Seq<u8>),
}

/// Appends `chunk` to `pending` and cuts off the first complete frame, if any.
pub open spec fn absorb(pending: Seq<u8>, chunk: Seq<u8>) -> Absorbed {
    let acc = pending + chunk;
    let n = frame_len(acc);
    if n < acc.len() {
        Absorbed::Frame(acc.take(n as int), acc.skip((n + 1) as int))
    } else {
        Absorbed::Pending(acc)
    }
}

/// The bytes written for one payload.
pub open spec fn framed(payload: Seq<u8>) -> Seq<u8> {
    payload.push(NEWLINE)
}

proof fn lemma_frame_len(s: Seq<u8>)
    ensures
        frame_len(s) <= s.len(),
        forall|i: int| 0 <= i < frame_len(s) ==> s[i] != NEWLINE,
        frame_len(s) < s.len() ==> s[frame_len(s) as int] == NEWLINE,
    decreases s.len(),
{
    if s.len() > 0 && s[0] != NEWLINE {
        lemma_frame_len(s.drop_first());
        assert forall|i: int| 0 <= i < frame_len(s) implies s[i] != NEWLINE by {
            if i > 0 {
                assert(s[i] == s.drop_first()[i - 1]);
            }
        }
    }
}

/// `i` is the position of the first newline of `s` (or its length when it has none).
proof fn lemma_frame_len_unique(s: Seq<u8>, i: int)
    requires
        0 <= i <= s.len(),
        forall|j: int| 0 <= j < i ==> s[j] != NEWLINE,
        i < s.len() ==> s[i] == NEWLINE,
    ensures
        frame_len(s) == i,
{
    lemma_frame_len(s);
}


proof fn lemma_frame_len_of_framed(p: Seq<u8>, r: Seq<u8>)
    requires
        newline_free(p),
    ensures
        frame_len(framed(p) + r) == p.len(),
{
    let s = framed(p) + r;
    assert forall|j: int| 0 <= j < p.len() implies s[j] != NEWLINE by {
        assert(s[j] == p[j]);
    }
    assert(s[p.len() as int] == NEWLINE);
    lemma_frame_len_unique(s, p.len() as int);
}

/// Absorbing a chunk loses and alters no byte: either everything stays
/// pending and holds no newline, or the pending bytes and the chunk are
/// exactly a frame of newline-free payload, its newline, and the rest.
pub proof fn lemma_absorb_keeps_bytes(pending: Seq<u8>, chunk: Seq<u8>)
    ensures
        match absorb(pending, chunk) {
            Absorbed::Pending(acc) => acc == pending + chunk && newline_free(acc),
            Absorbed::Frame(frame, rest) => pending + chunk == framed(frame) + rest
                && newline_free(frame),
        },
{
    let acc = pending + chunk;
    lemma_frame_len(acc);
    let n = frame_len(acc);
    if n < acc.len() {
        assert(acc == framed(acc.take(n as int)) + acc.skip((n + 1) as int));
    }
}

/// When the pending bytes hold no newline and a chunk brings a whole frame
/// followed by anything, the reader hands out the pending bytes and the
/// payload as one frame and keeps exactly what follows the newline.
pub proof fn lemma_whole_frame_in_chunk(pending: Seq<u8>, payload: Seq<u8>, rest: Seq<u8>)
    requires
        newline_free(pending),
        newline_free(payload),
    ensures
        absorb(pending, framed(payload) + rest) == Absorbed::Frame(pending + payload, rest),
{
    let p = pending + payload;
    assert(newline_free(p)) by {
        assert forall|i: int| 0 <= i < p.len() implies p[i] != NEWLINE by {
            if i < pending.len() {
                assert(p[i] == pending[i]);
            } else {
                assert(p[i] == payload[i - pending.len()]);
            }
        }
    }
    let acc = pending + (framed(payload) + rest);
    assert(acc == framed(p) + rest);
    lemma_frame_len_of_framed(p, rest);
    assert(acc.take(p.len() as int) == p);
    assert(acc.skip((p.len() + 1) as int) == rest);
}

/// How long, in seconds, a pipe stays valid after it is opened.
pub const PIPE_LIFETIME_SECS: u64 = 20;

/// One open stream pair to a peer, described by the peer's node id (the
/// bytes of its public key) and the Unix time, in seconds, at which the pipe
/// expires.
#[derive(Debug, Clone, Copy, PartialEq, Eq)]
pub struct Pipe {
    pub node: [u8; 32],
    pub expire_epoch: u64,
}

impl Pipe {
    /// A pipe to `node` opened at Unix time `now_secs`; it expires
    /// `PIPE_LIFETIME_SECS` seconds later.
    pub fn new(node: [u8; 32], now_secs: u64) -> (pipe: Pipe)
        requires
            now_secs + PIPE_LIFETIME_SECS <= u64::MAX,
        ensures
            pipe.node == node,
            pipe.expire_epoch == now_secs + PIPE_LIFETIME_SECS,
    {
        Pipe { node, expire_epoch: now_secs + PIPE_LIFETIME_SECS }
    }
}

/// The bytes that `Pipe::send` writes for an already serialized event: the
/// payload followed by one newline.
pub fn encode_frame(payload: &[u8]) -> (bytes: Vec<u8>)
    ensures
        bytes@ == framed(payload@),
{
    let mut bytes: Vec<u8> = Vec::new();
    let mut i: usize = 0;
    while i < payload.len()
        invariant
            i <= payload.len(),
            bytes@ == payload@.take(i as int),
        decreases payload.len() - i,
    {
        bytes.push(payload[i]);
        i = i + 1;
        assert(bytes@ == payload@.take(i as int));
    }
    assert(payload@.take(payload.len() as int) == payload@);
    bytes.push(NEWLINE);
    bytes
}

/// What one read of the stream produced.
#[derive(Debug)]
pub enum ReadEvent {
    /// The bytes read; an empty chunk means that the stream has ended.
    Chunk(Vec<u8>),
    /// The read deadline passed without data.
    TimedOut,
    /// The stream reported an error.
    Failed(std::io::Error),
}

/// What the receiving side does next.
#[derive(Debug)]
pub enum ReceiveAction {
    /// Read another chunk.
    ReadMore,
    /// Try to decode this frame (its newline removed). A frame that does not
    /// decode is dropped and reading goes on with the bytes still pending.
    Decode(Vec<u8>),
    /// Give up with this error.
    Fail(NetworkEventError),
}

/// The state of one `receive`: the bytes read that belong to no frame yet.
pub struct FrameReader {
    pending: Vec<u8>,
}

impl View for FrameReader {
    type V = Seq<u8>;

    closed spec fn view(&self) -> Seq<u8> {
        self.pending@
    }
}

/// The position of the first newline of `bytes`, or its length when it has none.
fn find_newline(bytes: &Vec<u8>) -> (n: usize)
    ensures
        n == frame_len(bytes@),
{
    let mut i: usize = 0;
    while i < bytes.len()
        invariant
            i <= bytes.len(),
            forall|j: int| 0 <= j < i ==> bytes@[j] != NEWLINE,
        decreases bytes.len() - i,
    {
        if bytes[i] == NEWLINE {
            proof {
                lemma_frame_len_unique(bytes@, i as int);
            }
            return i;
        }
        i = i + 1;
    }
    proof {
        lemma_frame_len_unique(bytes@, i as int);
    }
    i
}

impl FrameReader {
    /// A reader that holds no bytes.
    pub fn new() -> (reader: FrameReader)
        ensures
            reader@ == Seq::<u8>::empty(),
    {
        FrameReader { pending: Vec::new() }
    }

    /// Takes in the outcome of one read. A timeout, a stream error or the end
    /// of the stream ends the receive; a chunk of bytes is appended to the
    /// pending bytes, and the first complete frame among them, if there is
    /// one, is handed out for decoding while the bytes after its newline stay
    /// pending. At most one frame is cut per chunk.
    pub fn step(&mut self, event: ReadEvent) -> (action: ReceiveAction)
        ensures
            event matches ReadEvent::TimedOut ==> action == ReceiveAction::Fail(NetworkEventError::Timeout)
                && final(self)@ == old(self)@,
            event matches ReadEvent::Failed(e) ==> action == ReceiveAction::Fail(NetworkEventError::Io(e))
                && final(self)@ == old(self)@,
            event matches ReadEvent::Chunk(c) ==> {
                if c@.len() == 0 {
                    &&& action == ReceiveAction::Fail(NetworkEventError::IncompleteData)
                    &&& final(self)@ == old(self)@
                } else {
                    match absorb(old(self)@, c@) {
                        Absorbed::Pending(acc) => action is ReadMore && final(self)@ == acc,
                        Absorbed::Frame(frame, rest) => action matches ReceiveAction::Decode(f)
                            && f@ == frame && final(self)@ == rest,
                    }
                }
            },
    {
        match event {
            ReadEvent::TimedOut => ReceiveAction::Fail(NetworkEventError::Timeout),
            ReadEvent::Failed(e) => ReceiveAction::Fail(NetworkEventError::Io(e)),
            ReadEvent::Chunk(mut chunk) => {
                if chunk.len() == 0 {
                    return ReceiveAction::Fail(NetworkEventError::IncompleteData);
                }
                let ghost acc = self.pending@ + chunk@;
                self.pending.append(&mut chunk);
                let n = find_newline(&self.pending);
                if n < self.pending.len() {
                    let mut rest = self.pending.split_off(n);
                    let tail = rest.split_off(1);
                    let mut frame = tail;
                    std::mem::swap(&mut frame, &mut self.pending);
                    assert(self.pending@ == acc.skip((n + 1) as int));
                    ReceiveAction::Decode(frame)
                } else {
                    ReceiveAction::ReadMore
                }
            },
        }
    }
}

/// What a receive does once a frame has been put to the decoder.
#[derive(Debug, Clone, Copy, PartialEq, Eq)]
pub enum DecodeStep {
    /// End the receive with this event.
    Deliver(NetworkEvent),
    /// Drop the frame and read on, keeping the pending bytes.
    ReadMore,
}

impl FrameReader {
    /// The decision after a frame was decoded: an event ends the receive; a
    /// frame that does not decode is dropped, its error never reaches the
    /// caller, and reading goes on with the pending bytes as they are.
    pub fn decoded(&self, decoded: Result<NetworkEvent, serde_json::Error>) -> (step: DecodeStep)
        ensures
            match decoded {
                Ok(event) => step == DecodeStep::Deliver(event),
                Err(_) => step == DecodeStep::ReadMore,
            },
    {
        match decoded {
            Ok(event) => DecodeStep::Deliver(event),
            Err(_) => DecodeStep::ReadMore,
        }
    }
}

/// One read of the stream, as a value.
pub enum ReadModel {
    Chunk(Seq<u8>),
    TimedOut,
    Failed,
}

/// How a whole receive ends.
pub enum Received {
    /// With this event.
    Event(NetworkEvent),
    /// With `NetworkEventError::Timeout`.
    Timeout,
    /// With `NetworkEventError::Io`.
    Io,
    /// With `NetworkEventError::IncompleteData`.
    Incomplete,
    /// Not yet: the reads so far leave it waiting for more.
    Waiting,
}

/// A whole receive, as `FrameReader::step` and `FrameReader::decoded` make
/// it up: starting from `pending`, the reads are taken in turn, and each
/// frame cut is given to `decode`; the first frame that decodes ends it.
pub open spec fn receive_run(
    pending: Seq<u8>,
    reads: Seq<ReadModel>,
    decode: spec_fn(Seq<u8>) -> Option<NetworkEvent>,
) -> Received
    decreases reads.len(),
{
    if reads.len() == 0 {
        Received::Waiting
    } else {
        match reads[0] {
            ReadModel::TimedOut => Received::Timeout,
            ReadModel::Failed => Received::Io,
            ReadModel::Chunk(c) => if c.len() == 0 {
                Received::Incomplete
            } else {
                match absorb(pending, c) {
                    Absorbed::Pending(acc) => receive_run(acc, reads.drop_first(), decode),
                    Absorbed::Frame(frame, rest) => match decode(frame) {
                        Some(event) => Received::Event(event),
                        None => receive_run(rest, reads.drop_first(), decode),
                    },
                }
            },
        }
    }
}

/// A line that does not decode, read on its own, changes nothing: the
/// receive goes on exactly as if it had never been sent.
pub proof fn lemma_undecodable_line_skipped(
    line: Seq<u8>,
    reads: Seq<ReadModel>,
    decode: spec_fn(Seq<u8>) -> Option<NetworkEvent>,
)
    requires
        newline_free(line),
        decode(line) is None,
    ensures
        receive_run(Seq::empty(), seq![ReadModel::Chunk(framed(line))] + reads, decode)
            == receive_run(Seq::empty(), reads, decode),
{
    let all = seq![ReadModel::Chunk(framed(line))] + reads;
    lemma_whole_frame_in_chunk(Seq::empty(), line, Seq::empty());
    assert(framed(line) + Seq::<u8>::empty() == framed(line));
    assert(Seq::<u8>::empty() + line == line);
    assert(all[0] == ReadModel::Chunk(framed(line)));
    assert(all.drop_first() == reads);
}

/// The first line that decodes, among lines read one per read.
pub open spec fn first_decoded(lines: Seq<Seq<u8>>, decode: spec_fn(Seq<u8>) -> Option<NetworkEvent>) -> Option<NetworkEvent>
    decreases lines.len(),
{
    if lines.len() == 0 {
        None
    } else {
        match decode(lines[0]) {
            Some(event) => Some(event),
            None => first_decoded(lines.drop_first(), decode),
        }
    }
}

/// When each read brings one whole line, the receive ends with the event of
/// the first line that decodes, and the lines before it are dropped; when no
/// line decodes, it is still waiting.
pub proof fn lemma_first_decodable_line(
    lines: Seq<Seq<u8>>,
    decode: spec_fn(Seq<u8>) -> Option<NetworkEvent>,
)
    requires
        forall|i: int| 0 <= i < lines.len() ==> newline_free(#[trigger] lines[i]),
    ensures
        receive_run(Seq::empty(), lines.map_values(|l: Seq<u8>| ReadModel::Chunk(framed(l))), decode)
            == match first_decoded(lines, decode) {
                Some(event) => Received::Event(event),
                None => Received::Waiting,
            },
    decreases lines.len(),
{
    let reads = lines.map_values(|l: Seq<u8>| ReadModel::Chunk(framed(l)));
    if lines.len() > 0 {
        let line = lines[0];
        assert(newline_free(lines[0]));
        lemma_whole_frame_in_chunk(Seq::empty(), line, Seq::empty());
        assert(framed(line) + Seq::<u8>::empty() == framed(line));
        assert(Seq::<u8>::empty() + line == line);
        assert(reads[0] == ReadModel::Chunk(framed(line)));
        let others = lines.drop_first();
        assert forall|i: int| 0 <= i < others.len() implies newline_free(#[trigger] others[i]) by {
            assert(others[i] == lines[i + 1]);
        }
        assert(reads.drop_first() == others.map_values(|l: Seq<u8>| ReadModel::Chunk(framed(l))));
        lemma_first_decodable_line(others, decode);
    }
}

/// `prefix` is where `whole` starts.
pub open spec fn is_prefix(prefix: Seq<u8>, whole: Seq<u8>) -> bool {
    prefix.len() <= whole.len() && prefix == whole.take(prefix.len() as int)
}

/// One read while the stream is inside the frame of `payload` (followed by
/// `tail`): while the bytes so far fall short of the newline, all stay
/// pending and hold no newline; once they reach it, exactly the payload is
/// cut and what is left is where `tail` starts.
proof fn lemma_absorb_within_frame(pending: Seq<u8>, chunk: Seq<u8>, payload: Seq<u8>, tail: Seq<u8>)
    requires
        newline_free(payload),
        is_prefix(pending + chunk, framed(payload) + tail),
    ensures
        (pending + chunk).len() <= payload.len() ==> absorb(pending, chunk) == Absorbed::Pending(pending + chunk)
            && newline_free(pending + chunk),
        (pending + chunk).len() > payload.len() ==> absorb(pending, chunk) == Absorbed::Frame(
            payload,
            (pending + chunk).skip(payload.len() + 1int),
        ) && is_prefix((pending + chunk).skip(payload.len() + 1int), tail),
{
    let acc = pending + chunk;
    let whole = framed(payload) + tail;
    assert forall|i: int| 0 <= i < acc.len() implies acc[i] == whole[i] by {
        assert(acc[i] == whole.take(acc.len() as int)[i]);
    }
    if acc.len() <= payload.len() {
        assert forall|i: int| 0 <= i < acc.len() implies acc[i] != NEWLINE by {
            assert(whole[i] == payload[i]);
        }
        lemma_frame_len_unique(acc, acc.len() as int);
    } else {
        assert forall|i: int| 0 <= i < payload.len() implies acc[i] != NEWLINE by {
            assert(whole[i] == payload[i]);
        }
        assert(whole[payload.len() as int] == NEWLINE);
        lemma_frame_len_unique(acc, payload.len() as int);
        assert(acc.take(payload.len() as int) == payload);
        let rest = acc.skip(payload.len() + 1int);
        assert forall|i: int| 0 <= i < rest.len() implies rest[i] == tail[i] by {
            assert(rest[i] == acc[i + payload.len() + 1]);
            assert(whole[i + payload.len() + 1] == tail[i]);
        }
        assert(rest == tail.take(rest.len() as int));
    }
}

proof fn lemma_receive_prefix(
    pending: Seq<u8>,
    chunks: Seq<Seq<u8>>,
    payload: Seq<u8>,
    decode: spec_fn(Seq<u8>) -> Option<NetworkEvent>,
)
    requires
        newline_free(payload),
        newline_free(pending),
        pending + chunks.flatten() == framed(payload),
        forall|i: int| 0 <= i < chunks.len() ==> chunks[i].len() > 0,
    ensures
        receive_run(pending, chunks.map_values(|c: Seq<u8>| ReadModel::Chunk(c)), decode)
            == match decode(payload) {
                Some(event) => Received::Event(event),
                None => Received::Waiting,
            },
    decreases chunks.len(),
{
    let reads = chunks.map_values(|c: Seq<u8>| ReadModel::Chunk(c));
    if chunks.len() == 0 {
        assert(pending == framed(payload));
        assert(pending[payload.len() as int] == NEWLINE);
    } else {
        let c = chunks[0];
        let others = chunks.drop_first();
        assert(reads[0] == ReadModel::Chunk(c));
        assert(reads.drop_first() == others.map_values(|c: Seq<u8>| ReadModel::Chunk(c)));
        assert(chunks.flatten() == c + others.flatten());
        let acc = pending + c;
        assert(framed(payload) == acc + others.flatten());
        assert(framed(payload) + Seq::<u8>::empty() == framed(payload));
        assert(acc == framed(payload).take(acc.len() as int));
        lemma_absorb_within_frame(pending, c, payload, Seq::<u8>::empty());
        if acc.len() > payload.len() {
            assert(acc.len() == framed(payload).len());
            if others.len() > 0 {
                assert(others.flatten() == others[0] + others.drop_first().flatten());
                assert(others[0] == chunks[1]);
            }
            assert(others.len() == 0);
            assert(reads.drop_first().len() == 0);
            assert(receive_run(acc.skip(payload.len() + 1int), reads.drop_first(), decode) == Received::Waiting);
        } else {
            assert forall|i: int| 0 <= i < others.len() implies others[i].len() > 0 by {
                assert(others[i] == chunks[i + 1]);
            }
            lemma_receive_prefix(acc, others, payload, decode);
        }
    }
}

/// The bytes written for `lines`, one frame after the other.
pub open spec fn framed_lines(lines: Seq<Seq<u8>>) -> Seq<u8>
    decreases lines.len(),
{
    if lines.len() == 0 {
        Seq::empty()
    } else {
        framed(lines[0]) + framed_lines(lines.drop_first())
    }
}

proof fn lemma_receive_lines(
    pending: Seq<u8>,
    chunks: Seq<Seq<u8>>,
    lines: Seq<Seq<u8>>,
    decode: spec_fn(Seq<u8>) -> Option<NetworkEvent>,
)
    requires
        forall|i: int| 0 <= i < lines.len() ==> newline_free(#[trigger] lines[i]),
        is_prefix(pending + chunks.flatten(), framed_lines(lines)),
        forall|i: int| 0 <= i < chunks.len() ==> chunks[i].len() > 0,
    ensures
        receive_run(pending, chunks.map_values(|c: Seq<u8>| ReadModel::Chunk(c)), decode) matches Received::Event(event)
            ==> first_decoded(lines, decode) == Some(event),
        receive_run(pending, chunks.map_values(|c: Seq<u8>| ReadModel::Chunk(c)), decode) is Event
            || receive_run(pending, chunks.map_values(|c: Seq<u8>| ReadModel::Chunk(c)), decode) is Waiting,
    decreases chunks.len(),
{
    let reads = chunks.map_values(|c: Seq<u8>| ReadModel::Chunk(c));
    if chunks.len() > 0 {
        let c = chunks[0];
        let others = chunks.drop_first();
        assert(reads[0] == ReadModel::Chunk(c));
        assert(reads.drop_first() == others.map_values(|c: Seq<u8>| ReadModel::Chunk(c)));
        assert(chunks.flatten() == c + others.flatten());
        let acc = pending + c;
        let whole = framed_lines(lines);
        assert(pending + chunks.flatten() == acc + others.flatten());
        assert forall|i: int| 0 <= i < others.len() implies others[i].len() > 0 by {
            assert(others[i] == chunks[i + 1]);
        }
        assert(acc == whole.take(acc.len() as int)) by {
            assert forall|i: int| 0 <= i < acc.len() implies acc[i] == whole.take(acc.len() as int)[i] by {
                assert(acc[i] == (acc + others.flatten())[i]);
                assert((acc + others.flatten())[i] == whole[i]);
            }
        }
        assert(lines.len() > 0) by {
            if lines.len() == 0 {
                assert(whole.len() == 0);
            }
        }
        let line = lines[0];
        assert(newline_free(line));
        let tail = framed_lines(lines.drop_first());
        assert(whole == framed(line) + tail);
        lemma_absorb_within_frame(pending, c, line, tail);
        let others_lines = lines.drop_first();
        assert forall|i: int| 0 <= i < others_lines.len() implies newline_free(#[trigger] others_lines[i]) by {
            assert(others_lines[i] == lines[i + 1]);
        }
        if acc.len() <= line.len() {
            assert(is_prefix(acc + others.flatten(), whole));
            lemma_receive_lines(acc, others, lines, decode);
        } else {
            let rest = acc.skip(line.len() + 1int);
            if decode(line) is None {
                // the rest of the stream goes on inside the later lines
                let full = acc + others.flatten();
                assert(rest + others.flatten() == full.skip(line.len() + 1int));
                assert(full.len() <= whole.len());
                assert(full == whole.take(full.len() as int));
                let fs = full.skip(line.len() + 1int);
                let tt = tail.take(full.len() - (line.len() + 1));
                assert forall|i: int| 0 <= i < fs.len() implies fs[i] == tt[i] by {
                    assert(fs[i] == full[i + line.len() + 1]);
                    assert(full[i + line.len() + 1] == whole[i + line.len() + 1]);
                    assert(whole[i + line.len() + 1] == tail[i]);
                }
                assert(fs == tt);
                lemma_receive_lines(rest, others, others_lines, decode);
            }
        }
    }
}

/// Whatever the chunking, and with several lines in one read (of which each
/// read cuts one), a receive on a stream of lines either keeps waiting or
/// ends with the event of the first line that decodes; it never ends with an
/// event from a later line, nor with an error.
pub proof fn lemma_receive_first_decodable(
    lines: Seq<Seq<u8>>,
    chunks: Seq<Seq<u8>>,
    decode: spec_fn(Seq<u8>) -> Option<NetworkEvent>,
)
    requires
        forall|i: int| 0 <= i < lines.len() ==> newline_free(#[trigger] lines[i]),
        is_prefix(chunks.flatten(), framed_lines(lines)),
        forall|i: int| 0 <= i < chunks.len() ==> chunks[i].len() > 0,
    ensures
        receive_run(Seq::empty(), chunks.map_values(|c: Seq<u8>| ReadModel::Chunk(c)), decode) matches Received::Event(event)
            ==> first_decoded(lines, decode) == Some(event),
        receive_run(Seq::empty(), chunks.map_values(|c: Seq<u8>| ReadModel::Chunk(c)), decode) is Event
            || receive_run(Seq::empty(), chunks.map_values(|c: Seq<u8>| ReadModel::Chunk(c)), decode) is Waiting,
{
    assert(Seq::<u8>::empty() + chunks.flatten() == chunks.flatten());
    lemma_receive_lines(Seq::empty(), chunks, lines, decode);
}

/// Receive undoes send, up to the decoder: however the stream splits the
/// frame of a newline-free payload into reads, a fresh receive ends with the
/// event that the payload decodes to (and keeps waiting if it decodes to none).
pub proof fn lemma_receive_undoes_send(
    payload: Seq<u8>,
    chunks: Seq<Seq<u8>>,
    decode: spec_fn(Seq<u8>) -> Option<NetworkEvent>,
)
    requires
        newline_free(payload),
        chunks.flatten() == framed(payload),
        forall|i: int| 0 <= i < chunks.len() ==> chunks[i].len() > 0,
    ensures
        receive_run(Seq::empty(), chunks.map_values(|c: Seq<u8>| ReadModel::Chunk(c)), decode)
            == match decode(payload) {
                Some(event) => Received::Event(event),
                None => Received::Waiting,
            },
{
    assert(Seq::<u8>::empty() + chunks.flatten() == chunks.flatten());
    lemma_receive_prefix(Seq::empty(), chunks, payload, decode);
}

} // verus!
