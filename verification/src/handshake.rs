//! The replica's side of replication: the four-step handshake with the
//! master, and the application of the writes that the master sends
//! afterwards.

use crate::command::{command_of, expiry_after, store_after, CommandKind};
use crate::resp::{
    array_wire, count_line, count_up_to_break, decode_message, encode_message, find_break,
    has_line, line_len, parse_message, simple_wire, Message,
};
use crate::set::{read_set, Expiry};
use crate::store::Store;
use vstd::prelude::*;
use vstd::slice::slice_subrange;
use vstd::utf8::encode_utf8;

verus! {

/// Where the handshake stands. Each state but the last two names the reply
/// that the replica waits for.
#[derive(Debug, Clone, Copy, PartialEq, Eq, Structural)]
pub enum HandshakeState {
    /// PING was sent.
    AwaitPong,
    /// REPLCONF listening-port was sent.
    AwaitPortAck,
    /// REPLCONF capa was sent.
    AwaitCapaAck,
    /// PSYNC was sent.
    AwaitFullResync,
    /// FULLRESYNC was received; the snapshot follows.
    AwaitSnapshot,
    /// The handshake is complete: the master sends writes from now on.
    Streaming,
    /// The master sent something else than expected.
    Failed,
}

/// What one look at the bytes received so far leads to.
#[derive(Debug, Clone, PartialEq, Eq)]
pub struct HandshakeStep {
    /// The state after the step. It is the state before where more bytes
    /// are needed.
    pub next: HandshakeState,
    /// How many bytes of the buffer the step has used up.
    pub consumed: usize,
    /// The request to send to the master, empty where there is none.
    pub send: Vec<u8>,
}

/// The model of a `HandshakeStep`.
pub struct HandshakeStepView {
    pub next: HandshakeState,
    pub consumed: int,
    pub send: Seq<u8>,
}

impl View for HandshakeStep {
    type V = HandshakeStepView;

    open spec fn view(&self) -> HandshakeStepView {
        HandshakeStepView { next: self.next, consumed: self.consumed as int, send: self.send@ }
    }
}

/// How the bytes received so far compare with the bytes expected.
#[derive(Debug, Clone, Copy, PartialEq, Eq, Structural)]
pub enum Verdict {
    /// The buffer starts with the expected bytes.
    Match,
    /// The buffer is a proper start of the expected bytes.
    NeedMore,
    /// The buffer differs from the expected bytes.
    Mismatch,
}

/// How `buf` compares with `expected`.
pub open spec fn compare(buf: Seq<u8>, expected: Seq<u8>) -> Verdict {
    if buf.len() >= expected.len() {
        if buf.take(expected.len() as int) == expected {
            Verdict::Match
        } else {
            Verdict::Mismatch
        }
    } else if expected.take(buf.len() as int) == buf {
        Verdict::NeedMore
    } else {
        Verdict::Mismatch
    }
}

/// The first request: PING.
pub open spec fn ping_request() -> Seq<u8> {
    array_wire(seq![Some("PING"@)])
}

/// The second request: REPLCONF listening-port with the replica's port.
pub open spec fn port_request(port: Seq<char>) -> Seq<u8> {
    array_wire(seq![Some("REPLCONF"@), Some("listening-port"@), Some(port)])
}

/// The third request: REPLCONF capa psync2.
pub open spec fn capa_request() -> Seq<u8> {
    array_wire(seq![Some("REPLCONF"@), Some("capa"@), Some("psync2"@)])
}

/// The fourth request: PSYNC ? -1.
pub open spec fn psync_request() -> Seq<u8> {
    array_wire(seq![Some("PSYNC"@), Some("?"@), Some("-1"@)])
}

/// The start of the line with which a master answers PSYNC.
pub open spec fn fullresync_prefix() -> Seq<u8> {
    encode_utf8("+FULLRESYNC"@)
}

/// A step that waits for more bytes.
pub open spec fn waiting(state: HandshakeState) -> HandshakeStepView {
    HandshakeStepView { next: state, consumed: 0, send: Seq::empty() }
}

/// A step that ends the handshake in failure.
pub open spec fn failing() -> HandshakeStepView {
    HandshakeStepView { next: HandshakeState::Failed, consumed: 0, send: Seq::empty() }
}

/// The step for a state that waits for one exact reply: once the buffer
/// starts with it, the reply is used up, `next` is entered and `send` goes
/// out; a buffer that differs from it fails the handshake.
pub open spec fn exact_step(
    state: HandshakeState,
    buf: Seq<u8>,
    expected: Seq<u8>,
    next: HandshakeState,
    send: Seq<u8>,
) -> HandshakeStepView {
    match compare(buf, expected) {
        Verdict::Match => HandshakeStepView { next, consumed: expected.len() as int, send },
        Verdict::NeedMore => waiting(state),
        Verdict::Mismatch => failing(),
    }
}

/// The step that waits for FULLRESYNC: a line that starts with
/// `+FULLRESYNC`, whatever id and offset follow on it.
pub open spec fn fullresync_step(buf: Seq<u8>) -> HandshakeStepView {
    if has_line(buf) {
        let line = buf.subrange(0, line_len(buf));
        if compare(line, fullresync_prefix()) == Verdict::Match {
            HandshakeStepView {
                next: HandshakeState::AwaitSnapshot,
                consumed: line_len(buf) + 2,
                send: Seq::empty(),
            }
        } else {
            failing()
        }
    } else if compare(buf, fullresync_prefix()) == Verdict::Mismatch {
        failing()
    } else {
        waiting(HandshakeState::AwaitFullResync)
    }
}

/// The step that waits for the snapshot: a `$`, the length on a line of
/// its own, and that many bytes with no terminator behind them. The bytes
/// are used up and not kept.
pub open spec fn snapshot_step(buf: Seq<u8>) -> HandshakeStepView {
    if buf.len() == 0 {
        waiting(HandshakeState::AwaitSnapshot)
    } else if buf[0] != 36 {
        failing()
    } else if !has_line(buf.skip(1)) {
        waiting(HandshakeState::AwaitSnapshot)
    } else {
        match count_line(buf.skip(1)) {
            Some((len, n)) => if 1 + n + len <= buf.len() {
                HandshakeStepView {
                    next: HandshakeState::Streaming,
                    consumed: 1 + n + len,
                    send: Seq::empty(),
                }
            } else {
                waiting(HandshakeState::AwaitSnapshot)
            },
            None => failing(),
        }
    }
}

/// What the bytes received so far lead to in a given state. `port` is the
/// port that the replica itself listens on.
pub open spec fn handshake_step(state: HandshakeState, port: Seq<char>, buf: Seq<u8>) ->
    HandshakeStepView {
    match state {
        HandshakeState::AwaitPong => exact_step(
            state,
            buf,
            simple_wire("PONG"@),
            HandshakeState::AwaitPortAck,
            port_request(port),
        ),
        HandshakeState::AwaitPortAck => exact_step(
            state,
            buf,
            simple_wire("OK"@),
            HandshakeState::AwaitCapaAck,
            capa_request(),
        ),
        HandshakeState::AwaitCapaAck => exact_step(
            state,
            buf,
            simple_wire("OK"@),
            HandshakeState::AwaitFullResync,
            psync_request(),
        ),
        HandshakeState::AwaitFullResync => fullresync_step(buf),
        HandshakeState::AwaitSnapshot => snapshot_step(buf),
        HandshakeState::Streaming => waiting(state),
        HandshakeState::Failed => waiting(state),
    }
}

/// Compares the bytes received so far with the bytes expected.
pub fn compare_bytes(buf: &[u8], expected: &[u8]) -> (verdict: Verdict)
    ensures
        verdict == compare(buf@, expected@),
{
    let have: usize = buf.len();
    let want: usize = expected.len();
    let common: usize = if have < want {
        have
    } else {
        want
    };
    let mut i: usize = 0;
    while i < common
        invariant
            have == buf@.len(),
            want == expected@.len(),
            common <= have,
            common <= want,
            i <= common,
            forall|j: int| 0 <= j < i ==> buf@[j] == expected@[j],
        decreases common - i,
    {
        if buf[i] != expected[i] {
            proof {
                if have >= want {
                    assert(buf@.take(want as int)[i as int] != expected@[i as int]);
                } else {
                    assert(expected@.take(have as int)[i as int] != buf@[i as int]);
                }
            }
            return Verdict::Mismatch;
        }
        i = i + 1;
    }
    if have >= want {
        assert(buf@.take(want as int) =~= expected@);
        Verdict::Match
    } else {
        assert(expected@.take(have as int) =~= buf@);
        Verdict::NeedMore
    }
}

/// A request of up to three words as it goes to the master.
fn request(first: &str, second: Option<&str>, third: Option<&str>) -> (out: Vec<u8>)
    requires
        third is Some ==> second is Some,
    ensures
        out@ == array_wire(
            match (second, third) {
                (Some(b), Some(c)) => seq![Some(first@), Some(b@), Some(c@)],
                (Some(b), None) => seq![Some(first@), Some(b@)],
                _ => seq![Some(first@)],
            },
        ),
{
    let mut words: Vec<Option<String>> = Vec::new();
    words.push(Some(first.to_owned()));
    match second {
        Some(b) => {
            words.push(Some(b.to_owned()));
        },
        None => {},
    }
    match third {
        Some(c) => {
            words.push(Some(c.to_owned()));
        },
        None => {},
    }
    let message = Message::Array(words);
    proof {
        match (second, third) {
            (Some(b), Some(c)) => {
                assert(words.deep_view() =~= seq![Some(first@), Some(b@), Some(c@)]);
            },
            (Some(b), None) => {
                assert(words.deep_view() =~= seq![Some(first@), Some(b@)]);
            },
            _ => {
                assert(words.deep_view() =~= seq![Some(first@)]);
            },
        }
    }
    encode_message(&message)
}

/// Opens the handshake: the state to start in and the request to send.
pub fn begin_handshake() -> (r: (HandshakeState, Vec<u8>))
    ensures
        r.0 == HandshakeState::AwaitPong,
        r.1@ == ping_request(),
{
    (HandshakeState::AwaitPong, request("PING", None, None))
}

/// Looks at the bytes that the master has sent so far and takes the next
/// step of the handshake. `port` is the port that the replica listens on.
pub fn advance(state: HandshakeState, port: &str, buf: &[u8]) -> (step: HandshakeStep)
    ensures
        step@ == handshake_step(state, port@, buf@),
        0 <= step.consumed <= buf@.len(),
{
    let total: usize = buf.len();
    let stay = HandshakeStep { next: state, consumed: 0, send: Vec::new() };
    let fail = HandshakeStep { next: HandshakeState::Failed, consumed: 0, send: Vec::new() };
    match state {
        HandshakeState::AwaitPong => {
            let expected: Vec<u8> = encode_message(&Message::SimpleStatic("PONG"));
            match compare_bytes(buf, expected.as_slice()) {
                Verdict::Match => HandshakeStep {
                    next: HandshakeState::AwaitPortAck,
                    consumed: expected.len(),
                    send: request("REPLCONF", Some("listening-port"), Some(port)),
                },
                Verdict::NeedMore => stay,
                Verdict::Mismatch => fail,
            }
        },
        HandshakeState::AwaitPortAck => {
            let expected: Vec<u8> = encode_message(&Message::SimpleStatic("OK"));
            match compare_bytes(buf, expected.as_slice()) {
                Verdict::Match => HandshakeStep {
                    next: HandshakeState::AwaitCapaAck,
                    consumed: expected.len(),
                    send: request("REPLCONF", Some("capa"), Some("psync2")),
                },
                Verdict::NeedMore => stay,
                Verdict::Mismatch => fail,
            }
        },
        HandshakeState::AwaitCapaAck => {
            let expected: Vec<u8> = encode_message(&Message::SimpleStatic("OK"));
            match compare_bytes(buf, expected.as_slice()) {
                Verdict::Match => HandshakeStep {
                    next: HandshakeState::AwaitFullResync,
                    consumed: expected.len(),
                    send: request("PSYNC", Some("?"), Some("-1")),
                },
                Verdict::NeedMore => stay,
                Verdict::Mismatch => fail,
            }
        },
        HandshakeState::AwaitFullResync => {
            let prefix: &[u8] = "+FULLRESYNC".as_bytes();
            match find_break(buf) {
                Some(end) => {
                    match compare_bytes(slice_subrange(buf, 0, end), prefix) {
                        Verdict::Match => HandshakeStep {
                            next: HandshakeState::AwaitSnapshot,
                            consumed: end + 2,
                            send: Vec::new(),
                        },
                        _ => fail,
                    }
                },
                None => {
                    match compare_bytes(buf, prefix) {
                        Verdict::Mismatch => fail,
                        _ => stay,
                    }
                },
            }
        },
        HandshakeState::AwaitSnapshot => {
            if total == 0 {
                return stay;
            }
            if buf[0] != 36 {
                return fail;
            }
            let tail: &[u8] = slice_subrange(buf, 1, total);
            match find_break(tail) {
                Some(_) => {},
                None => {
                    return stay;
                },
            }
            match count_up_to_break(tail, 1) {
                Some((len, start)) => {
                    if len <= total - start {
                        HandshakeStep {
                            next: HandshakeState::Streaming,
                            consumed: start + len,
                            send: Vec::new(),
                        }
                    } else {
                        stay
                    }
                },
                None => fail,
            }
        },
        HandshakeState::Streaming => stay,
        HandshakeState::Failed => stay,
    }
}

/// What the application of one replicated command has used and left
/// behind.
#[derive(Debug, Clone, PartialEq, Eq)]
pub struct Applied {
    /// How many bytes of the buffer the command took.
    pub consumed: usize,
    /// The expiry action to schedule, after a SET with a time to live.
    pub expiry: Option<Expiry>,
}

/// Applies the command at the start of `buf`, as the master sent it, to
/// the replica's own store. A well-formed SET stores its value; any other
/// command is used up without effect. No reply is produced. Nothing is
/// returned, and nothing changed, where the buffer does not start with a
/// complete message.
pub fn apply_replicated(cache: &mut Store, buf: &[u8], now: u64) -> (r: Option<Applied>)
    ensures
        match decode_message(buf@) {
            Some((fields, n)) => {
                &&& r matches Some(applied)
                &&& applied.consumed == n
                &&& final(cache)@ == store_after(old(cache)@, fields, now)
                &&& match applied.expiry {
                    Some(expiry) => expiry_after(fields) == Some((expiry.key@, expiry.after_ms)),
                    None => expiry_after(fields) is None,
                }
            },
            None => r is None && final(cache)@ == old(cache)@,
        },
{
    match parse_message(buf) {
        Some((message_vec, consumed)) => {
            let mut expiry: Option<Expiry> = None;
            match command_of(&message_vec) {
                CommandKind::SetValue => {
                    match read_set(&message_vec) {
                        Some(request) => {
                            expiry = match request.ttl {
                                Some(ms) => Some(Expiry { key: request.key.clone(), after_ms: ms }),
                                None => None,
                            };
                            cache.set(request.key, request.value, request.ttl, now);
                        },
                        None => {},
                    }
                },
                _ => {},
            }
            Some(Applied { consumed, expiry })
        },
        None => None,
    }
}

} // verus!
