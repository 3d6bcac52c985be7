//! The SET command: what its fields ask for, its effect on the store, and
//! its propagation to the replicas.

use crate::decimal::{field_value, parse_decimal};
use crate::replicas::{kept, ReplicaRegistry};
use crate::resp::{Fields, Message};
use crate::store::{with_value, Store};
use vstd::prelude::*;
use vstd::slice::slice_subrange;
use vstd::utf8::encode_utf8;

verus! {

/// What a SET command asks for.
#[derive(Debug, Clone, PartialEq, Eq)]
pub struct SetRequest {
    pub key: String,
    pub value: String,
    /// The time to live in milliseconds, where `PX` was given.
    pub ttl: Option<u64>,
}

/// The model of a `SetRequest`.
pub struct SetRequestView {
    pub key: Seq<char>,
    pub value: Seq<char>,
    pub ttl: Option<u64>,
}

impl View for SetRequest {
    type V = SetRequestView;

    open spec fn view(&self) -> SetRequestView {
        SetRequestView { key: self.key@, value: self.value@, ttl: self.ttl }
    }
}

/// The expiry action that a SET with a time to live leaves to its caller:
/// once `after_ms` milliseconds have passed, `Store::expire` is to be run
/// for `key`.
#[derive(Debug, Clone, PartialEq, Eq)]
pub struct Expiry {
    pub key: String,
    pub after_ms: u64,
}

/// What became of a SET that was carried out.
#[derive(Debug, Clone, PartialEq, Eq)]
pub struct SetOutcome {
    /// The reply owed to the client, to be sent once the replicas have been
    /// offered the write.
    pub reply: Message,
    /// The expiry action to schedule, where a time to live was given.
    pub expiry: Option<Expiry>,
}

/// What the fields of a SET command ask for. The key and the value are the
/// second and third field. A fourth field must be `PX`, and the fifth is
/// then the time to live: an unsigned decimal number of milliseconds up to
/// `u64::MAX`. Further fields are not read. Nothing where a field that is
/// needed is missing, was taken, or has another shape.
pub open spec fn set_request(fields: Fields) -> Option<SetRequestView> {
    if fields.len() < 3 || fields[1] is None || fields[2] is None {
        None
    } else if fields.len() == 3 {
        Some(SetRequestView { key: fields[1].unwrap(), value: fields[2].unwrap(), ttl: None })
    } else if fields[3] != Some("PX"@) || fields.len() < 5 || fields[4] is None {
        None
    } else {
        match field_value(encode_utf8(fields[4].unwrap()), u64::MAX as nat) {
            Some(ms) => Some(
                SetRequestView {
                    key: fields[1].unwrap(),
                    value: fields[2].unwrap(),
                    ttl: Some(ms as u64),
                },
            ),
            None => None,
        }
    }
}

/// The expiry action that a request leaves behind.
pub open spec fn expiry_of(request: SetRequestView) -> Option<(Seq<char>, u64)> {
    match request.ttl {
        Some(ms) => Some((request.key, ms)),
        None => None,
    }
}

/// Reads what the fields of a SET command ask for.
pub fn read_set(message_vec: &Vec<Option<String>>) -> (r: Option<SetRequest>)
    ensures
        match set_request(message_vec.deep_view()) {
            Some(request) => r matches Some(found) && found@ == request,
            None => r is None,
        },
{
    let ghost fields = message_vec.deep_view();
    let len: usize = message_vec.len();
    if len < 3 {
        return None;
    }
    assert(fields[1] == message_vec@[1].deep_view());
    assert(fields[2] == message_vec@[2].deep_view());
    let key: String = match &message_vec[1] {
        Some(text) => text.clone(),
        None => {
            return None;
        },
    };
    let value: String = match &message_vec[2] {
        Some(text) => text.clone(),
        None => {
            return None;
        },
    };
    if len == 3 {
        return Some(SetRequest { key, value, ttl: None });
    }
    assert(fields[3] == message_vec@[3].deep_view());
    match &message_vec[3] {
        Some(option) => {
            let px: String = "PX".to_owned();
            if *option != px {
                return None;
            }
        },
        None => {
            return None;
        },
    }
    if len < 5 {
        return None;
    }
    assert(fields[4] == message_vec@[4].deep_view());
    match &message_vec[4] {
        Some(text) => {
            match parse_decimal(text.as_str().as_bytes()) {
                Some(ms) => Some(SetRequest { key, value, ttl: Some(ms) }),
                None => None,
            }
        },
        None => None,
    }
}

/// Carries out a SET on a master. Where the fields ask for a valid SET, the
/// value is stored, the command bytes `buf[..size]` are offered to every
/// attached replica exactly as they were received, and the reply `OK` is
/// returned together with the expiry action, if any. Otherwise nothing is
/// changed and nothing is returned.
pub fn handle_set(
    cache: &mut Store,
    buf: &[u8],
    size: usize,
    message_vec: Vec<Option<String>>,
    client_senders: &mut ReplicaRegistry,
    now: u64,
) -> (r: Option<SetOutcome>)
    requires
        size <= buf@.len(),
    ensures
        match set_request(message_vec.deep_view()) {
            Some(request) => {
                &&& final(cache)@ == with_value(
                    old(cache)@,
                    request.key,
                    request.value,
                    request.ttl,
                    now,
                )
                &&& exists|accepted: Seq<bool>|
                    accepted.len() == old(client_senders)@.len() && final(client_senders)@
                        == #[trigger] kept(old(client_senders)@, accepted)
                &&& final(client_senders).offered() == old(client_senders).offered().push(
                    buf@.subrange(0, size as int),
                )
                &&& r matches Some(outcome)
                &&& outcome.reply matches Message::SimpleStatic(text)
                &&& text@ == "OK"@
                &&& match outcome.expiry {
                    Some(expiry) => expiry_of(request) == Some((expiry.key@, expiry.after_ms)),
                    None => expiry_of(request) is None,
                }
            },
            None => {
                &&& r is None
                &&& final(cache)@ == old(cache)@
                &&& final(client_senders)@ == old(client_senders)@
                &&& final(client_senders).offered() == old(client_senders).offered()
            },
        },
        final(client_senders).queue_capacity() == old(client_senders).queue_capacity(),
{
    match read_set(&message_vec) {
        Some(request) => {
            let expiry: Option<Expiry> = match request.ttl {
                Some(ms) => Some(Expiry { key: request.key.clone(), after_ms: ms }),
                None => None,
            };
            cache.set(request.key, request.value, request.ttl, now);
            client_senders.broadcast(slice_subrange(buf, 0, size));
            Some(SetOutcome { reply: Message::SimpleStatic("OK"), expiry })
        },
        None => None,
    }
}

} // verus!
