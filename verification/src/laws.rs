//! Laws that hold across the codec, the store and command dispatch.

use crate::command::{
    attaches, command_kind, expiry_after, field, kind_of, lowercase, propagates, reply_wire,
    store_after, trailer_of, CommandKind, RoleView,
};
use crate::resp::{array_wire, bulk_wire, bulks_fit, decode_message, null_wire, Fields};
use crate::roundtrip::lemma_array_round_trip;
use crate::framing::lemma_own_bytes_decode;
use crate::set::set_request;
use crate::store::{lemma_sets_commute, visible, without_expired, StoreView};
use vstd::prelude::*;
use vstd::utf8::{encode_utf8, is_ascii_chars, is_ascii_chars_encode_utf8};

verus! {

/// GET after SET: once a SET without a time to live has been served, a GET
/// of its key is answered with its value as a bulk string, whenever it
/// comes.
pub proof fn lemma_get_after_set(
    role: RoleView,
    store: StoreView,
    set_fields: Fields,
    get_fields: Fields,
    set_at: u64,
    get_at: u64,
)
    requires
        kind_of(set_fields) == CommandKind::SetValue,
        set_request(set_fields) is Some,
        set_request(set_fields).unwrap().ttl is None,
        kind_of(get_fields) == CommandKind::GetValue,
        field(get_fields, 1) == Some(set_request(set_fields).unwrap().key),
    ensures
        reply_wire(role, store_after(store, set_fields, set_at), get_fields, get_at) == bulk_wire(
            set_request(set_fields).unwrap().value,
        ),
{
}

/// A GET of a key that is not in the store is answered with the null bulk
/// string.
pub proof fn lemma_get_absent(role: RoleView, store: StoreView, get_fields: Fields, now: u64)
    requires
        kind_of(get_fields) == CommandKind::GetValue,
        field(get_fields, 1) is Some,
        !store.dom().contains(field(get_fields, 1).unwrap()),
    ensures
        reply_wire(role, store, get_fields, now) == null_wire(),
{
}

/// Expiry: after a SET with a time to live of `ms` milliseconds, a GET of
/// its key is answered with its value before `ms` milliseconds have
/// passed, and with the null bulk string from then on.
pub proof fn lemma_get_until_expiry(
    role: RoleView,
    store: StoreView,
    set_fields: Fields,
    get_fields: Fields,
    set_at: u64,
    get_at: u64,
)
    requires
        kind_of(set_fields) == CommandKind::SetValue,
        set_request(set_fields) is Some,
        set_request(set_fields).unwrap().ttl is Some,
        kind_of(get_fields) == CommandKind::GetValue,
        field(get_fields, 1) == Some(set_request(set_fields).unwrap().key),
    ensures
        reply_wire(role, store_after(store, set_fields, set_at), get_fields, get_at) == (if get_at
            < set_at + set_request(set_fields).unwrap().ttl.unwrap() {
            bulk_wire(set_request(set_fields).unwrap().value)
        } else {
            null_wire()
        }),
{
}

/// Overwrite: after a SET with a time to live and a later SET of the same
/// key without one, a GET is answered with the later value, whenever the
/// expiry action of the first SET runs and whenever the GET comes.
pub proof fn lemma_overwrite_survives_expiry(
    role: RoleView,
    store: StoreView,
    first: Fields,
    second: Fields,
    get_fields: Fields,
    first_at: u64,
    second_at: u64,
    fired_at: u64,
    get_at: u64,
)
    requires
        kind_of(first) == CommandKind::SetValue,
        set_request(first) is Some,
        kind_of(second) == CommandKind::SetValue,
        set_request(second) is Some,
        set_request(second).unwrap().ttl is None,
        set_request(second).unwrap().key == set_request(first).unwrap().key,
        kind_of(get_fields) == CommandKind::GetValue,
        field(get_fields, 1) == Some(set_request(first).unwrap().key),
    ensures
        reply_wire(
            role,
            without_expired(
                store_after(store_after(store, first, first_at), second, second_at),
                set_request(first).unwrap().key,
                fired_at,
            ),
            get_fields,
            get_at,
        ) == bulk_wire(set_request(second).unwrap().value),
{
}

/// Case-insensitivity: two commands that differ only in the case of the
/// ASCII letters of their name are served alike.
pub proof fn lemma_dispatch_case_insensitive(
    role: RoleView,
    store: StoreView,
    a: Fields,
    b: Fields,
    now: u64,
)
    requires
        a.len() == b.len(),
        a.len() > 0,
        a[0] is Some,
        b[0] is Some,
        lowercase(a[0].unwrap()) == lowercase(b[0].unwrap()),
        forall|i: int| 1 <= i < a.len() ==> a[i] == b[i],
    ensures
        kind_of(a) == kind_of(b),
        reply_wire(role, store, a, now) == reply_wire(role, store, b, now),
        trailer_of(role, a) == trailer_of(role, b),
        store_after(store, a, now) == store_after(store, b, now),
        expiry_after(a) == expiry_after(b),
        attaches(role, a) == attaches(role, b),
        propagates(role, a) == propagates(role, b),
{
    assert(field(a, 1) == field(b, 1));
    assert(set_request(a) == set_request(b));
}

/// The fields of the command `SET key value`.
pub open spec fn set_command(key: Seq<char>, value: Seq<char>) -> Fields {
    seq![Some("SET"@), Some(key), Some(value)]
}

/// Replication: the bytes of `SET key value`, as a master forwards them,
/// decode on the replica to a SET whose application leaves the value
/// readable under the key in the replica's store.
pub proof fn lemma_replicated_set(
    key: Seq<char>,
    value: Seq<char>,
    store: StoreView,
    now: u64,
    later: u64,
)
    requires
        encode_utf8(key).len() <= usize::MAX,
        encode_utf8(value).len() <= usize::MAX,
    ensures
        decode_message(array_wire(set_command(key, value))) == Some(
            (set_command(key, value), array_wire(set_command(key, value)).len() as int),
        ),
        kind_of(set_command(key, value)) == CommandKind::SetValue,
        visible(store_after(store, set_command(key, value), now), key, later) == Some(value),
{
    let fields = set_command(key, value);
    reveal_strlit("SET");
    reveal_strlit("set");
    reveal_strlit("ping");
    reveal_strlit("echo");
    reveal_strlit("get");
    assert(is_ascii_chars("SET"@));
    is_ascii_chars_encode_utf8("SET"@);
    assert(bulks_fit(fields));
    lemma_array_round_trip(fields, Seq::empty());
    assert(array_wire(fields) + Seq::<u8>::empty() =~= array_wire(fields));
    assert(lowercase("SET"@) =~= "set"@);
    assert("set"@.len() == 3 && "ping"@.len() == 4 && "echo"@.len() == 4);
    assert("set"@[0] == 's' && "get"@[0] == 'g');
    assert(command_kind("SET"@) == CommandKind::SetValue);
}

/// Replication: the bytes that a master puts before its replicas for a
/// write are the bytes of that write alone, and a replica that applies them
/// ends with the written value readable under its key, until the value's
/// own expiry, whatever else its store held.
pub proof fn lemma_forwarded_write_applies(
    buf: Seq<u8>,
    replica_store: StoreView,
    applied_at: u64,
    later: u64,
)
    requires
        decode_message(buf) is Some,
        kind_of(decode_message(buf).unwrap().0) == CommandKind::SetValue,
        set_request(decode_message(buf).unwrap().0) is Some,
    ensures
        ({
            let (fields, n) = decode_message(buf).unwrap();
            let request = set_request(fields).unwrap();
            &&& 0 < n <= buf.len()
            &&& decode_message(buf.subrange(0, n)) == Some((fields, n))
            &&& (request.ttl matches Some(ms) ==> later < applied_at + ms) ==> visible(
                store_after(replica_store, fields, applied_at),
                request.key,
                later,
            ) == Some(request.value)
        }),
{
    lemma_own_bytes_decode(buf);
}

/// Two writes to distinct keys, as two connections may send them at the
/// same time, leave the same store in whichever order they are served, and
/// neither takes the other's value away.
pub proof fn lemma_distinct_sets_commute(
    store: StoreView,
    a: Fields,
    b: Fields,
    a_at: u64,
    b_at: u64,
    later: u64,
)
    requires
        kind_of(a) == CommandKind::SetValue,
        kind_of(b) == CommandKind::SetValue,
        set_request(a) is Some,
        set_request(b) is Some,
        set_request(a).unwrap().key != set_request(b).unwrap().key,
    ensures
        store_after(store_after(store, a, a_at), b, b_at) == store_after(
            store_after(store, b, b_at),
            a,
            a_at,
        ),
        visible(
            store_after(store_after(store, a, a_at), b, b_at),
            set_request(a).unwrap().key,
            later,
        ) == visible(store_after(store, a, a_at), set_request(a).unwrap().key, later),
        visible(
            store_after(store_after(store, a, a_at), b, b_at),
            set_request(b).unwrap().key,
            later,
        ) == visible(store_after(store, b, b_at), set_request(b).unwrap().key, later),
{
    let request_a = set_request(a).unwrap();
    let request_b = set_request(b).unwrap();
    lemma_sets_commute(
        store,
        request_a.key,
        request_a.value,
        request_a.ttl,
        a_at,
        request_b.key,
        request_b.value,
        request_b.ttl,
        b_at,
    );
}

} // verus!
