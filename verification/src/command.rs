//! Command dispatch: which command a message names, what it does to the
//! store and the replica registry, and what is replied.

use crate::decimal::{decimal, lemma_decimal_denotes, push_decimal};
use crate::options::{Options, OptionsView};
use crate::replicas::{kept, ReplicaRegistry, Source};
use crate::resp::{
    bulk_block, bulk_wire, crlf, decode_message, encode_message, lemma_ascii_is_utf8,
    lemma_decode_bounds, null_wire, parse_message, simple_line, simple_wire, text_of, Fields,
    Message,
};
use crate::set::{expiry_of, handle_set, read_set, set_request, Expiry};
use crate::store::{visible, with_value, Store, StoreView};
use vstd::prelude::*;
use vstd::string::StrSliceExecFns;
use vstd::utf8::{encode_utf8, encode_utf8_valid_utf8, valid_utf8_concat};

verus! {

/// What a server is in the replication topology. It is fixed when the
/// process starts.
#[derive(Debug, Clone, PartialEq, Eq)]
pub enum Role {
    Master { replication_id: String, replication_offset: u64 },
    Replica { master_host: String, master_port: String },
}

/// The model of a `Role`.
pub enum RoleView {
    Master { replication_id: Seq<char>, replication_offset: u64 },
    Replica { master_host: Seq<char>, master_port: Seq<char> },
}

impl View for Role {
    type V = RoleView;

    open spec fn view(&self) -> RoleView {
        match self {
            Role::Master { replication_id, replication_offset } => RoleView::Master {
                replication_id: replication_id@,
                replication_offset: *replication_offset,
            },
            Role::Replica { master_host, master_port } => RoleView::Replica {
                master_host: master_host@,
                master_port: master_port@,
            },
        }
    }
}

/// The role that the options ask for: a replica of the master they name,
/// or else a master with the fixed replication id and offset zero.
pub open spec fn role_of(options: OptionsView) -> RoleView {
    match options.replica_options {
        Some(master) => RoleView::Replica {
            master_host: master.master_host,
            master_port: master.master_port,
        },
        None => RoleView::Master {
            replication_id: "8371b4fb1155b71f4a04d3e1bc3e18c4a990aeeb"@,
            replication_offset: 0,
        },
    }
}

impl Role {
    /// The role that the options ask for.
    pub fn from_options(options: &Options) -> (role: Role)
        ensures
            role@ == role_of(options@),
            role@ matches RoleView::Master { replication_id, .. } ==> replication_id.len() == 40,
    {
        match &options.replica_options {
            Some(master) => Role::Replica {
                master_host: master.master_host.clone(),
                master_port: master.master_port.clone(),
            },
            None => {
                proof {
                    reveal_strlit("8371b4fb1155b71f4a04d3e1bc3e18c4a990aeeb");
                }
                Role::Master {
                    replication_id: "8371b4fb1155b71f4a04d3e1bc3e18c4a990aeeb".to_owned(),
                    replication_offset: 0,
                }
            },
        }
    }
}

/// The commands that the server knows.
#[derive(Debug, Clone, Copy, PartialEq, Eq, Structural)]
pub enum CommandKind {
    Ping,
    Echo,
    GetValue,
    SetValue,
    Info,
    Replconf,
    Psync,
    Unknown,
}

/// The lower-case form of an ASCII capital, and any other character itself.
pub open spec fn lower(c: char) -> char {
    if 'A' <= c && c <= 'Z' {
        ((c as u8) + 32) as char
    } else {
        c
    }
}

/// The text with every ASCII capital in lower case.
pub open spec fn lowercase(text: Seq<char>) -> Seq<char> {
    Seq::new(text.len(), |i: int| lower(text[i]))
}

/// The command that a name stands for, whatever the case of its letters.
pub open spec fn command_kind(name: Seq<char>) -> CommandKind {
    let lowered = lowercase(name);
    if lowered == "ping"@ {
        CommandKind::Ping
    } else if lowered == "echo"@ {
        CommandKind::Echo
    } else if lowered == "get"@ {
        CommandKind::GetValue
    } else if lowered == "set"@ {
        CommandKind::SetValue
    } else if lowered == "info"@ {
        CommandKind::Info
    } else if lowered == "replconf"@ {
        CommandKind::Replconf
    } else if lowered == "psync"@ {
        CommandKind::Psync
    } else {
        CommandKind::Unknown
    }
}

/// Case-insensitivity: two names that differ only in the case of their
/// ASCII letters stand for the same command.
pub proof fn lemma_case_insensitive(a: Seq<char>, b: Seq<char>)
    requires
        lowercase(a) == lowercase(b),
    ensures
        command_kind(a) == command_kind(b),
{
}

/// Whether `name` in lower case is `lowered`.
fn is_name(name: &str, lowered: &str) -> (r: bool)
    ensures
        r == (lowercase(name@) == lowered@),
{
    let len: usize = name.unicode_len();
    if len != lowered.unicode_len() {
        return false;
    }
    let mut i: usize = 0;
    while i < len
        invariant
            len == name@.len(),
            len == lowered@.len(),
            i <= len,
            forall|j: int| 0 <= j < i ==> lower(name@[j]) == lowered@[j],
        decreases len - i,
    {
        let c: char = name.get_char(i);
        let folded: char = if 'A' <= c && c <= 'Z' {
            ((c as u8) + 32) as char
        } else {
            c
        };
        if folded != lowered.get_char(i) {
            assert(lowercase(name@)[i as int] != lowered@[i as int]);
            return false;
        }
        i = i + 1;
    }
    assert(lowercase(name@) =~= lowered@);
    true
}

/// Tells which command a name stands for.
pub fn classify(name: &str) -> (kind: CommandKind)
    ensures
        kind == command_kind(name@),
{
    if is_name(name, "ping") {
        CommandKind::Ping
    } else if is_name(name, "echo") {
        CommandKind::Echo
    } else if is_name(name, "get") {
        CommandKind::GetValue
    } else if is_name(name, "set") {
        CommandKind::SetValue
    } else if is_name(name, "info") {
        CommandKind::Info
    } else if is_name(name, "replconf") {
        CommandKind::Replconf
    } else if is_name(name, "psync") {
        CommandKind::Psync
    } else {
        CommandKind::Unknown
    }
}

/// The state of a connection. It serves requests until a PSYNC turns it
/// into a stream of writes to a replica, which it stays.
#[derive(Debug, Clone, Copy, PartialEq, Eq, Structural)]
pub enum ConnectionState {
    Serving,
    Streaming,
}

/// What the server owes after a command: what to write back, what to
/// schedule, and what the connection becomes.
#[derive(Debug)]
pub struct Reaction {
    /// The reply to write to the client.
    pub reply: Message,
    /// Bytes to write right behind the reply: the snapshot after a
    /// FULLRESYNC, nothing otherwise.
    pub trailer: Vec<u8>,
    /// The expiry action to schedule, after a SET with a time to live.
    pub expiry: Option<Expiry>,
    /// After PSYNC, the readable end of the queue whose contents the
    /// connection is to copy to its replica from now on.
    pub stream: Option<Source>,
    /// What the connection is after the command.
    pub next: ConnectionState,
}

/// The field at position `i`, if there is one and it has not been taken.
pub open spec fn field(fields: Fields, i: int) -> Option<Seq<char>> {
    if 0 <= i < fields.len() {
        fields[i]
    } else {
        None
    }
}

/// The command that the fields name. Fields without a name stand for no
/// known command.
pub open spec fn kind_of(fields: Fields) -> CommandKind {
    match field(fields, 0) {
        Some(name) => command_kind(name),
        None => CommandKind::Unknown,
    }
}

/// The reply to a command whose arguments are missing or of the wrong shape.
pub open spec fn wrong_arguments() -> Seq<u8> {
    simple_wire("ERR wrong arguments"@)
}

/// The reply to a command that the server does not know.
pub open spec fn not_implemented() -> Seq<u8> {
    simple_wire("ERR not implemented"@)
}

/// The reply to a PSYNC that reaches a replica.
pub open spec fn not_a_master() -> Seq<u8> {
    simple_wire("ERR not a master"@)
}

/// The UTF-8 bytes of the text that INFO reports for a role.
pub open spec fn info_bytes(role: RoleView) -> Seq<u8> {
    match role {
        RoleView::Master { replication_id, replication_offset } => encode_utf8(
            "role:master\r\nmaster_replid:"@,
        ) + encode_utf8(replication_id) + encode_utf8("\r\nmaster_repl_offset:"@) + decimal(
            replication_offset as nat,
        ) + crlf(),
        RoleView::Replica { .. } => encode_utf8("role:slave\r\n"@),
    }
}

/// The UTF-8 bytes of the text with which a master answers PSYNC.
pub open spec fn fullresync_bytes(replication_id: Seq<char>, replication_offset: u64) -> Seq<u8> {
    encode_utf8("FULLRESYNC "@) + encode_utf8(replication_id) + seq![32u8] + decimal(
        replication_offset as nat,
    )
}

/// The image of an empty database: the magic and version, the end marker,
/// and a zero checksum.
pub open spec fn empty_snapshot() -> Seq<u8> {
    seq![
        82u8, 69u8, 68u8, 73u8, 83u8, 48u8, 48u8, 49u8, 49u8, 255u8, 0u8, 0u8, 0u8, 0u8, 0u8, 0u8,
        0u8, 0u8,
    ]
}

/// A snapshot as it is sent: its length in decimal and a line terminator,
/// then the payload with nothing behind it.
pub open spec fn snapshot_frame(payload: Seq<u8>) -> Seq<u8> {
    seq![36u8] + decimal(payload.len()) + crlf() + payload
}

/// The command turns the connection into a stream: it is a PSYNC, and the
/// server is a master.
pub open spec fn attaches(role: RoleView, fields: Fields) -> bool {
    kind_of(fields) == CommandKind::Psync && role is Master
}

/// The command is a write that goes out to the replicas: a well-formed SET
/// on a master.
pub open spec fn propagates(role: RoleView, fields: Fields) -> bool {
    kind_of(fields) == CommandKind::SetValue && set_request(fields) is Some && role is Master
}

/// The bytes of the reply to a command.
pub open spec fn reply_wire(role: RoleView, store: StoreView, fields: Fields, now: u64) -> Seq<
    u8,
> {
    match kind_of(fields) {
        CommandKind::Ping => simple_wire("PONG"@),
        CommandKind::Echo => match field(fields, 1) {
            Some(text) => bulk_wire(text),
            None => wrong_arguments(),
        },
        CommandKind::GetValue => match field(fields, 1) {
            Some(key) => match visible(store, key, now) {
                Some(data) => bulk_wire(data),
                None => null_wire(),
            },
            None => wrong_arguments(),
        },
        CommandKind::SetValue => match set_request(fields) {
            Some(_) => simple_wire("OK"@),
            None => wrong_arguments(),
        },
        CommandKind::Info => if field(fields, 1) == Some("replication"@) {
            bulk_block(info_bytes(role))
        } else {
            wrong_arguments()
        },
        CommandKind::Replconf => simple_wire("OK"@),
        CommandKind::Psync => match role {
            RoleView::Master { replication_id, replication_offset } => simple_line(
                fullresync_bytes(replication_id, replication_offset),
            ),
            RoleView::Replica { .. } => not_a_master(),
        },
        CommandKind::Unknown => not_implemented(),
    }
}

/// The bytes that follow the reply to a command.
pub open spec fn trailer_of(role: RoleView, fields: Fields) -> Seq<u8> {
    if attaches(role, fields) {
        snapshot_frame(empty_snapshot())
    } else {
        Seq::empty()
    }
}

/// The store after a command: a well-formed SET stores its value, and
/// nothing else changes the store.
pub open spec fn store_after(store: StoreView, fields: Fields, now: u64) -> StoreView {
    if kind_of(fields) == CommandKind::SetValue {
        match set_request(fields) {
            Some(request) => with_value(store, request.key, request.value, request.ttl, now),
            None => store,
        }
    } else {
        store
    }
}

/// The expiry action that a command leaves behind.
pub open spec fn expiry_after(fields: Fields) -> Option<(Seq<char>, u64)> {
    if kind_of(fields) == CommandKind::SetValue {
        match set_request(fields) {
            Some(request) => expiry_of(request),
            None => None,
        }
    } else {
        None
    }
}

/// The text that INFO reports for a role.
fn info_text(role: &Role) -> (text: String)
    ensures
        encode_utf8(text@) == info_bytes(role@),
{
    let mut bytes: Vec<u8> = Vec::new();
    match role {
        Role::Master { replication_id, replication_offset } => {
            bytes.extend_from_slice("role:master\r\nmaster_replid:".as_bytes());
            bytes.extend_from_slice(replication_id.as_str().as_bytes());
            bytes.extend_from_slice("\r\nmaster_repl_offset:".as_bytes());
            push_decimal(&mut bytes, *replication_offset);
            bytes.push(13);
            bytes.push(10);
            proof {
                let a = encode_utf8("role:master\r\nmaster_replid:"@);
                let b = encode_utf8(replication_id@);
                let c = encode_utf8("\r\nmaster_repl_offset:"@);
                let d = decimal(*replication_offset as nat);
                encode_utf8_valid_utf8("role:master\r\nmaster_replid:"@);
                encode_utf8_valid_utf8(replication_id@);
                encode_utf8_valid_utf8("\r\nmaster_repl_offset:"@);
                lemma_decimal_denotes(*replication_offset as nat);
                lemma_ascii_is_utf8(d);
                lemma_ascii_is_utf8(crlf());
                valid_utf8_concat(a, b);
                valid_utf8_concat(a + b, c);
                valid_utf8_concat(a + b + c, d);
                valid_utf8_concat(a + b + c + d, crlf());
                assert(bytes@ =~= a + b + c + d + crlf());
            }
        },
        Role::Replica { .. } => {
            bytes.extend_from_slice("role:slave\r\n".as_bytes());
            proof {
                encode_utf8_valid_utf8("role:slave\r\n"@);
                assert(bytes@ =~= encode_utf8("role:slave\r\n"@));
            }
        },
    }
    text_of(bytes)
}

/// The text with which a master answers PSYNC.
fn fullresync_text(replication_id: &String, replication_offset: u64) -> (text: String)
    ensures
        encode_utf8(text@) == fullresync_bytes(replication_id@, replication_offset),
{
    let mut bytes: Vec<u8> = Vec::new();
    bytes.extend_from_slice("FULLRESYNC ".as_bytes());
    bytes.extend_from_slice(replication_id.as_str().as_bytes());
    bytes.push(32);
    push_decimal(&mut bytes, replication_offset);
    proof {
        let a = encode_utf8("FULLRESYNC "@);
        let b = encode_utf8(replication_id@);
        let d = decimal(replication_offset as nat);
        encode_utf8_valid_utf8("FULLRESYNC "@);
        encode_utf8_valid_utf8(replication_id@);
        lemma_decimal_denotes(replication_offset as nat);
        lemma_ascii_is_utf8(seq![32u8]);
        lemma_ascii_is_utf8(d);
        valid_utf8_concat(a, b);
        valid_utf8_concat(a + b, seq![32u8]);
        valid_utf8_concat(a + b + seq![32u8], d);
        assert(bytes@ =~= a + b + seq![32u8] + d);
    }
    text_of(bytes)
}

/// The snapshot of an empty database as it is sent.
pub fn empty_snapshot_frame() -> (frame: Vec<u8>)
    ensures
        frame@ == snapshot_frame(empty_snapshot()),
{
    let mut frame: Vec<u8> = Vec::new();
    frame.push(36);
    push_decimal(&mut frame, 18);
    frame.push(13);
    frame.push(10);
    frame.push(82);
    frame.push(69);
    frame.push(68);
    frame.push(73);
    frame.push(83);
    frame.push(48);
    frame.push(48);
    frame.push(49);
    frame.push(49);
    frame.push(255);
    let mut i: usize = 0;
    while i < 8
        invariant
            i <= 8,
            frame@ == seq![36u8] + decimal(18) + crlf() + empty_snapshot().take(10 + i),
        decreases 8 - i,
    {
        frame.push(0);
        i = i + 1;
        assert(frame@ =~= seq![36u8] + decimal(18) + crlf() + empty_snapshot().take(10 + i));
    }
    assert(empty_snapshot().take(18) =~= empty_snapshot());
    frame
}

/// The second field of a command as an owned text.
fn argument(message_vec: &Vec<Option<String>>) -> (r: Option<String>)
    ensures
        match field(message_vec.deep_view(), 1) {
            Some(text) => r matches Some(found) && found@ == text,
            None => r is None,
        },
{
    if message_vec.len() < 2 {
        return None;
    }
    assert(message_vec.deep_view()[1] == message_vec@[1].deep_view());
    match &message_vec[1] {
        Some(text) => Some(text.clone()),
        None => None,
    }
}

/// The command that the fields name.
pub fn command_of(message_vec: &Vec<Option<String>>) -> (kind: CommandKind)
    ensures
        kind == kind_of(message_vec.deep_view()),
{
    if message_vec.len() < 1 {
        return CommandKind::Unknown;
    }
    assert(message_vec.deep_view()[0] == message_vec@[0].deep_view());
    match &message_vec[0] {
        Some(name) => classify(name.as_str()),
        None => CommandKind::Unknown,
    }
}

/// Executes one command. `buf[..size]` holds the bytes of the command as
/// they were received and `message_vec` its decoded fields; `now` is the
/// time in milliseconds. The store and the registry are changed as the
/// command asks, and what is owed to the client is returned.
pub fn dispatch(
    role: &Role,
    cache: &mut Store,
    replicas: &mut ReplicaRegistry,
    buf: &[u8],
    size: usize,
    message_vec: Vec<Option<String>>,
    now: u64,
) -> (r: Reaction)
    requires
        size <= buf@.len(),
    ensures
        r.reply.well_formed(),
        r.reply.wire() == reply_wire(role@, old(cache)@, message_vec.deep_view(), now),
        r.trailer@ == trailer_of(role@, message_vec.deep_view()),
        final(cache)@ == store_after(old(cache)@, message_vec.deep_view(), now),
        match r.expiry {
            Some(expiry) => expiry_after(message_vec.deep_view()) == Some(
                (expiry.key@, expiry.after_ms),
            ),
            None => expiry_after(message_vec.deep_view()) is None,
        },
        r.stream is Some <==> attaches(role@, message_vec.deep_view()),
        r.next == (if attaches(role@, message_vec.deep_view()) {
            ConnectionState::Streaming
        } else {
            ConnectionState::Serving
        }),
        if propagates(role@, message_vec.deep_view()) {
            exists|accepted: Seq<bool>|
                accepted.len() == old(replicas)@.len() && final(replicas)@ == #[trigger] kept(
                    old(replicas)@,
                    accepted,
                )
        } else if attaches(role@, message_vec.deep_view()) {
            final(replicas)@.len() == old(replicas)@.len() + 1 && final(replicas)@.drop_last()
                == old(replicas)@
        } else {
            final(replicas)@ == old(replicas)@
        },
        final(replicas).offered() == (if propagates(role@, message_vec.deep_view()) {
            old(replicas).offered().push(buf@.subrange(0, size as int))
        } else {
            old(replicas).offered()
        }),
        final(replicas).queue_capacity() == old(replicas).queue_capacity(),
{
    let kind: CommandKind = command_of(&message_vec);
    let mut reaction = Reaction {
        reply: Message::SimpleStatic("ERR wrong arguments"),
        trailer: Vec::new(),
        expiry: None,
        stream: None,
        next: ConnectionState::Serving,
    };
    match kind {
        CommandKind::Ping => {
            reaction.reply = Message::SimpleStatic("PONG");
        },
        CommandKind::Echo => {
            match argument(&message_vec) {
                Some(text) => {
                    reaction.reply = Message::Bulk(text);
                },
                None => {},
            }
        },
        CommandKind::GetValue => {
            match argument(&message_vec) {
                Some(key) => {
                    reaction.reply = match cache.get(&key, now) {
                        Some(data) => Message::Bulk(data),
                        None => Message::NullBulk(),
                    };
                },
                None => {},
            }
        },
        CommandKind::SetValue => {
            match role {
                Role::Master { .. } => {
                    match handle_set(cache, buf, size, message_vec, replicas, now) {
                        Some(outcome) => {
                            reaction.reply = outcome.reply;
                            reaction.expiry = outcome.expiry;
                        },
                        None => {},
                    }
                },
                Role::Replica { .. } => {
                    match read_set(&message_vec) {
                        Some(request) => {
                            reaction.expiry = match request.ttl {
                                Some(ms) => Some(Expiry { key: request.key.clone(), after_ms: ms }),
                                None => None,
                            };
                            cache.set(request.key, request.value, request.ttl, now);
                            reaction.reply = Message::SimpleStatic("OK");
                        },
                        None => {},
                    }
                },
            }
        },
        CommandKind::Info => {
            match argument(&message_vec) {
                Some(section) => {
                    let wanted: String = "replication".to_owned();
                    if section == wanted {
                        reaction.reply = Message::Bulk(info_text(role));
                    }
                },
                None => {},
            }
        },
        CommandKind::Replconf => {
            reaction.reply = Message::SimpleStatic("OK");
        },
        CommandKind::Psync => {
            match role {
                Role::Master { replication_id, replication_offset } => {
                    reaction.reply = Message::Simple(
                        fullresync_text(replication_id, *replication_offset),
                    );
                    reaction.trailer = empty_snapshot_frame();
                    reaction.stream = Some(replicas.attach());
                    reaction.next = ConnectionState::Streaming;
                },
                Role::Replica { .. } => {
                    reaction.reply = Message::SimpleStatic("ERR not a master");
                },
            }
        },
        CommandKind::Unknown => {
            reaction.reply = Message::SimpleStatic("ERR not implemented");
        },
    }
    reaction
}

/// What the server owes after the bytes of one request.
#[derive(Debug)]
pub struct Served {
    /// How many bytes of the buffer the request took.
    pub consumed: usize,
    /// The bytes to write back: the reply and what follows it.
    pub output: Vec<u8>,
    /// The expiry action to schedule, after a SET with a time to live.
    pub expiry: Option<Expiry>,
    /// After PSYNC, the readable end of the queue whose contents the
    /// connection is to copy to its replica from now on.
    pub stream: Option<Source>,
    /// What the connection is after the request.
    pub next: ConnectionState,
}

/// Serves the request at the start of `buf`: decodes it, executes it at
/// time `now` and encodes what is to be written back. Nothing is returned,
/// and nothing changed, where the buffer does not start with a complete,
/// well-formed message.
pub fn process(
    role: &Role,
    cache: &mut Store,
    replicas: &mut ReplicaRegistry,
    buf: &[u8],
    now: u64,
) -> (r: Option<Served>)
    ensures
        match decode_message(buf@) {
            Some((fields, n)) => {
                &&& r matches Some(served)
                &&& served.consumed == n
                &&& served.output@ == reply_wire(role@, old(cache)@, fields, now) + trailer_of(
                    role@,
                    fields,
                )
                &&& final(cache)@ == store_after(old(cache)@, fields, now)
                &&& match served.expiry {
                    Some(expiry) => expiry_after(fields) == Some((expiry.key@, expiry.after_ms)),
                    None => expiry_after(fields) is None,
                }
                &&& served.stream is Some <==> attaches(role@, fields)
                &&& served.next == (if attaches(role@, fields) {
                    ConnectionState::Streaming
                } else {
                    ConnectionState::Serving
                })
                &&& if propagates(role@, fields) {
                    exists|accepted: Seq<bool>|
                        accepted.len() == old(replicas)@.len() && final(replicas)@
                            == #[trigger] kept(old(replicas)@, accepted)
                } else if attaches(role@, fields) {
                    final(replicas)@.len() == old(replicas)@.len() + 1
                        && final(replicas)@.drop_last() == old(replicas)@
                } else {
                    final(replicas)@ == old(replicas)@
                }
                &&& final(replicas).offered() == (if propagates(role@, fields) {
                    old(replicas).offered().push(buf@.subrange(0, n))
                } else {
                    old(replicas).offered()
                })
            },
            None => {
                &&& r is None
                &&& final(cache)@ == old(cache)@
                &&& final(replicas)@ == old(replicas)@
                &&& final(replicas).offered() == old(replicas).offered()
            },
        },
        final(replicas).queue_capacity() == old(replicas).queue_capacity(),
{
    match parse_message(buf) {
        Some((message_vec, consumed)) => {
            proof {
                lemma_decode_bounds(buf@);
            }
            let reaction: Reaction = dispatch(
                role,
                cache,
                replicas,
                buf,
                consumed,
                message_vec,
                now,
            );
            let mut output: Vec<u8> = encode_message(&reaction.reply);
            output.extend_from_slice(reaction.trailer.as_slice());
            Some(
                Served {
                    consumed,
                    output,
                    expiry: reaction.expiry,
                    stream: reaction.stream,
                    next: reaction.next,
                },
            )
        },
        None => None,
    }
}

} // verus!
