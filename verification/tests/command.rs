use respstore::command::{
    classify, command_of, dispatch, empty_snapshot_frame, process, CommandKind, ConnectionState,
    Role,
};
use respstore::replicas::ReplicaRegistry;
use respstore::resp::{encode_message, Message};
use respstore::store::Store;

fn cmd(items: &[&str]) -> Vec<Option<String>> {
    items.iter().map(|s| Some(s.to_string())).collect()
}

fn wire(items: &[&str]) -> Vec<u8> {
    encode_message(&Message::Array(cmd(items)))
}

fn master() -> Role {
    Role::Master {
        replication_id: "8371b4fb1155b71f4a04d3e1bc3e18c4a990aeeb".to_string(),
        replication_offset: 0,
    }
}

fn replica() -> Role {
    Role::Replica { master_host: "localhost".to_string(), master_port: "6379".to_string() }
}

struct Node {
    role: Role,
    store: Store,
    replicas: ReplicaRegistry,
}

fn node(role: Role) -> Node {
    Node { role, store: Store::new(), replicas: ReplicaRegistry::new(8).unwrap() }
}

fn reply(node: &mut Node, items: &[&str], now: u64) -> Vec<u8> {
    let raw = wire(items);
    let served =
        process(&node.role, &mut node.store, &mut node.replicas, &raw, now).expect("decodes");
    assert_eq!(served.consumed, raw.len());
    served.output
}

#[test]
fn command_names_are_recognised_in_any_case() {
    assert_eq!(classify("ping"), CommandKind::Ping);
    assert_eq!(classify("PING"), CommandKind::Ping);
    assert_eq!(classify("PiNg"), CommandKind::Ping);
    assert_eq!(classify("Echo"), CommandKind::Echo);
    assert_eq!(classify("GET"), CommandKind::GetValue);
    assert_eq!(classify("SeT"), CommandKind::SetValue);
    assert_eq!(classify("INFO"), CommandKind::Info);
    assert_eq!(classify("ReplConf"), CommandKind::Replconf);
    assert_eq!(classify("PSYNC"), CommandKind::Psync);
}

#[test]
fn other_names_are_unknown() {
    assert_eq!(classify(""), CommandKind::Unknown);
    assert_eq!(classify("DEL"), CommandKind::Unknown);
    assert_eq!(classify("pingg"), CommandKind::Unknown);
    assert_eq!(classify("pin"), CommandKind::Unknown);
    assert_eq!(classify(" set"), CommandKind::Unknown);
    assert_eq!(classify("ſet"), CommandKind::Unknown);
    assert_eq!(classify("p\u{130}ng"), CommandKind::Unknown);
    assert_eq!(command_of(&Vec::new()), CommandKind::Unknown);
    assert_eq!(command_of(&vec![None, Some("k".to_string())]), CommandKind::Unknown);
    assert_eq!(command_of(&cmd(&["get", "k"])), CommandKind::GetValue);
}

#[test]
fn ping_is_answered_with_pong() {
    let mut n = node(master());
    assert_eq!(reply(&mut n, &["PING"], 0), b"+PONG\r\n".to_vec());
    assert_eq!(reply(&mut n, &["ping", "ignored"], 0), b"+PONG\r\n".to_vec());
}

#[test]
fn echo_returns_its_argument_as_bulk() {
    let mut n = node(master());
    assert_eq!(reply(&mut n, &["ECHO", "hey"], 0), b"$3\r\nhey\r\n".to_vec());
    assert_eq!(reply(&mut n, &["ECHO", ""], 0), b"$0\r\n\r\n".to_vec());
    assert_eq!(reply(&mut n, &["ECHO"], 0), b"+ERR wrong arguments\r\n".to_vec());
}

#[test]
fn get_after_set_returns_value() {
    let mut n = node(master());
    assert_eq!(reply(&mut n, &["SET", "k", "v"], 0), b"+OK\r\n".to_vec());
    assert_eq!(reply(&mut n, &["GET", "k"], 0), b"$1\r\nv\r\n".to_vec());
}

#[test]
fn get_of_absent_key_returns_null_bulk() {
    let mut n = node(master());
    assert_eq!(reply(&mut n, &["GET", "k"], 0), b"$-1\r\n".to_vec());
    assert_eq!(reply(&mut n, &["GET"], 0), b"+ERR wrong arguments\r\n".to_vec());
}

#[test]
fn ttl_expiry_hides_the_value() {
    let mut n = node(master());
    let raw = wire(&["SET", "k", "v", "PX", "50"]);
    let served = process(&n.role, &mut n.store, &mut n.replicas, &raw, 1000).unwrap();
    assert_eq!(served.output, b"+OK\r\n".to_vec());
    let expiry = served.expiry.expect("an expiry action");
    assert_eq!(expiry.key, "k");
    assert_eq!(expiry.after_ms, 50);
    assert_eq!(reply(&mut n, &["GET", "k"], 1000), b"$1\r\nv\r\n".to_vec());
    assert_eq!(reply(&mut n, &["GET", "k"], 1100), b"$-1\r\n".to_vec());
    n.store.expire(&expiry.key, 1100);
    assert_eq!(reply(&mut n, &["GET", "k"], 1100), b"$-1\r\n".to_vec());
}

#[test]
fn ttl_overwrite_keeps_the_later_value() {
    let mut n = node(master());
    let raw = wire(&["SET", "k", "v1", "PX", "50"]);
    let first = process(&n.role, &mut n.store, &mut n.replicas, &raw, 0).unwrap();
    let expiry = first.expiry.unwrap();
    assert_eq!(reply(&mut n, &["SET", "k", "v2"], 10), b"+OK\r\n".to_vec());
    n.store.expire(&expiry.key, expiry.after_ms);
    assert_eq!(reply(&mut n, &["GET", "k"], 100), b"$2\r\nv2\r\n".to_vec());
}

#[test]
fn mixed_case_commands_behave_like_lower_case() {
    let mut mixed = node(master());
    let mut lower = node(master());
    assert_eq!(
        reply(&mut mixed, &["SeT", "k", "v"], 0),
        reply(&mut lower, &["set", "k", "v"], 0)
    );
    assert_eq!(reply(&mut mixed, &["GET", "k"], 0), reply(&mut lower, &["get", "k"], 0));
    assert_eq!(reply(&mut mixed, &["gEt", "k"], 0), b"$1\r\nv\r\n".to_vec());
}

#[test]
fn malformed_set_is_an_error_reply_and_changes_nothing() {
    let mut n = node(master());
    let mut source = n.replicas.attach();
    assert_eq!(reply(&mut n, &["SET", "k"], 0), b"+ERR wrong arguments\r\n".to_vec());
    assert_eq!(
        reply(&mut n, &["SET", "k", "v", "PX", "soon"], 0),
        b"+ERR wrong arguments\r\n".to_vec()
    );
    assert_eq!(
        reply(&mut n, &["SET", "k", "v", "EX", "5"], 0),
        b"+ERR wrong arguments\r\n".to_vec()
    );
    assert_eq!(reply(&mut n, &["GET", "k"], 0), b"$-1\r\n".to_vec());
    assert!(source.try_recv().is_err());
}

#[test]
fn info_reports_the_role() {
    let mut m = node(Role::Master {
        replication_id: "8371b4fb1155b71f4a04d3e1bc3e18c4a990aeeb".to_string(),
        replication_offset: 42,
    });
    let text =
        "role:master\r\nmaster_replid:8371b4fb1155b71f4a04d3e1bc3e18c4a990aeeb\r\nmaster_repl_offset:42\r\n";
    assert_eq!(
        reply(&mut m, &["INFO", "replication"], 0),
        format!("${}\r\n{}\r\n", text.len(), text).into_bytes()
    );
    let mut r = node(replica());
    assert_eq!(reply(&mut r, &["info", "replication"], 0), b"$12\r\nrole:slave\r\n\r\n".to_vec());
}

#[test]
fn info_needs_the_replication_argument() {
    let mut n = node(master());
    assert_eq!(reply(&mut n, &["INFO"], 0), b"+ERR wrong arguments\r\n".to_vec());
    assert_eq!(reply(&mut n, &["INFO", "server"], 0), b"+ERR wrong arguments\r\n".to_vec());
    assert_eq!(reply(&mut n, &["INFO", "REPLICATION"], 0), b"+ERR wrong arguments\r\n".to_vec());
}

#[test]
fn replconf_is_always_acknowledged() {
    let mut n = node(master());
    assert_eq!(reply(&mut n, &["REPLCONF"], 0), b"+OK\r\n".to_vec());
    assert_eq!(reply(&mut n, &["REPLCONF", "listening-port", "6380"], 0), b"+OK\r\n".to_vec());
    assert_eq!(reply(&mut n, &["replconf", "capa", "psync2"], 0), b"+OK\r\n".to_vec());
}

#[test]
fn unknown_command_is_not_implemented() {
    let mut n = node(master());
    assert_eq!(reply(&mut n, &["DEL", "k"], 0), b"+ERR not implemented\r\n".to_vec());
    assert_eq!(reply(&mut n, &[], 0), b"+ERR not implemented\r\n".to_vec());
}

#[test]
fn snapshot_frame_is_the_empty_database_without_terminator() {
    let mut expected = b"$18\r\nREDIS0011".to_vec();
    expected.push(0xff);
    expected.extend_from_slice(&[0u8; 8]);
    assert_eq!(empty_snapshot_frame(), expected);
}

#[test]
fn psync_on_master_replies_fullresync_and_starts_streaming() {
    let mut n = node(master());
    let raw = wire(&["PSYNC", "?", "-1"]);
    let served = process(&n.role, &mut n.store, &mut n.replicas, &raw, 0).unwrap();
    let mut expected = b"+FULLRESYNC 8371b4fb1155b71f4a04d3e1bc3e18c4a990aeeb 0\r\n".to_vec();
    expected.extend_from_slice(&empty_snapshot_frame());
    assert_eq!(served.output, expected);
    assert_eq!(served.next, ConnectionState::Streaming);
    assert_eq!(n.replicas.len(), 1);
    let mut stream = served.stream.expect("a stream");
    assert_eq!(reply(&mut n, &["SET", "k", "v"], 0), b"+OK\r\n".to_vec());
    assert_eq!(stream.try_recv().ok().map(|b| b.to_vec()), Some(wire(&["SET", "k", "v"])));
}

#[test]
fn psync_on_replica_is_refused() {
    let mut n = node(replica());
    let raw = wire(&["PSYNC", "?", "-1"]);
    let served = process(&n.role, &mut n.store, &mut n.replicas, &raw, 0).unwrap();
    assert_eq!(served.output, b"+ERR not a master\r\n".to_vec());
    assert_eq!(served.next, ConnectionState::Serving);
    assert!(served.stream.is_none());
    assert_eq!(n.replicas.len(), 0);
}

#[test]
fn only_writes_are_propagated() {
    let mut n = node(master());
    let mut source = n.replicas.attach();
    reply(&mut n, &["PING"], 0);
    reply(&mut n, &["GET", "k"], 0);
    reply(&mut n, &["ECHO", "x"], 0);
    reply(&mut n, &["INFO", "replication"], 0);
    reply(&mut n, &["REPLCONF", "x"], 0);
    assert!(source.try_recv().is_err());
    reply(&mut n, &["set", "k", "v", "PX", "5"], 0);
    assert_eq!(source.try_recv().ok().map(|b| b.to_vec()), Some(wire(&["set", "k", "v", "PX", "5"])));
}

#[test]
fn replica_applies_a_client_set_locally_without_propagating() {
    let mut n = node(replica());
    let mut source = n.replicas.attach();
    assert_eq!(reply(&mut n, &["SET", "k", "v"], 0), b"+OK\r\n".to_vec());
    assert_eq!(reply(&mut n, &["GET", "k"], 0), b"$1\r\nv\r\n".to_vec());
    assert!(source.try_recv().is_err());
}

#[test]
fn process_serves_one_request_and_leaves_the_rest() {
    let mut n = node(master());
    let mut raw = wire(&["SET", "a", "1"]);
    let first_len = raw.len();
    raw.extend_from_slice(&wire(&["GET", "a"]));
    let first = process(&n.role, &mut n.store, &mut n.replicas, &raw, 0).unwrap();
    assert_eq!(first.consumed, first_len);
    assert_eq!(first.output, b"+OK\r\n".to_vec());
    let second = process(&n.role, &mut n.store, &mut n.replicas, &raw[first_len..], 0).unwrap();
    assert_eq!(second.consumed, raw.len() - first_len);
    assert_eq!(second.output, b"$1\r\n1\r\n".to_vec());
}

#[test]
fn process_propagates_only_the_bytes_of_the_request() {
    let mut n = node(master());
    let mut source = n.replicas.attach();
    let mut raw = wire(&["SET", "a", "1"]);
    let first_len = raw.len();
    raw.extend_from_slice(b"*1\r\n$4\r\nPI");
    process(&n.role, &mut n.store, &mut n.replicas, &raw, 0).unwrap();
    assert_eq!(source.try_recv().ok().map(|b| b.to_vec()), Some(raw[..first_len].to_vec()));
}

#[test]
fn process_returns_nothing_on_incomplete_or_invalid_input() {
    let mut n = node(master());
    assert!(process(&n.role, &mut n.store, &mut n.replicas, b"", 0).is_none());
    assert!(process(&n.role, &mut n.store, &mut n.replicas, b"*1\r\n$4\r\nPI", 0).is_none());
    assert!(process(&n.role, &mut n.store, &mut n.replicas, b"PING\r\n", 0).is_none());
}

#[test]
fn inline_simple_string_commands_are_served_too() {
    let mut n = node(master());
    let served = process(&n.role, &mut n.store, &mut n.replicas, b"+PING\r\n", 0).unwrap();
    assert_eq!(served.consumed, 7);
    assert_eq!(served.output, b"+PONG\r\n".to_vec());
}

#[test]
fn dispatch_uses_the_given_size_for_propagation() {
    let mut n = node(master());
    let mut source = n.replicas.attach();
    let reaction =
        dispatch(&n.role, &mut n.store, &mut n.replicas, b"abcdef", 4, cmd(&["SET", "k", "v"]), 0);
    assert_eq!(reaction.reply, Message::SimpleStatic("OK"));
    assert!(reaction.trailer.is_empty());
    assert_eq!(reaction.next, ConnectionState::Serving);
    assert_eq!(source.try_recv().ok().map(|b| b.to_vec()), Some(b"abcd".to_vec()));
}

#[test]
fn sets_of_distinct_keys_from_two_connections_are_both_kept() {
    let mut n = node(master());
    let a = wire(&["SET", "a", "from-one"]);
    let b = wire(&["SET", "b", "from-two"]);
    process(&n.role, &mut n.store, &mut n.replicas, &b, 0).unwrap();
    process(&n.role, &mut n.store, &mut n.replicas, &a, 0).unwrap();
    assert_eq!(reply(&mut n, &["GET", "a"], 0), b"$8\r\nfrom-one\r\n".to_vec());
    assert_eq!(reply(&mut n, &["GET", "b"], 0), b"$8\r\nfrom-two\r\n".to_vec());
}
