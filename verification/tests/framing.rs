use respstore::framing::{frame_status, FrameStatus};
use respstore::resp::{encode_message, parse_message, Message};

#[test]
fn whole_messages_are_complete_with_their_length() {
    assert_eq!(frame_status(b"+OK\r\n"), FrameStatus::Complete(5));
    assert_eq!(frame_status(b"$5\r\nhello\r\n"), FrameStatus::Complete(11));
    assert_eq!(frame_status(b"*0\r\n"), FrameStatus::Complete(4));
    assert_eq!(frame_status(b"*2\r\n$3\r\nGET\r\n$1\r\nk\r\nrest"), FrameStatus::Complete(20));
    assert_eq!(frame_status(b"*1\r\n*1\r\n+x\r\n"), FrameStatus::Complete(12));
}

#[test]
fn starts_of_messages_are_incomplete() {
    for partial in [
        &b""[..],
        b"+",
        b"+OK",
        b"+OK\r",
        b"$",
        b"$5",
        b"$5\r\n",
        b"$5\r\nhel",
        b"$5\r\nhello",
        b"$5\r\nhello\r",
        b"*",
        b"*2\r\n",
        b"*2\r\n$3\r\nGET\r\n",
        b"*2\r\n$3\r\nGET\r\n$1\r\nk",
        b"*1\r\n*1\r\n",
    ] {
        assert_eq!(frame_status(partial), FrameStatus::Incomplete);
        assert_eq!(parse_message(partial), None);
    }
}

#[test]
fn bytes_that_open_no_message_are_invalid() {
    for broken in [
        &b"PING\r\n"[..],
        b":1\r\n",
        b"-ERR\r\n",
        b"\r\n",
        b"$-1\r\n",
        b"$x\r\nabc\r\n",
        b"$01\r\na\r\n",
        b"$1\r\nabc\r\n",
        b"$1\r\na\rX",
        b"$1\r\n\xff\r\n",
        b"+\xff\r\n",
        b"*x\r\n",
        b"*-1\r\n",
        b"*2\r\n+a\r\n?",
        b"*2\r\n$1\r\nab\r\n",
        b"*99999999999999999999999\r\n",
    ] {
        assert_eq!(frame_status(broken), FrameStatus::Invalid);
        assert_eq!(parse_message(broken), None);
    }
}

#[test]
fn invalid_stays_invalid_when_bytes_follow() {
    for broken in [&b"$x\r\n"[..], b"?", b"*1\r\n$1\r\nab\r\n"] {
        let mut longer = broken.to_vec();
        longer.extend_from_slice(b"\r\n+OK\r\n$2\r\nab\r\n");
        assert_eq!(frame_status(&longer), FrameStatus::Invalid);
        assert_eq!(parse_message(&longer), None);
    }
}

#[test]
fn every_prefix_of_a_message_is_incomplete_and_the_whole_is_complete() {
    let items = ["SET", "key", "a\r\nvalue", "PX", "100"];
    let message = Message::Array(items.iter().map(|s| Some(s.to_string())).collect());
    let wire = encode_message(&message);
    for cut in 0..wire.len() {
        assert_eq!(frame_status(&wire[..cut]), FrameStatus::Incomplete);
    }
    assert_eq!(frame_status(&wire), FrameStatus::Complete(wire.len()));
    let mut longer = wire.clone();
    longer.extend_from_slice(b"*1\r\n");
    assert_eq!(frame_status(&longer), FrameStatus::Complete(wire.len()));
    assert_eq!(parse_message(&longer).map(|(_, n)| n), Some(wire.len()));
}

#[test]
fn complete_agrees_with_decoding() {
    for bytes in [
        &b"+OK\r\n"[..],
        b"$3\r\nabc\r\n",
        b"*1\r\n$4\r\nPING\r\n",
        b"*3\r\n+a\r\n$1\r\nb\r\n*1\r\n+c\r\n",
    ] {
        let decoded = parse_message(bytes).map(|(_, n)| n).unwrap();
        assert_eq!(frame_status(bytes), FrameStatus::Complete(decoded));
    }
}

#[test]
fn deeply_nested_arrays_are_decoded_without_deep_calls() {
    let depth = 300_000;
    let mut wire = Vec::with_capacity(depth * 4 + 4);
    for _ in 0..depth {
        wire.extend_from_slice(b"*1\r\n");
    }
    assert_eq!(frame_status(&wire), FrameStatus::Incomplete);
    assert_eq!(parse_message(&wire), None);
    wire.extend_from_slice(b"+x\r\n");
    assert_eq!(frame_status(&wire), FrameStatus::Complete(wire.len()));
    assert_eq!(parse_message(&wire), Some((vec![Some("x".to_string())], wire.len())));
}

#[test]
fn huge_counts_are_waited_for_but_never_decoded() {
    let wire = b"*18446744073709551615\r\n*18446744073709551615\r\n+a\r\n";
    assert_eq!(parse_message(wire), None);
    let status = frame_status(wire);
    assert!(status == FrameStatus::Incomplete || status == FrameStatus::Invalid);
    assert_eq!(frame_status(b"*4294967295\r\n+a\r\n"), FrameStatus::Incomplete);
    assert_eq!(frame_status(b"*4294967295\r\n+a\r\n?"), FrameStatus::Invalid);
}
