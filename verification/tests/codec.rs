use respstore::resp::{convert_message, encode_message, parse_message, Message};

fn fields(items: &[&str]) -> Vec<Option<String>> {
    items.iter().map(|s| Some(s.to_string())).collect()
}

#[test]
fn simple_string_encodes_with_plus_and_terminator() {
    assert_eq!(convert_message(Message::Simple("PONG".to_string())), "+PONG\r\n");
    assert_eq!(convert_message(Message::SimpleStatic("OK")), "+OK\r\n");
}

#[test]
fn bulk_string_encodes_with_byte_length() {
    assert_eq!(convert_message(Message::Bulk("hello".to_string())), "$5\r\nhello\r\n");
    assert_eq!(convert_message(Message::Bulk(String::new())), "$0\r\n\r\n");
    assert_eq!(convert_message(Message::Bulk("é".to_string())), "$2\r\né\r\n");
}

#[test]
fn array_encodes_each_element_as_bulk() {
    let m = Message::Array(fields(&["SET", "k", "v"]));
    assert_eq!(convert_message(m), "*3\r\n$3\r\nSET\r\n$1\r\nk\r\n$1\r\nv\r\n");
    assert_eq!(convert_message(Message::Array(Vec::new())), "*0\r\n");
}

#[test]
fn null_bulk_encodes_as_fixed_marker() {
    assert_eq!(convert_message(Message::NullBulk()), "$-1\r\n");
    assert_eq!(encode_message(&Message::NullBulk()), b"$-1\r\n".to_vec());
}

#[test]
fn simple_string_decodes_to_one_field() {
    assert_eq!(parse_message(b"+OK\r\n"), Some((fields(&["OK"]), 5)));
}

#[test]
fn bulk_string_decodes_by_its_length() {
    assert_eq!(parse_message(b"$5\r\nhello\r\n"), Some((fields(&["hello"]), 11)));
    assert_eq!(parse_message(b"$4\r\na\r\nb\r\n"), Some((fields(&["a\r\nb"]), 10)));
    assert_eq!(parse_message(b"$0\r\n\r\n"), Some((fields(&[""]), 6)));
}

#[test]
fn array_decodes_to_the_fields_of_its_elements() {
    let wire = b"*3\r\n$3\r\nSET\r\n$1\r\nk\r\n$1\r\nv\r\n";
    assert_eq!(parse_message(wire), Some((fields(&["SET", "k", "v"]), wire.len())));
    assert_eq!(parse_message(b"*0\r\n"), Some((Vec::new(), 4)));
}

#[test]
fn nested_arrays_are_flattened() {
    let wire = b"*2\r\n*2\r\n+a\r\n+b\r\n$1\r\nc\r\n";
    assert_eq!(parse_message(wire), Some((fields(&["a", "b", "c"]), wire.len())));
}

#[test]
fn trailing_bytes_are_left_alone() {
    assert_eq!(parse_message(b"+OK\r\n+NEXT\r\n"), Some((fields(&["OK"]), 5)));
    assert_eq!(parse_message(b"$1\r\nx\r\nrest"), Some((fields(&["x"]), 7)));
}

#[test]
fn truncated_or_unknown_input_does_not_decode() {
    assert_eq!(parse_message(b""), None);
    assert_eq!(parse_message(b"+OK"), None);
    assert_eq!(parse_message(b"+OK\r"), None);
    assert_eq!(parse_message(b"$5\r\nhel"), None);
    assert_eq!(parse_message(b"$5\r\nhello"), None);
    assert_eq!(parse_message(b"$5\r\nhelloXY"), None);
    assert_eq!(parse_message(b"*2\r\n$1\r\na\r\n"), None);
    assert_eq!(parse_message(b":1\r\n"), None);
    assert_eq!(parse_message(b"-ERR\r\n"), None);
}

#[test]
fn malformed_lengths_do_not_decode() {
    assert_eq!(parse_message(b"$-1\r\n"), None);
    assert_eq!(parse_message(b"$+1\r\nx\r\n"), None);
    assert_eq!(parse_message(b"$01\r\nx\r\n"), None);
    assert_eq!(parse_message(b"$\r\n\r\n"), None);
    assert_eq!(parse_message(b"$x\r\n\r\n"), None);
    assert_eq!(parse_message(b"*00\r\n"), None);
    assert_eq!(parse_message(b"*99999999999999999999999999\r\n"), None);
    assert_eq!(parse_message(b"$18446744073709551615\r\nx\r\n"), None);
}

#[test]
fn invalid_utf8_does_not_decode() {
    assert_eq!(parse_message(b"+\xff\r\n"), None);
    assert_eq!(parse_message(b"$1\r\n\xff\r\n"), None);
}

#[test]
fn decoding_an_encoded_message_gives_back_its_fields() {
    let cases = vec![
        (Message::Simple("PONG".to_string()), fields(&["PONG"])),
        (Message::SimpleStatic("OK"), fields(&["OK"])),
        (Message::Bulk("a\r\nb".to_string()), fields(&["a\r\nb"])),
        (Message::Bulk("héllo wörld".to_string()), fields(&["héllo wörld"])),
        (Message::Array(fields(&["GET", "k"])), fields(&["GET", "k"])),
        (Message::Array(Vec::new()), Vec::new()),
    ];
    for (message, expected) in cases {
        let wire = encode_message(&message);
        assert_eq!(parse_message(&wire), Some((expected, wire.len())));
    }
}

#[test]
fn a_simple_string_takes_exactly_its_bytes() {
    let wire = encode_message(&Message::Simple("hello".to_string()));
    assert_eq!(wire.len(), 8);
    assert_eq!(parse_message(&wire).map(|(_, n)| n), Some(8));
}

#[test]
fn simple_string_with_a_line_break_does_not_round_trip() {
    let wire = encode_message(&Message::Simple("a\r\nb".to_string()));
    assert_eq!(parse_message(&wire), Some((fields(&["a"]), 4)));
}

#[test]
fn null_bulk_does_not_decode() {
    let wire = encode_message(&Message::NullBulk());
    assert_eq!(parse_message(&wire), None);
}

#[test]
fn array_count_must_be_met() {
    assert_eq!(parse_message(b"*1\r\n"), None);
    assert_eq!(parse_message(b"*1\r\n+a\r\n+b\r\n"), Some((fields(&["a"]), 8)));
}
