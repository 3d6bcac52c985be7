//! Round trip: what the codec encodes, it decodes again, whatever bytes
//! follow in the buffer.

use crate::decimal::{decimal, is_digit, lemma_decimal_denotes};
use crate::resp::{
    array_wire, bulk_wire, bulks_fit, bulks_wire, count_line, crlf, crlf_at, decode_items,
    decode_message, lemma_line_end_unique, no_break, null_wire, simple_wire, Fields, Message,
};
use vstd::prelude::*;
use vstd::utf8::{encode_utf8, encode_utf8_decode_utf8, encode_utf8_valid_utf8};

verus! {

/// Decoding the wire form of a simple string gives back its text and takes
/// exactly its bytes, whatever follows, provided the text holds no line
/// terminator.
pub proof fn lemma_simple_round_trip(text: Seq<char>, rest: Seq<u8>)
    requires
        no_break(encode_utf8(text)),
    ensures
        decode_message(simple_wire(text) + rest) == Some(
            (seq![Some(text)], simple_wire(text).len() as int),
        ),
{
    let bytes = encode_utf8(text);
    let len = bytes.len() as int;
    let whole = simple_wire(text) + rest;
    let tail = whole.skip(1);
    assert(tail =~= bytes + crlf() + rest);
    assert forall|j: int| 0 <= j < len implies !crlf_at(tail, j) by {
        if j + 1 < len {
            assert(!crlf_at(bytes, j));
        }
    }
    lemma_line_end_unique(tail, len);
    assert(tail.subrange(0, len) =~= bytes);
    encode_utf8_valid_utf8(text);
    encode_utf8_decode_utf8(text);
}

/// The length line of `number`, followed by anything, reads as that number.
proof fn lemma_count_line(number: nat, rest: Seq<u8>)
    requires
        number <= usize::MAX,
    ensures
        count_line(decimal(number) + crlf() + rest) == Some(
            (number, decimal(number).len() as int + 2),
        ),
{
    let digits = decimal(number);
    let len = digits.len() as int;
    let buf = digits + crlf() + rest;
    lemma_decimal_denotes(number);
    assert forall|j: int| 0 <= j < len implies !crlf_at(buf, j) by {
        assert(is_digit(digits[j]));
    }
    lemma_line_end_unique(buf, len);
    assert(buf.subrange(0, len) =~= digits);
}

/// Decoding the wire form of a bulk string gives back its text and takes
/// exactly its bytes, whatever follows.
pub proof fn lemma_bulk_round_trip(text: Seq<char>, rest: Seq<u8>)
    requires
        encode_utf8(text).len() <= usize::MAX,
    ensures
        decode_message(bulk_wire(text) + rest) == Some(
            (seq![Some(text)], bulk_wire(text).len() as int),
        ),
{
    let bytes = encode_utf8(text);
    let digits = decimal(bytes.len());
    let whole = bulk_wire(text) + rest;
    let after = bytes + crlf() + rest;
    assert(whole.skip(1) =~= digits + crlf() + after);
    lemma_count_line(bytes.len(), after);
    let start = 1 + digits.len() as int + 2;
    let end = start + bytes.len();
    assert(whole.subrange(start, end) =~= bytes);
    encode_utf8_valid_utf8(text);
    encode_utf8_decode_utf8(text);
}

/// Decoding bulk strings in a row gives back their texts in order and takes
/// exactly their bytes, whatever follows.
pub proof fn lemma_bulks_round_trip(items: Fields, rest: Seq<u8>)
    requires
        bulks_fit(items),
    ensures
        decode_items(bulks_wire(items) + rest, items.len()) == Some(
            (items, bulks_wire(items).len() as int),
        ),
    decreases items.len(),
{
    if items.len() == 0 {
        assert(items =~= Seq::empty());
    } else {
        let text = items[0].unwrap();
        let first = bulk_wire(text);
        let others = items.drop_first();
        let whole = bulks_wire(items) + rest;
        assert(whole =~= first + (bulks_wire(others) + rest));
        lemma_bulk_round_trip(text, bulks_wire(others) + rest);
        assert(whole.skip(first.len() as int) =~= bulks_wire(others) + rest);
        assert(bulks_fit(others)) by {
            assert forall|i: int| 0 <= i < others.len() implies (#[trigger] others[i]) is Some
                && encode_utf8(others[i].unwrap()).len() <= usize::MAX by {
                assert(others[i] == items[i + 1]);
            }
        }
        lemma_bulks_round_trip(others, rest);
        assert(seq![Some(text)] + others =~= items);
    }
}

/// Decoding the wire form of an array of bulk strings gives back their texts
/// in order and takes exactly its bytes, whatever follows.
pub proof fn lemma_array_round_trip(items: Fields, rest: Seq<u8>)
    requires
        bulks_fit(items),
    ensures
        decode_message(array_wire(items) + rest) == Some((items, array_wire(items).len() as int)),
{
    let digits = decimal(items.len());
    let whole = array_wire(items) + rest;
    let after = bulks_wire(items) + rest;
    assert(whole.skip(1) =~= digits + crlf() + after);
    lemma_count_line(items.len(), after);
    let start = 1 + digits.len() as int + 2;
    assert(whole.skip(start) =~= after);
    lemma_bulks_round_trip(items, rest);
}

/// Round trip: decoding the wire form of a message gives back the fields of
/// the message and takes exactly the bytes of that form, whatever follows
/// it in the buffer. This holds of every message that is `decodable`.
pub proof fn lemma_round_trip(message: Message, rest: Seq<u8>)
    requires
        message.well_formed(),
        message.decodable(),
    ensures
        decode_message(message.wire() + rest) == Some(
            (message.fields(), message.wire().len() as int),
        ),
{
    match message {
        Message::Simple(text) => {
            lemma_simple_round_trip(text@, rest);
        },
        Message::SimpleStatic(text) => {
            lemma_simple_round_trip(text@, rest);
        },
        Message::Bulk(text) => {
            lemma_bulk_round_trip(text@, rest);
        },
        Message::Array(items) => {
            lemma_array_round_trip(items.deep_view(), rest);
        },
        Message::NullBulk() => {},
    }
}

/// The null bulk string does not decode: its length line carries a sign.
pub proof fn lemma_null_is_not_decoded(rest: Seq<u8>)
    ensures
        decode_message(null_wire() + rest) is None,
{
    let whole = null_wire() + rest;
    let tail = whole.skip(1);
    assert(tail =~= seq![45u8, 49u8, 13u8, 10u8] + rest);
    assert(crlf_at(tail, 2));
    assert forall|j: int| 0 <= j < 2 implies !crlf_at(tail, j) by {}
    lemma_line_end_unique(tail, 2);
    let line = tail.subrange(0, 2);
    assert(line[0] == 45);
    assert(!is_digit(line[0]));
}

} // verus!
