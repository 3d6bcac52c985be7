//! The wire codec: messages to bytes, and bytes to the positional fields of a
//! message.

use crate::decimal::{decimal, field_value, lemma_decimal_denotes, parse_decimal, push_decimal};
use vstd::pervasive::unreached;
use vstd::prelude::*;
use vstd::slice::{slice_subrange, slice_to_vec};
use vstd::utf8::{
    decode_utf8, decode_utf8_encode_utf8, encode_utf8, encode_utf8_valid_utf8,
    is_leading_byte_width_1, partial_valid_utf8, partial_valid_utf8_extend_ascii_block,
    valid_utf8, valid_utf8_concat,
};

verus! {

/// A reply or a command in its structured form.
#[derive(Debug, Clone, PartialEq, Eq)]
pub enum Message {
    Simple(String),
    SimpleStatic(&'static str),
    Bulk(String),
    Array(Vec<Option<String>>),
    NullBulk(),
}

/// The positional fields of a decoded message. A field is `None` once it has
/// been taken.
pub type Fields = Seq<Option<Seq<char>>>;

/// The line terminator.
pub open spec fn crlf() -> Seq<u8> {
    seq![13u8, 10u8]
}

/// A carriage return at `i` is followed by a line feed.
pub open spec fn crlf_at(buf: Seq<u8>, i: int) -> bool {
    &&& 0 <= i
    &&& i + 1 < buf.len()
    &&& buf[i] == 13
    &&& buf[i + 1] == 10
}

/// No carriage return in `bytes` is followed by a line feed.
pub open spec fn no_break(bytes: Seq<u8>) -> bool {
    forall|j: int| !crlf_at(bytes, j)
}

/// Every item is present, and the number of items and the byte length of
/// each fit in `usize`.
pub open spec fn bulks_fit(items: Fields) -> bool {
    &&& items.len() <= usize::MAX
    &&& forall|i: int|
        0 <= i < items.len() ==> (#[trigger] items[i]) is Some && encode_utf8(
            items[i].unwrap(),
        ).len() <= usize::MAX
}

/// The wire form of a simple string whose text has the given UTF-8 bytes.
pub open spec fn simple_line(bytes: Seq<u8>) -> Seq<u8> {
    seq![43u8] + bytes + crlf()
}

/// The wire form of a bulk string whose text has the given UTF-8 bytes:
/// their number in decimal, then the bytes, each followed by a line
/// terminator.
pub open spec fn bulk_block(bytes: Seq<u8>) -> Seq<u8> {
    seq![36u8] + decimal(bytes.len()) + crlf() + bytes + crlf()
}

/// The wire form of a simple string.
pub open spec fn simple_wire(text: Seq<char>) -> Seq<u8> {
    simple_line(encode_utf8(text))
}

/// The wire form of a bulk string.
pub open spec fn bulk_wire(text: Seq<char>) -> Seq<u8> {
    bulk_block(encode_utf8(text))
}

/// The wire forms of the items as bulk strings, one after the other.
pub open spec fn bulks_wire(items: Fields) -> Seq<u8>
    recommends
        forall|i: int| 0 <= i < items.len() ==> items[i] is Some,
    decreases items.len(),
{
    if items.len() == 0 {
        Seq::empty()
    } else {
        bulk_wire(items[0].unwrap()) + bulks_wire(items.drop_first())
    }
}

/// The wire form of an array of bulk strings.
pub open spec fn array_wire(items: Fields) -> Seq<u8>
    recommends
        forall|i: int| 0 <= i < items.len() ==> items[i] is Some,
{
    seq![42u8] + decimal(items.len()) + crlf() + bulks_wire(items)
}

/// The wire form of the null bulk string.
pub open spec fn null_wire() -> Seq<u8> {
    seq![36u8, 45u8, 49u8, 13u8, 10u8]
}

impl Message {
    /// Every element of an array is present. Only such a message has a wire
    /// form.
    pub open spec fn well_formed(&self) -> bool {
        match self {
            Message::Array(items) => forall|i: int| 0 <= i < items@.len() ==> items@[i] is Some,
            _ => true,
        }
    }

    /// The positional fields that the message carries.
    pub open spec fn fields(&self) -> Fields {
        match self {
            Message::Simple(text) => seq![Some(text@)],
            Message::SimpleStatic(text) => seq![Some(text@)],
            Message::Bulk(text) => seq![Some(text@)],
            Message::Array(items) => items.deep_view(),
            Message::NullBulk() => Seq::empty(),
        }
    }

    /// The message is one that decoding gives back: not the null bulk string,
    /// whose length line is no unsigned number; a simple string only without
    /// a line terminator in its text; and counts and lengths within `usize`.
    pub open spec fn decodable(&self) -> bool {
        match self {
            Message::Simple(text) => no_break(encode_utf8(text@)),
            Message::SimpleStatic(text) => no_break(encode_utf8(text@)),
            Message::Bulk(text) => encode_utf8(text@).len() <= usize::MAX,
            Message::Array(items) => bulks_fit(items.deep_view()),
            Message::NullBulk() => false,
        }
    }

    /// The bytes that stand for the message on the wire.
    pub open spec fn wire(&self) -> Seq<u8>
        recommends
            self.well_formed(),
    {
        match self {
            Message::Simple(text) => simple_wire(text@),
            Message::SimpleStatic(text) => simple_wire(text@),
            Message::Bulk(text) => bulk_wire(text@),
            Message::Array(items) => array_wire(items.deep_view()),
            Message::NullBulk() => null_wire(),
        }
    }
}

/// The first line terminator of `buf` stands at `i`.
pub open spec fn line_ends_at(buf: Seq<u8>, i: int) -> bool {
    &&& crlf_at(buf, i)
    &&& forall|j: int| 0 <= j < i ==> !crlf_at(buf, j)
}

/// Some line terminator occurs in `buf`.
pub open spec fn has_line(buf: Seq<u8>) -> bool {
    exists|i: int| line_ends_at(buf, i)
}

/// The length of the first line of `buf`, its terminator not counted.
pub open spec fn line_len(buf: Seq<u8>) -> int {
    choose|i: int| line_ends_at(buf, i)
}

/// The first line of `buf` as text, with the number of bytes up to and
/// including its terminator. Nothing if no terminator occurs or the line is
/// not UTF-8.
pub open spec fn text_line(buf: Seq<u8>) -> Option<(Seq<char>, int)> {
    if has_line(buf) && valid_utf8(buf.subrange(0, line_len(buf))) {
        Some((decode_utf8(buf.subrange(0, line_len(buf))), line_len(buf) + 2))
    } else {
        None
    }
}

/// The first line of `buf` as an unsigned number up to `usize::MAX`, with the
/// number of bytes up to and including its terminator.
pub open spec fn count_line(buf: Seq<u8>) -> Option<(nat, int)> {
    if has_line(buf) {
        match field_value(buf.subrange(0, line_len(buf)), usize::MAX as nat) {
            Some(n) => Some((n, line_len(buf) + 2)),
            None => None,
        }
    } else {
        None
    }
}

/// What a simple string decodes to: the text of the line that follows the
/// type byte.
pub open spec fn decode_simple(buf: Seq<u8>) -> Option<(Fields, int)> {
    match text_line(buf.skip(1)) {
        Some((text, n)) => Some((seq![Some(text)], 1 + n)),
        None => None,
    }
}

/// What a bulk string decodes to: a length line, then exactly that many bytes
/// of UTF-8 text, then a line terminator.
pub open spec fn decode_bulk(buf: Seq<u8>) -> Option<(Fields, int)> {
    match count_line(buf.skip(1)) {
        Some((len, n)) => {
            let start = 1 + n;
            let end = start + len;
            if crlf_at(buf, end) && valid_utf8(buf.subrange(start, end)) {
                Some((seq![Some(decode_utf8(buf.subrange(start, end)))], end + 2))
            } else {
                None
            }
        },
        None => None,
    }
}

/// What `count` messages in a row decode to: their fields in order, and the
/// bytes they take together.
pub open spec fn decode_items(buf: Seq<u8>, count: nat) -> Option<(Fields, int)>
    decreases buf.len(), count + 2,
{
    if count == 0 {
        Some((Seq::empty(), 0))
    } else {
        match decode_message(buf) {
            Some((first, n)) => {
                if 0 < n <= buf.len() {
                    match decode_items(buf.skip(n), (count - 1) as nat) {
                        Some((rest, m)) => Some((first + rest, n + m)),
                        None => None,
                    }
                } else {
                    None
                }
            },
            None => None,
        }
    }
}

/// What a buffer decodes to: the positional fields of the message at its
/// start and the number of bytes that message takes, or nothing where the
/// buffer does not start with a complete, well-formed message. An array
/// yields the fields of its elements, in order.
pub open spec fn decode_message(buf: Seq<u8>) -> Option<(Fields, int)>
    decreases buf.len(), 1nat,
{
    if buf.len() == 0 {
        None
    } else if buf[0] == 43 {
        decode_simple(buf)
    } else if buf[0] == 36 {
        decode_bulk(buf)
    } else if buf[0] == 42 {
        array_fields(buf)
    } else {
        None
    }
}

/// What an array decodes to: a count line, then that many messages.
pub open spec fn array_fields(buf: Seq<u8>) -> Option<(Fields, int)>
    decreases buf.len(), 0nat,
{
    match count_line(buf.skip(1)) {
        Some((count, n)) => {
            if 1 + n <= buf.len() {
                match decode_items(buf.skip(1 + n), count) {
                    Some((fields, m)) => Some((fields, 1 + n + m)),
                    None => None,
                }
            } else {
                None
            }
        },
        None => None,
    }
}

/// At most one index is the end of the first line.
pub proof fn lemma_line_end_unique(buf: Seq<u8>, i: int)
    requires
        line_ends_at(buf, i),
    ensures
        has_line(buf),
        line_len(buf) == i,
{
    let k = line_len(buf);
    assert(line_ends_at(buf, k));
    if k < i {
        assert(!crlf_at(buf, k));
    }
    if i < k {
        assert(!crlf_at(buf, i));
    }
}

/// `String::from_utf8` of std: the text that the bytes encode, or nothing
/// where they are not UTF-8.
#[verifier::external_body]
pub(crate) fn string_from_utf8(bytes: Vec<u8>) -> (r: Option<String>)
    ensures
        match r {
            Some(s) => valid_utf8(bytes@) && s@ == decode_utf8(bytes@),
            None => !valid_utf8(bytes@),
        },
{
    String::from_utf8(bytes).ok()
}

/// A decoded message takes at least one byte and no more than the buffer
/// holds.
pub proof fn lemma_decode_bounds(buf: Seq<u8>)
    ensures
        decode_message(buf) matches Some((_, n)) ==> 0 < n <= buf.len(),
    decreases buf.len(), 1nat,
{
    if buf.len() > 0 && buf[0] == 42 {
        match count_line(buf.skip(1)) {
            Some((count, n)) => {
                if 1 + n <= buf.len() {
                    lemma_items_bounds(buf.skip(1 + n), count);
                }
            },
            None => {},
        }
    }
}

/// A run of decoded messages takes at least one byte for each message and
/// no more than the buffer holds.
pub proof fn lemma_items_bounds(buf: Seq<u8>, count: nat)
    ensures
        decode_items(buf, count) matches Some((_, n)) ==> count <= n <= buf.len(),
    decreases buf.len(), count + 2,
{
    if count > 0 {
        match decode_message(buf) {
            Some((first, n)) => {
                if 0 < n <= buf.len() {
                    lemma_items_bounds(buf.skip(n), (count - 1) as nat);
                }
            },
            None => {},
        }
    }
}

/// The fields and bytes of a first part, joined with those of what follows.
pub open spec fn joined(fields: Fields, taken: int, rest: Option<(Fields, int)>) -> Option<
    (Fields, int),
> {
    match rest {
        Some((more, n)) => Some((fields + more, taken + n)),
        None => None,
    }
}

/// A run of messages decodes as its first `a` messages followed by the
/// `b` that come after them.
pub proof fn lemma_items_split(buf: Seq<u8>, a: nat, b: nat)
    ensures
        decode_items(buf, a + b) == (match decode_items(buf, a) {
            Some((fields, n)) => joined(fields, n, decode_items(buf.skip(n), b)),
            None => None,
        }),
    decreases a,
{
    if a == 0 {
        assert(buf.skip(0) =~= buf);
        match decode_items(buf, b) {
            Some((more, m)) => {
                assert(Seq::<Option<Seq<char>>>::empty() + more =~= more);
            },
            None => {},
        }
    } else {
        match decode_message(buf) {
            Some((first, n)) => {
                if 0 < n <= buf.len() {
                    let tail = buf.skip(n);
                    lemma_items_split(tail, (a - 1) as nat, b);
                    lemma_items_bounds(tail, (a - 1) as nat);
                    match decode_items(tail, (a - 1) as nat) {
                        Some((second, m)) => {
                            assert(tail.skip(m) =~= buf.skip(n + m));
                            match decode_items(buf.skip(n + m), b) {
                                Some((third, k)) => {
                                    assert(first + (second + third) =~= (first + second) + third);
                                },
                                None => {},
                            }
                        },
                        None => {},
                    }
                }
            },
            None => {},
        }
    }
}

/// One message in a row is that message.
pub proof fn lemma_single_item(buf: Seq<u8>)
    ensures
        decode_items(buf, 1) == decode_message(buf),
{
    lemma_decode_bounds(buf);
    match decode_message(buf) {
        Some((first, n)) => {
            assert(decode_items(buf.skip(n), 0) == Some((Seq::<Option<Seq<char>>>::empty(), 0int)));
            assert(first + Seq::<Option<Seq<char>>>::empty() =~= first);
        },
        None => {},
    }
}

/// An array at the head of a run of messages decodes as its count line
/// followed by its elements and the rest of the run, all in one row.
pub proof fn lemma_array_in_items(buf: Seq<u8>, pending: nat)
    requires
        pending >= 1,
        buf.len() > 0,
        buf[0] == 42,
        count_line(buf.skip(1)) is Some,
    ensures
        ({
            let (count, n) = count_line(buf.skip(1)).unwrap();
            &&& 1 + n <= buf.len()
            &&& decode_items(buf, pending) == joined(
                Seq::empty(),
                1 + n,
                decode_items(buf.skip(1 + n), (count + pending - 1) as nat),
            )
        }),
{
    let (count, n) = count_line(buf.skip(1)).unwrap();
    let tail = buf.skip(1);
    assert(line_ends_at(tail, line_len(tail)));
    let start = 1 + n;
    let body = buf.skip(start);
    let after = (pending - 1) as nat;
    assert(count + after == (count + pending - 1) as nat);
    lemma_items_split(body, count, after);
    lemma_items_bounds(body, count);
    assert(decode_message(buf) == array_fields(buf));
    match decode_items(body, count) {
        Some((fields, m)) => {
            assert(decode_message(buf) == Some((fields, start + m)));
            assert(body.skip(m) =~= buf.skip(start + m));
            match decode_items(buf.skip(start + m), after) {
                Some((more, k)) => {
                    assert(decode_items(buf, pending) == Some((fields + more, start + m + k)));
                    assert(decode_items(body, count + after) == Some((fields + more, m + k)));
                    assert(Seq::<Option<Seq<char>>>::empty() + (fields + more) =~= fields + more);
                },
                None => {
                    assert(decode_items(buf, pending) is None);
                    assert(decode_items(body, count + after) is None);
                },
            }
        },
        None => {
            assert(decode_message(buf) is None);
            assert(decode_items(buf, pending) is None);
            assert(decode_items(body, count + after) is None);
        },
    }
}

/// Finds the first line terminator of `buffer`.
pub(crate) fn find_break(buffer: &[u8]) -> (r: Option<usize>)
    ensures
        match r {
            Some(i) => has_line(buffer@) && line_len(buffer@) == i && i + 2 <= buffer@.len(),
            None => !has_line(buffer@),
        },
{
    let len: usize = buffer.len();
    let mut i: usize = 1;
    while i < len
        invariant
            len == buffer@.len(),
            1 <= i,
            forall|j: int| 0 <= j < i - 1 ==> !crlf_at(buffer@, j),
        decreases len - i,
    {
        if buffer[i - 1] == 13 && buffer[i] == 10 {
            proof {
                lemma_line_end_unique(buffer@, i as int - 1);
            }
            return Some(i - 1);
        }
        i = i + 1;
    }
    proof {
        if has_line(buffer@) {
            assert(crlf_at(buffer@, line_len(buffer@)));
        }
    }
    None
}

/// Reads the first line of `buffer`. Returns its text and `real_start` plus
/// the number of bytes up to and including the terminator.
pub fn up_to_break(buffer: &[u8], real_start: usize) -> (r: Option<(String, usize)>)
    requires
        real_start + buffer@.len() <= usize::MAX,
    ensures
        match text_line(buffer@) {
            Some((text, n)) => r matches Some((s, next)) && s@ == text && next == real_start + n,
            None => r is None,
        },
{
    match find_break(buffer) {
        Some(i) => {
            let line: Vec<u8> = slice_to_vec(slice_subrange(buffer, 0, i));
            match string_from_utf8(line) {
                Some(s) => Some((s, real_start + i + 2)),
                None => None,
            }
        },
        None => None,
    }
}

/// Reads the first line of `buffer` as an unsigned number. Returns the number
/// and `real_start` plus the number of bytes up to and including the
/// terminator.
pub(crate) fn count_up_to_break(buffer: &[u8], real_start: usize) -> (r: Option<(usize, usize)>)
    requires
        real_start + buffer@.len() <= usize::MAX,
    ensures
        match count_line(buffer@) {
            Some((count, n)) => r == Some((count as usize, (real_start + n) as usize)),
            None => r is None,
        },
{
    match find_break(buffer) {
        Some(i) => {
            match parse_decimal(slice_subrange(buffer, 0, i)) {
                Some(count) => {
                    if count > usize::MAX as u64 {
                        None
                    } else {
                        Some((count as usize, real_start + i + 2))
                    }
                },
                None => None,
            }
        },
        None => None,
    }
}

/// Decodes a simple string: the text between the type byte and the first
/// line terminator. The type byte itself is not inspected.
pub fn parse_simple_string(buffer: &[u8]) -> (r: Option<(Vec<Option<String>>, usize)>)
    requires
        buffer@.len() >= 1,
    ensures
        match decode_simple(buffer@) {
            Some((fields, n)) => r matches Some((v, k)) && v.deep_view() == fields && k == n,
            None => r is None,
        },
{
    match up_to_break(slice_subrange(buffer, 1, buffer.len()), 1) {
        Some((line, next_start)) => {
            let v: Vec<Option<String>> = vec![Some(line)];
            assert(v.deep_view() =~= seq![Some(line@)]);
            Some((v, next_start))
        },
        None => None,
    }
}

/// Decodes a bulk string: a length line, then exactly that many bytes of
/// text, then a line terminator. The type byte itself is not inspected.
pub fn parse_bulk_string(buffer: &[u8]) -> (r: Option<(Vec<Option<String>>, usize)>)
    requires
        buffer@.len() >= 1,
    ensures
        match decode_bulk(buffer@) {
            Some((fields, n)) => r matches Some((v, k)) && v.deep_view() == fields && k == n,
            None => r is None,
        },
{
    let total: usize = buffer.len();
    match count_up_to_break(slice_subrange(buffer, 1, total), 1) {
        Some((len, word_start)) => {
            if len > total - word_start {
                return None;
            }
            let word_end: usize = word_start + len;
            if total - word_end < 2 {
                return None;
            }
            if buffer[word_end] != 13 || buffer[word_end + 1] != 10 {
                return None;
            }
            let word: Vec<u8> = slice_to_vec(slice_subrange(buffer, word_start, word_end));
            match string_from_utf8(word) {
                Some(s) => {
                    let v: Vec<Option<String>> = vec![Some(s)];
                    assert(v.deep_view() =~= seq![Some(s@)]);
                    Some((v, word_end + 2))
                },
                None => None,
            }
        },
        None => None,
    }
}

/// Decodes `count` messages in a row from the start of `buffer`. Returns
/// their fields in order, nested arrays flattened, and the number of bytes
/// they take together.
pub fn parse_items(buffer: &[u8], count: usize) -> (r: Option<(Vec<Option<String>>, usize)>)
    ensures
        match decode_items(buffer@, count as nat) {
            Some((fields, n)) => r matches Some((v, k)) && v.deep_view() == fields && k == n,
            None => r is None,
        },
{
    let total: usize = buffer.len();
    let mut fields: Vec<Option<String>> = Vec::new();
    let mut start: usize = 0;
    let mut pending: usize = count;
    proof {
        assert(fields.deep_view() =~= Seq::empty());
        assert(buffer@.skip(0) =~= buffer@);
        match decode_items(buffer@, count as nat) {
            Some((all, n)) => {
                assert(Seq::<Option<Seq<char>>>::empty() + all =~= all);
            },
            None => {},
        }
    }
    while pending > 0
        invariant
            total == buffer@.len(),
            start <= total,
            decode_items(buffer@, count as nat) == joined(
                fields.deep_view(),
                start as int,
                decode_items(buffer@.skip(start as int), pending as nat),
            ),
        decreases total - start,
    {
        let ghost before = fields.deep_view();
        let ghost tail = buffer@.skip(start as int);
        if pending > total - start {
            proof {
                lemma_items_bounds(tail, pending as nat);
            }
            return None;
        }
        let rest: &[u8] = slice_subrange(buffer, start, total);
        let kind: u8 = buffer[start];
        if kind == 43 || kind == 36 {
            let leaf = if kind == 43 {
                parse_simple_string(rest)
            } else {
                parse_bulk_string(rest)
            };
            match leaf {
                Some((mut message, taken)) => {
                    proof {
                        lemma_decode_bounds(tail);
                        assert(tail.skip(taken as int) =~= buffer@.skip(start + taken));
                    }
                    let ghost first = message.deep_view();
                    fields.append(&mut message);
                    start = start + taken;
                    pending = pending - 1;
                    proof {
                        assert(fields.deep_view() =~= before + first);
                        match decode_items(buffer@.skip(start as int), pending as nat) {
                            Some((more, m)) => {
                                assert((before + first) + more =~= before + (first + more));
                            },
                            None => {},
                        }
                    }
                },
                None => {
                    return None;
                },
            }
        } else if kind == 42 {
            match count_up_to_break(slice_subrange(rest, 1, rest.len()), 1) {
                Some((array_len, first)) => {
                    proof {
                        lemma_array_in_items(tail, pending as nat);
                        assert(tail.skip(first as int) =~= buffer@.skip(start + first));
                    }
                    let left: usize = total - start - first;
                    if pending - 1 > left || array_len > left - (pending - 1) {
                        proof {
                            lemma_items_bounds(
                                buffer@.skip(start + first),
                                (array_len + pending - 1) as nat,
                            );
                        }
                        return None;
                    }
                    pending = pending - 1 + array_len;
                    start = start + first;
                    proof {
                        match decode_items(buffer@.skip(start as int), pending as nat) {
                            Some((more, m)) => {
                                assert(before + (Seq::<Option<Seq<char>>>::empty() + more)
                                    =~= before + more);
                            },
                            None => {},
                        }
                    }
                },
                None => {
                    return None;
                },
            }
        } else {
            return None;
        }
    }
    proof {
        assert(fields.deep_view() + Seq::<Option<Seq<char>>>::empty() =~= fields.deep_view());
    }
    Some((fields, start))
}

/// Decodes an array: a count line, then that many messages. The fields of
/// the elements are returned in order, nested arrays flattened. The type byte
/// itself is not inspected.
pub fn parse_array(buffer: &[u8]) -> (r: Option<(Vec<Option<String>>, usize)>)
    requires
        buffer@.len() >= 1,
    ensures
        match array_fields(buffer@) {
            Some((fields, n)) => r matches Some((v, k)) && v.deep_view() == fields && k == n,
            None => r is None,
        },
{
    let total: usize = buffer.len();
    match count_up_to_break(slice_subrange(buffer, 1, total), 1) {
        Some((array_len, first)) => {
            proof {
                lemma_items_bounds(buffer@.skip(first as int), array_len as nat);
            }
            match parse_items(slice_subrange(buffer, first, total), array_len) {
                Some((array, taken)) => Some((array, first + taken)),
                None => None,
            }
        },
        None => None,
    }
}

/// Decodes the message at the start of `buffer` into its positional fields
/// and the number of bytes it takes. Returns nothing where the buffer does
/// not start with a complete, well-formed message.
pub fn parse_message(buffer: &[u8]) -> (r: Option<(Vec<Option<String>>, usize)>)
    ensures
        match decode_message(buffer@) {
            Some((fields, n)) => r matches Some((v, k)) && v.deep_view() == fields && k == n,
            None => r is None,
        },
{
    proof {
        lemma_single_item(buffer@);
    }
    parse_items(buffer, 1)
}

/// Bytes below 128 are UTF-8.
pub proof fn lemma_ascii_is_utf8(bytes: Seq<u8>)
    requires
        forall|i: int| 0 <= i < bytes.len() ==> #[trigger] bytes[i] < 128,
    ensures
        valid_utf8(bytes),
{
    assert(bytes.subrange(0, 0) =~= Seq::<u8>::empty());
    assert(partial_valid_utf8(bytes, 0));
    assert forall|i: int| 0 <= i < bytes.len() implies #[trigger] is_leading_byte_width_1(
        bytes[i],
    ) by {
        let b = bytes[i];
        assert(b < 128);
        assert(b < 128 ==> is_leading_byte_width_1(b)) by (bit_vector);
    }
    partial_valid_utf8_extend_ascii_block(bytes, 0, bytes.len() as int);
    assert(bytes.subrange(0, bytes.len() as int) =~= bytes);
}

/// The wire form of a bulk string is UTF-8.
pub proof fn lemma_bulk_wire_is_utf8(text: Seq<char>)
    ensures
        valid_utf8(bulk_wire(text)),
{
    let body = encode_utf8(text);
    let number = decimal(body.len());
    lemma_decimal_denotes(body.len());
    lemma_ascii_is_utf8(seq![36u8]);
    lemma_ascii_is_utf8(number);
    lemma_ascii_is_utf8(crlf());
    encode_utf8_valid_utf8(text);
    valid_utf8_concat(seq![36u8], number);
    valid_utf8_concat(seq![36u8] + number, crlf());
    valid_utf8_concat(seq![36u8] + number + crlf(), body);
    valid_utf8_concat(seq![36u8] + number + crlf() + body, crlf());
}

/// The wire forms of bulk strings in a row are UTF-8.
pub proof fn lemma_bulks_wire_is_utf8(items: Fields)
    ensures
        valid_utf8(bulks_wire(items)),
    decreases items.len(),
{
    if items.len() > 0 {
        lemma_bulk_wire_is_utf8(items[0].unwrap());
        lemma_bulks_wire_is_utf8(items.drop_first());
        valid_utf8_concat(bulk_wire(items[0].unwrap()), bulks_wire(items.drop_first()));
    }
}

/// The wire form of every message is UTF-8.
pub proof fn lemma_wire_is_utf8(message: Message)
    ensures
        valid_utf8(message.wire()),
{
    match message {
        Message::Simple(text) => {
            lemma_simple_wire_is_utf8(text@);
        },
        Message::SimpleStatic(text) => {
            lemma_simple_wire_is_utf8(text@);
        },
        Message::Bulk(text) => {
            lemma_bulk_wire_is_utf8(text@);
        },
        Message::Array(items) => {
            let fields = items.deep_view();
            let number = decimal(fields.len());
            lemma_decimal_denotes(fields.len());
            lemma_ascii_is_utf8(seq![42u8]);
            lemma_ascii_is_utf8(number);
            lemma_ascii_is_utf8(crlf());
            lemma_bulks_wire_is_utf8(fields);
            valid_utf8_concat(seq![42u8], number);
            valid_utf8_concat(seq![42u8] + number, crlf());
            valid_utf8_concat(seq![42u8] + number + crlf(), bulks_wire(fields));
        },
        Message::NullBulk() => {
            lemma_ascii_is_utf8(null_wire());
        },
    }
}

/// The wire form of a simple string is UTF-8.
pub proof fn lemma_simple_wire_is_utf8(text: Seq<char>)
    ensures
        valid_utf8(simple_wire(text)),
{
    lemma_ascii_is_utf8(seq![43u8]);
    lemma_ascii_is_utf8(crlf());
    encode_utf8_valid_utf8(text);
    valid_utf8_concat(seq![43u8], encode_utf8(text));
    valid_utf8_concat(seq![43u8] + encode_utf8(text), crlf());
}

/// Bulk strings in a row are the bulk strings of a first part followed by
/// those of the rest.
pub proof fn lemma_bulks_wire_concat(a: Fields, b: Fields)
    ensures
        bulks_wire(a + b) == bulks_wire(a) + bulks_wire(b),
    decreases a.len(),
{
    if a.len() == 0 {
        assert(a + b =~= b);
        assert(bulks_wire(a) + bulks_wire(b) =~= bulks_wire(b));
    } else {
        assert((a + b).drop_first() =~= a.drop_first() + b);
        lemma_bulks_wire_concat(a.drop_first(), b);
        assert(bulks_wire(a + b) =~= bulks_wire(a) + bulks_wire(b));
    }
}

/// Appends the wire form of a bulk string to `out`.
fn push_bulk(out: &mut Vec<u8>, text: &str)
    ensures
        final(out)@ == old(out)@ + bulk_wire(text@),
{
    let body: &[u8] = text.as_bytes();
    out.push(36);
    push_decimal(out, body.len() as u64);
    out.push(13);
    out.push(10);
    out.extend_from_slice(body);
    out.push(13);
    out.push(10);
    assert(out@ =~= old(out)@ + bulk_wire(text@));
}

/// Appends the wire form of a simple string to `out`.
fn push_simple(out: &mut Vec<u8>, text: &str)
    ensures
        final(out)@ == old(out)@ + simple_wire(text@),
{
    out.push(43);
    out.extend_from_slice(text.as_bytes());
    out.push(13);
    out.push(10);
    assert(out@ =~= old(out)@ + simple_wire(text@));
}

/// Encodes a message into the bytes that stand for it on the wire.
pub fn encode_message(message: &Message) -> (out: Vec<u8>)
    requires
        message.well_formed(),
    ensures
        out@ == message.wire(),
{
    let mut out: Vec<u8> = Vec::new();
    match message {
        Message::Simple(text) => {
            push_simple(&mut out, text.as_str());
        },
        Message::SimpleStatic(text) => {
            push_simple(&mut out, text);
        },
        Message::Bulk(text) => {
            push_bulk(&mut out, text.as_str());
        },
        Message::Array(items) => {
            let count: usize = items.len();
            out.push(42);
            push_decimal(&mut out, count as u64);
            out.push(13);
            out.push(10);
            let ghost head = out@;
            let ghost fields = items.deep_view();
            let mut i: usize = 0;
            while i < count
                invariant
                    count == items@.len(),
                    i <= count,
                    fields == items.deep_view(),
                    forall|j: int| 0 <= j < items@.len() ==> items@[j] is Some,
                    out@ == head + bulks_wire(fields.take(i as int)),
                decreases count - i,
            {
                match &items[i] {
                    Some(word) => {
                        push_bulk(&mut out, word.as_str());
                        proof {
                            let one: Fields = seq![Some(word@)];
                            assert(fields.take(i as int + 1) =~= fields.take(i as int) + one);
                            lemma_bulks_wire_concat(fields.take(i as int), one);
                            assert(one.drop_first() =~= Seq::empty());
                            assert(bulks_wire(one.drop_first()) =~= Seq::empty());
                            assert(bulks_wire(one) =~= bulk_wire(word@));
                        }
                    },
                    None => {
                        assert(items@[i as int] is Some);
                    },
                }
                i = i + 1;
            }
            proof {
                assert(fields.take(count as int) =~= fields);
                assert(head =~= seq![42u8] + decimal(fields.len()) + crlf());
            }
        },
        Message::NullBulk() => {
            out.push(36);
            out.push(45);
            out.push(49);
            out.push(13);
            out.push(10);
            assert(out@ =~= null_wire());
        },
    }
    out
}

/// The text that UTF-8 bytes encode.
pub(crate) fn text_of(bytes: Vec<u8>) -> (r: String)
    requires
        valid_utf8(bytes@),
    ensures
        encode_utf8(r@) == bytes@,
        r@ == decode_utf8(bytes@),
{
    proof {
        decode_utf8_encode_utf8(bytes@);
    }
    match string_from_utf8(bytes) {
        Some(text) => text,
        None => unreached(),
    }
}

/// Encodes a message into the text whose bytes stand for it on the wire.
pub fn convert_message(message: Message) -> (r: String)
    requires
        message.well_formed(),
    ensures
        encode_utf8(r@) == message.wire(),
        r@ == decode_utf8(message.wire()),
{
    let bytes: Vec<u8> = encode_message(&message);
    proof {
        lemma_wire_is_utf8(message);
    }
    text_of(bytes)
}

} // verus!
