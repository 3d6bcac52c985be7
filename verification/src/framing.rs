//! Framing: whether a buffer holds a whole message, needs more bytes, or
//! can never become a message whatever follows.

use crate::resp::{
    count_line, count_up_to_break, crlf_at, decode_items, decode_message, find_break, has_line,
    lemma_decode_bounds, lemma_items_bounds, lemma_line_end_unique, line_ends_at, line_len,
    string_from_utf8, text_line,
};
use vstd::prelude::*;
use vstd::slice::{slice_subrange, slice_to_vec};
use vstd::utf8::valid_utf8;

verus! {

/// What a look at a buffer finds at its start.
#[derive(Debug, Clone, Copy, PartialEq, Eq, Structural)]
pub enum FrameStatus {
    /// A whole message of this many bytes.
    Complete(usize),
    /// The start of something that is not yet a whole message.
    Incomplete,
    /// Bytes that no continuation turns into a message.
    Invalid,
}

/// The model of a `FrameStatus`.
pub enum Progress {
    Done(int),
    Short,
    Broken,
}

/// The progress of a part that stands `offset` bytes into its buffer.
pub open spec fn shifted(progress: Progress, offset: int) -> Progress {
    match progress {
        Progress::Done(n) => Progress::Done(n + offset),
        Progress::Short => Progress::Short,
        Progress::Broken => Progress::Broken,
    }
}

/// A simple string is waited for until its line has ended, and is broken
/// if that line is not UTF-8.
pub open spec fn simple_progress(buf: Seq<u8>) -> Progress {
    let tail = buf.skip(1);
    if !has_line(tail) {
        Progress::Short
    } else if valid_utf8(tail.subrange(0, line_len(tail))) {
        Progress::Done(1 + line_len(tail) + 2)
    } else {
        Progress::Broken
    }
}

/// A bulk string is waited for until its length line has ended and as many
/// bytes as that line asks for have come, with two more for the terminator.
/// It is broken if the length is no number, the terminator is not where it
/// belongs, or the text is not UTF-8.
pub open spec fn bulk_progress(buf: Seq<u8>) -> Progress {
    let tail = buf.skip(1);
    if !has_line(tail) {
        Progress::Short
    } else {
        match count_line(tail) {
            Some((len, n)) => {
                let start = 1 + n;
                let end = start + len;
                if buf.len() < end + 2 {
                    Progress::Short
                } else if crlf_at(buf, end) && valid_utf8(buf.subrange(start, end)) {
                    Progress::Done(end + 2)
                } else {
                    Progress::Broken
                }
            },
            None => Progress::Broken,
        }
    }
}

/// The progress of `count` messages in a row: that of the first one that is
/// not whole, or else the bytes they take together.
pub open spec fn items_progress(buf: Seq<u8>, count: nat) -> Progress
    decreases buf.len(), count + 2,
{
    if count == 0 {
        Progress::Done(0)
    } else {
        match message_progress(buf) {
            Progress::Done(n) => if 0 < n <= buf.len() {
                shifted(items_progress(buf.skip(n), (count - 1) as nat), n)
            } else {
                Progress::Broken
            },
            Progress::Short => Progress::Short,
            Progress::Broken => Progress::Broken,
        }
    }
}

/// An array is waited for until its count line has ended, and is then as
/// far as its elements are. It is broken if the count is no number.
pub open spec fn array_progress(buf: Seq<u8>) -> Progress
    decreases buf.len(), 0nat,
{
    let tail = buf.skip(1);
    if !has_line(tail) {
        Progress::Short
    } else {
        match count_line(tail) {
            Some((count, n)) => if 1 + n <= buf.len() {
                shifted(items_progress(buf.skip(1 + n), count), 1 + n)
            } else {
                Progress::Broken
            },
            None => Progress::Broken,
        }
    }
}

/// How far the message at the start of a buffer has come. An empty buffer
/// is waited for; a first byte that opens no message is broken.
pub open spec fn message_progress(buf: Seq<u8>) -> Progress
    decreases buf.len(), 1nat,
{
    if buf.len() == 0 {
        Progress::Short
    } else if buf[0] == 43 {
        simple_progress(buf)
    } else if buf[0] == 36 {
        bulk_progress(buf)
    } else if buf[0] == 42 {
        array_progress(buf)
    } else {
        Progress::Broken
    }
}

/// A buffer is done exactly where it decodes, and with the same number of
/// bytes.
pub proof fn lemma_done_is_decoded(buf: Seq<u8>)
    ensures
        match decode_message(buf) {
            Some((_, n)) => message_progress(buf) == Progress::Done(n),
            None => !(message_progress(buf) is Done),
        },
    decreases buf.len(), 1nat,
{
    if buf.len() > 0 && buf[0] == 42 {
        let tail = buf.skip(1);
        if has_line(tail) {
            match count_line(tail) {
                Some((count, n)) => {
                    if 1 + n <= buf.len() {
                        lemma_items_done_is_decoded(buf.skip(1 + n), count);
                    }
                },
                None => {},
            }
        }
    }
}

/// A run of messages is done exactly where it decodes, and with the same
/// number of bytes.
pub proof fn lemma_items_done_is_decoded(buf: Seq<u8>, count: nat)
    ensures
        match decode_items(buf, count) {
            Some((_, n)) => items_progress(buf, count) == Progress::Done(n),
            None => !(items_progress(buf, count) is Done),
        },
    decreases buf.len(), count + 2,
{
    if count > 0 {
        lemma_done_is_decoded(buf);
        match decode_message(buf) {
            Some((_, n)) => {
                if 0 < n <= buf.len() {
                    lemma_items_done_is_decoded(buf.skip(n), (count - 1) as nat);
                }
            },
            None => {},
        }
    }
}

/// The first line of a buffer stays what it is when bytes are added behind.
proof fn lemma_line_extends(buf: Seq<u8>, ext: Seq<u8>)
    requires
        has_line(buf),
    ensures
        has_line(buf + ext),
        line_len(buf + ext) == line_len(buf),
        (buf + ext).subrange(0, line_len(buf)) == buf.subrange(0, line_len(buf)),
        text_line(buf + ext) == text_line(buf),
        count_line(buf + ext) == count_line(buf),
{
    let i = line_len(buf);
    assert(line_ends_at(buf, i));
    let more = buf + ext;
    assert forall|j: int| 0 <= j < i implies !crlf_at(more, j) by {
        assert(!crlf_at(buf, j));
    }
    lemma_line_end_unique(more, i);
    assert(more.subrange(0, i) =~= buf.subrange(0, i));
}

/// Stability: what a buffer has come to, unless it is short, and what it
/// decodes to, if it decodes, stay the same whatever bytes follow.
pub proof fn lemma_progress_is_final(buf: Seq<u8>, ext: Seq<u8>)
    ensures
        !(message_progress(buf) is Short) ==> message_progress(buf + ext) == message_progress(buf),
        decode_message(buf) is Some ==> decode_message(buf + ext) == decode_message(buf),
    decreases buf.len(), 1nat,
{
    let more = buf + ext;
    if buf.len() > 0 {
        assert(more[0] == buf[0]);
        let tail = buf.skip(1);
        assert(more.skip(1) =~= tail + ext);
        if has_line(tail) {
            lemma_line_extends(tail, ext);
            if buf[0] == 36 {
                match count_line(tail) {
                    Some((len, n)) => {
                        let start = 1 + n;
                        let end = start + len;
                        if buf.len() >= end + 2 {
                            assert(more.subrange(start, end) =~= buf.subrange(start, end));
                        }
                    },
                    None => {},
                }
            } else if buf[0] == 42 {
                match count_line(tail) {
                    Some((count, n)) => {
                        assert(line_ends_at(tail, line_len(tail)));
                        assert(more.skip(1 + n) =~= buf.skip(1 + n) + ext);
                        lemma_items_progress_is_final(buf.skip(1 + n), count, ext);
                    },
                    None => {},
                }
            }
        } else {
            assert(decode_message(buf) is None);
        }
    }
}

/// Stability of a run of messages.
pub proof fn lemma_items_progress_is_final(buf: Seq<u8>, count: nat, ext: Seq<u8>)
    ensures
        !(items_progress(buf, count) is Short) ==> items_progress(buf + ext, count)
            == items_progress(buf, count),
        decode_items(buf, count) is Some ==> decode_items(buf + ext, count) == decode_items(
            buf,
            count,
        ),
    decreases buf.len(), count + 2,
{
    if count > 0 {
        lemma_progress_is_final(buf, ext);
        lemma_done_is_decoded(buf);
        lemma_decode_bounds(buf);
        match message_progress(buf) {
            Progress::Done(n) => {
                if 0 < n <= buf.len() {
                    assert((buf + ext).skip(n) =~= buf.skip(n) + ext);
                    lemma_items_progress_is_final(buf.skip(n), (count - 1) as nat, ext);
                }
            },
            _ => {},
        }
    }
}

/// A broken buffer never decodes, whatever bytes follow.
pub proof fn lemma_broken_never_decodes(buf: Seq<u8>, ext: Seq<u8>)
    requires
        message_progress(buf) is Broken,
    ensures
        decode_message(buf + ext) is None,
{
    lemma_progress_is_final(buf, ext);
    lemma_done_is_decoded(buf + ext);
}

/// A buffer that decodes keeps decoding to the same fields and the same
/// number of bytes, whatever bytes follow.
pub proof fn lemma_decoded_prefix(buf: Seq<u8>, ext: Seq<u8>)
    requires
        decode_message(buf) is Some,
    ensures
        decode_message(buf + ext) == decode_message(buf),
{
    lemma_progress_is_final(buf, ext);
}

/// One message in a row has come as far as that message.
pub proof fn lemma_single_progress(buf: Seq<u8>)
    ensures
        items_progress(buf, 1) == message_progress(buf),
{
    lemma_done_is_decoded(buf);
    lemma_decode_bounds(buf);
    match message_progress(buf) {
        Progress::Done(n) => {
            assert(items_progress(buf.skip(n), 0) == Progress::Done(0));
        },
        _ => {},
    }
}

/// A run of messages has come as far as its first `a` messages, or as the
/// `b` behind them once those are done.
pub proof fn lemma_progress_split(buf: Seq<u8>, a: nat, b: nat)
    ensures
        items_progress(buf, a + b) == (match items_progress(buf, a) {
            Progress::Done(n) => shifted(items_progress(buf.skip(n), b), n),
            Progress::Short => Progress::Short,
            Progress::Broken => Progress::Broken,
        }),
    decreases a,
{
    if a == 0 {
        assert(buf.skip(0) =~= buf);
    } else {
        match message_progress(buf) {
            Progress::Done(n) => {
                if 0 < n <= buf.len() {
                    let tail = buf.skip(n);
                    lemma_progress_split(tail, (a - 1) as nat, b);
                    lemma_items_done_is_decoded(tail, (a - 1) as nat);
                    lemma_items_bounds(tail, (a - 1) as nat);
                    match items_progress(tail, (a - 1) as nat) {
                        Progress::Done(m) => {
                            assert(tail.skip(m) =~= buf.skip(n + m));
                        },
                        _ => {},
                    }
                }
            },
            _ => {},
        }
    }
}

/// An array at the head of a run of messages has come as far as its
/// elements and the rest of the run, all in one row behind its count line.
pub proof fn lemma_array_in_progress(buf: Seq<u8>, pending: nat)
    requires
        pending >= 1,
        buf.len() > 0,
        buf[0] == 42,
        has_line(buf.skip(1)),
        count_line(buf.skip(1)) is Some,
    ensures
        ({
            let (count, n) = count_line(buf.skip(1)).unwrap();
            &&& 3 <= 1 + n <= buf.len()
            &&& items_progress(buf, pending) == shifted(
                items_progress(buf.skip(1 + n), (count + pending - 1) as nat),
                1 + n,
            )
        }),
{
    let (count, n) = count_line(buf.skip(1)).unwrap();
    let tail = buf.skip(1);
    assert(line_ends_at(tail, line_len(tail)));
    let start = 1 + n;
    let body = buf.skip(start);
    let after = (pending - 1) as nat;
    assert(count + after == (count + pending - 1) as nat);
    lemma_progress_split(body, count, after);
    lemma_items_done_is_decoded(body, count);
    lemma_items_bounds(body, count);
    assert(message_progress(buf) == array_progress(buf));
    match items_progress(body, count) {
        Progress::Done(m) => {
            assert(message_progress(buf) == Progress::Done(start + m));
            assert(body.skip(m) =~= buf.skip(start + m));
        },
        _ => {},
    }
}

/// A run of more messages than the buffer has bytes is never done, and
/// how many more are asked for makes no difference to how far it has come.
pub proof fn lemma_progress_beyond(buf: Seq<u8>, a: nat, b: nat)
    requires
        a > buf.len(),
        b > buf.len(),
    ensures
        items_progress(buf, a) == items_progress(buf, b),
        !(items_progress(buf, a) is Done),
    decreases buf.len(),
{
    lemma_items_done_is_decoded(buf, a);
    lemma_items_bounds(buf, a);
    match message_progress(buf) {
        Progress::Done(n) => {
            if 0 < n <= buf.len() {
                lemma_progress_beyond(buf.skip(n), (a - 1) as nat, (b - 1) as nat);
            }
        },
        _ => {},
    }
}

/// The first line of a buffer is the first line of every prefix that holds
/// it whole.
proof fn lemma_line_in_prefix(buf: Seq<u8>, k: int)
    requires
        has_line(buf),
        line_len(buf) + 2 <= k <= buf.len(),
    ensures
        has_line(buf.take(k)),
        line_len(buf.take(k)) == line_len(buf),
        text_line(buf.take(k)) == text_line(buf),
        count_line(buf.take(k)) == count_line(buf),
{
    let i = line_len(buf);
    assert(line_ends_at(buf, i));
    let part = buf.take(k);
    assert forall|j: int| 0 <= j < i implies !crlf_at(part, j) by {
        assert(!crlf_at(buf, j));
    }
    lemma_line_end_unique(part, i);
    assert(part.subrange(0, i) =~= buf.subrange(0, i));
}

/// A message decodes from its own bytes alone: cut off behind the bytes
/// that it takes, the buffer decodes to the same fields and the same
/// number of bytes.
pub proof fn lemma_own_bytes_decode(buf: Seq<u8>)
    requires
        decode_message(buf) is Some,
    ensures
        0 < decode_message(buf).unwrap().1 <= buf.len(),
        decode_message(buf.take(decode_message(buf).unwrap().1)) == decode_message(buf),
    decreases buf.len(), 1nat,
{
    lemma_decode_bounds(buf);
    let (fields, n) = decode_message(buf).unwrap();
    let part = buf.take(n);
    let tail = buf.skip(1);
    assert(part[0] == buf[0]);
    assert(part.skip(1) =~= tail.take(n - 1));
    assert(has_line(tail));
    assert(line_ends_at(tail, line_len(tail)));
    if buf[0] == 43 {
        lemma_line_in_prefix(tail, n - 1);
    } else if buf[0] == 36 {
        let (len, used) = count_line(tail).unwrap();
        lemma_line_in_prefix(tail, n - 1);
        let start = 1 + used;
        let end = start + len;
        assert(part.subrange(start, end) =~= buf.subrange(start, end));
    } else {
        let (count, used) = count_line(tail).unwrap();
        let start = 1 + used;
        let body = buf.skip(start);
        lemma_items_bounds(body, count);
        lemma_line_in_prefix(tail, n - 1);
        lemma_items_own_bytes_decode(body, count);
        assert(part.skip(start) =~= body.take(n - start));
    }
}

/// A run of messages decodes from its own bytes alone.
pub proof fn lemma_items_own_bytes_decode(buf: Seq<u8>, count: nat)
    requires
        decode_items(buf, count) is Some,
    ensures
        count <= decode_items(buf, count).unwrap().1 <= buf.len(),
        decode_items(buf.take(decode_items(buf, count).unwrap().1), count) == decode_items(
            buf,
            count,
        ),
    decreases buf.len(), count + 2,
{
    lemma_items_bounds(buf, count);
    if count > 0 {
        let (fields, total) = decode_items(buf, count).unwrap();
        let (first, n) = decode_message(buf).unwrap();
        let rest = buf.skip(n);
        lemma_items_bounds(rest, (count - 1) as nat);
        lemma_own_bytes_decode(buf);
        let part = buf.take(total);
        assert(part =~= buf.take(n) + buf.subrange(n, total));
        lemma_decoded_prefix(buf.take(n), buf.subrange(n, total));
        lemma_items_own_bytes_decode(rest, (count - 1) as nat);
        assert(part.skip(n) =~= rest.take(total - n));
    }
}

/// Whether the bytes are UTF-8.
fn is_utf8(bytes: &[u8]) -> (r: bool)
    ensures
        r == valid_utf8(bytes@),
{
    string_from_utf8(slice_to_vec(bytes)).is_some()
}

/// Tells how far a simple or bulk string at the start of `buffer` has come.
fn leaf_status(buffer: &[u8]) -> (status: FrameStatus)
    requires
        buffer@.len() > 0,
        buffer@[0] == 43 || buffer@[0] == 36,
    ensures
        match message_progress(buffer@) {
            Progress::Done(n) => status == FrameStatus::Complete(n as usize) && 0 < n
                <= buffer@.len(),
            Progress::Short => status == FrameStatus::Incomplete,
            Progress::Broken => status == FrameStatus::Invalid,
        },
{
    let total: usize = buffer.len();
    let tail: &[u8] = slice_subrange(buffer, 1, total);
    let end: usize = match find_break(tail) {
        Some(end) => end,
        None => {
            return FrameStatus::Incomplete;
        },
    };
    if buffer[0] == 43 {
        if is_utf8(slice_subrange(tail, 0, end)) {
            FrameStatus::Complete(1 + end + 2)
        } else {
            FrameStatus::Invalid
        }
    } else {
        match count_up_to_break(tail, 1) {
            Some((len, start)) => {
                if len > total - start || total - start - len < 2 {
                    return FrameStatus::Incomplete;
                }
                let end: usize = start + len;
                if buffer[end] == 13 && buffer[end + 1] == 10 && is_utf8(
                    slice_subrange(buffer, start, end),
                ) {
                    FrameStatus::Complete(end + 2)
                } else {
                    FrameStatus::Invalid
                }
            },
            None => FrameStatus::Invalid,
        }
    }
}

/// Tells how far the message at the start of `buffer` has come.
pub fn frame_status(buffer: &[u8]) -> (status: FrameStatus)
    ensures
        match message_progress(buffer@) {
            Progress::Done(n) => status == FrameStatus::Complete(n as usize) && 0 < n
                <= buffer@.len(),
            Progress::Short => status == FrameStatus::Incomplete,
            Progress::Broken => status == FrameStatus::Invalid,
        },
{
    let total: usize = buffer.len();
    let mut start: usize = 0;
    let mut pending: usize = 1;
    proof {
        lemma_single_progress(buffer@);
        lemma_done_is_decoded(buffer@);
        lemma_decode_bounds(buffer@);
        assert(buffer@.skip(0) =~= buffer@);
    }
    while pending > 0
        invariant
            total == buffer@.len(),
            start <= total,
            message_progress(buffer@) == shifted(
                items_progress(buffer@.skip(start as int), pending as nat),
                start as int,
            ),
            message_progress(buffer@) matches Progress::Done(n) ==> 0 < n <= total,
        decreases total - start,
    {
        let ghost tail = buffer@.skip(start as int);
        if start == total {
            return FrameStatus::Incomplete;
        }
        let rest: &[u8] = slice_subrange(buffer, start, total);
        let kind: u8 = buffer[start];
        if kind == 43 || kind == 36 {
            match leaf_status(rest) {
                FrameStatus::Complete(taken) => {
                    proof {
                        assert(tail.skip(taken as int) =~= buffer@.skip(start + taken));
                    }
                    start = start + taken;
                    pending = pending - 1;
                },
                FrameStatus::Incomplete => {
                    return FrameStatus::Incomplete;
                },
                FrameStatus::Invalid => {
                    return FrameStatus::Invalid;
                },
            }
        } else if kind == 42 {
            let header: &[u8] = slice_subrange(rest, 1, rest.len());
            match find_break(header) {
                Some(_) => {},
                None => {
                    return FrameStatus::Incomplete;
                },
            }
            match count_up_to_break(header, 1) {
                Some((count, first)) => {
                    proof {
                        lemma_array_in_progress(tail, pending as nat);
                        assert(tail.skip(first as int) =~= buffer@.skip(start + first));
                        if count + pending - 1 > usize::MAX {
                            lemma_progress_beyond(
                                buffer@.skip(start + first),
                                (count + pending - 1) as nat,
                                usize::MAX as nat,
                            );
                        }
                    }
                    pending = (pending - 1).saturating_add(count);
                    start = start + first;
                },
                None => {
                    return FrameStatus::Invalid;
                },
            }
        } else {
            return FrameStatus::Invalid;
        }
    }
    FrameStatus::Complete(start)
}

} // verus!
