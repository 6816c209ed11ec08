//! The wire format as mathematics: what each decoding step yields on a sequence
//! of bytes, and the bytes that stand for a value.

use vstd::prelude::*;
use vstd::utf8::encode_utf8;
use crate::decimal::{decimal_chars, decimal_i32};
use crate::resp_result::{RESPError, RESPResult};
use crate::text::text_of;

verus! {

/// Carriage return, the first byte of the terminator.
pub const CR: u8 = 0x0d;

/// Line feed, the second byte of the terminator.
pub const LF: u8 = 0x0a;

/// The sigil of a simple string, `+`.
pub const SIMPLE_STRING: u8 = 0x2b;

/// The sigil of a bulk string and of null, `$`.
pub const BULK_STRING: u8 = 0x24;

/// A protocol value as the contracts see it, its text as a sequence of
/// characters.
pub enum Value {
    Null,
    SimpleString(Seq<char>),
    BulkString(Seq<char>),
}

/// What a decoding step leaves behind: its result, and where the cursor stands.
pub struct Step<T> {
    pub result: RESPResult<T>,
    pub cursor: int,
}

/// The terminator, CR directly followed by LF, starts at `pos`.
pub open spec fn terminator_at(bytes: Seq<u8>, pos: int) -> bool {
    &&& 0 <= pos
    &&& pos + 1 < bytes.len()
    &&& bytes[pos] == CR
    &&& bytes[pos + 1] == LF
}

/// A terminator starts at `from` or later.
pub open spec fn has_terminator(bytes: Seq<u8>, from: int) -> bool {
    exists|pos: int| from <= pos && terminator_at(bytes, pos)
}

/// `pos` is where the first terminator at or after `from` starts.
pub open spec fn is_first_terminator(bytes: Seq<u8>, from: int, pos: int) -> bool {
    &&& from <= pos
    &&& terminator_at(bytes, pos)
    &&& forall|j: int| from <= j < pos ==> !terminator_at(bytes, j)
}

/// Where the first terminator at or after `from` starts. Meaningful where
/// `has_terminator(bytes, from)`.
pub open spec fn first_terminator(bytes: Seq<u8>, from: int) -> int {
    choose|pos: int| is_first_terminator(bytes, from, pos)
}

/// A position that meets `is_first_terminator` is the one that
/// `first_terminator` names.
pub proof fn lemma_first_terminator_unique(bytes: Seq<u8>, from: int, pos: int)
    requires
        is_first_terminator(bytes, from, pos),
    ensures
        has_terminator(bytes, from),
        first_terminator(bytes, from) == pos,
{
    let chosen = first_terminator(bytes, from);
    assert(is_first_terminator(bytes, from, chosen));
    if chosen < pos {
        assert(!terminator_at(bytes, chosen));
    } else if pos < chosen {
        assert(!terminator_at(bytes, pos));
    }
}

/// Among the terminators at or after `from` there is a first one.
proof fn lemma_first_terminator_before(bytes: Seq<u8>, from: int, pos: int)
    requires
        from <= pos,
        terminator_at(bytes, pos),
    ensures
        exists|first: int| is_first_terminator(bytes, from, first),
    decreases pos - from,
{
    if exists|j: int| from <= j < pos && terminator_at(bytes, j) {
        let earlier = choose|j: int| from <= j < pos && terminator_at(bytes, j);
        lemma_first_terminator_before(bytes, from, earlier);
    } else {
        assert(is_first_terminator(bytes, from, pos));
    }
}

/// Where a terminator follows, `first_terminator` names the first one.
pub proof fn lemma_first_terminator_is_first(bytes: Seq<u8>, from: int)
    requires
        has_terminator(bytes, from),
    ensures
        is_first_terminator(bytes, from, first_terminator(bytes, from)),
{
    let pos = choose|pos: int| from <= pos && terminator_at(bytes, pos);
    lemma_first_terminator_before(bytes, from, pos);
}

/// Line extraction: the bytes from the cursor up to the first terminator, with
/// the cursor left behind that terminator.
///
/// A cursor at or past the end fails in place. Where no terminator follows,
/// the step fails with the cursor at the end of the buffer. The offset in the
/// error is where the cursor was left.
pub open spec fn extract_line(bytes: Seq<u8>, cursor: int) -> Step<Seq<u8>> {
    if cursor >= bytes.len() {
        Step { result: Err(RESPError::OutOfBounds(cursor as usize)), cursor }
    } else if has_terminator(bytes, cursor) {
        let end = first_terminator(bytes, cursor);
        Step { result: Ok(bytes.subrange(cursor, end)), cursor: end + 2 }
    } else {
        Step {
            result: Err(RESPError::OutOfBounds(bytes.len() as usize)),
            cursor: bytes.len() as int,
        }
    }
}

/// With fewer than two bytes between the cursor and the end of the buffer,
/// line extraction fails and leaves the cursor at the end.
pub proof fn lemma_short_buffer_has_no_line(bytes: Seq<u8>, cursor: int)
    requires
        0 <= cursor <= bytes.len(),
        bytes.len() - cursor < 2,
    ensures
        extract_line(bytes, cursor) == (Step::<Seq<u8>> {
            result: Err(RESPError::OutOfBounds(bytes.len() as usize)),
            cursor: bytes.len() as int,
        }),
{
    assert forall|pos: int| cursor <= pos implies !terminator_at(bytes, pos) by {}
}

/// Where the first terminator at or after the cursor starts `k` bytes on, the
/// line is exactly the `k` bytes before it, and the cursor moves on by
/// `k + 2`.
pub proof fn lemma_line_before_terminator(bytes: Seq<u8>, cursor: int, k: int)
    requires
        0 <= cursor,
        is_first_terminator(bytes, cursor, cursor + k),
    ensures
        extract_line(bytes, cursor) == (Step::<Seq<u8>> {
            result: Ok(bytes.subrange(cursor, cursor + k)),
            cursor: cursor + k + 2,
        }),
{
    lemma_first_terminator_unique(bytes, cursor, cursor + k);
}

/// Half a terminator is none. Where no CR from the cursor on has an LF
/// directly behind it, line extraction fails and leaves the cursor at the end:
/// a CR that ends the buffer does not count, nor does an LF that follows
/// another byte than CR.
pub proof fn lemma_half_terminator_ends_no_line(bytes: Seq<u8>, cursor: int)
    requires
        0 <= cursor < bytes.len(),
        forall|pos: int|
            cursor <= pos && pos + 1 < bytes.len() && #[trigger] bytes[pos] == CR ==> bytes[pos + 1]
                != LF,
    ensures
        extract_line(bytes, cursor) == (Step::<Seq<u8>> {
            result: Err(RESPError::OutOfBounds(bytes.len() as usize)),
            cursor: bytes.len() as int,
        }),
{
    assert forall|pos: int| cursor <= pos implies !terminator_at(bytes, pos) by {}
}

/// Line extraction succeeds exactly where a terminator follows the cursor. It
/// then moves the cursor on by two bytes at least, and never past the end; a
/// failure reports the offset at which the cursor is left.
pub proof fn lemma_extract_line_cursor(bytes: Seq<u8>, cursor: int)
    requires
        0 <= cursor,
    ensures
        extract_line(bytes, cursor).result is Ok <==> has_terminator(bytes, cursor),
        extract_line(bytes, cursor).result is Ok ==> cursor + 2 <= extract_line(
            bytes,
            cursor,
        ).cursor <= bytes.len(),
        extract_line(bytes, cursor).result is Err && cursor <= usize::MAX && bytes.len()
            <= usize::MAX ==> extract_line(bytes, cursor).result == RESPResult::<Seq<u8>>::Err(
            RESPError::OutOfBounds(extract_line(bytes, cursor).cursor as usize),
        ),
{
    if has_terminator(bytes, cursor) {
        lemma_first_terminator_is_first(bytes, cursor);
    }
}

/// A line read as text. The cursor moves as in `extract_line`, also where the
/// line is not valid UTF-8.
pub open spec fn extract_line_as_string(bytes: Seq<u8>, cursor: int) -> Step<Seq<char>> {
    let line = extract_line(bytes, cursor);
    match line.result {
        Ok(content) => Step { result: text_of(content), cursor: line.cursor },
        Err(e) => Step { result: Err(e), cursor: line.cursor },
    }
}

/// A line read as a length: a decimal integer that fits `i32`.
pub open spec fn extract_length(bytes: Seq<u8>, cursor: int) -> Step<i32> {
    let line = extract_line_as_string(bytes, cursor);
    match line.result {
        Ok(text) => Step {
            result: match decimal_i32(text) {
                Some(length) => Ok(length),
                None => Err(RESPError::ParseInt),
            },
            cursor: line.cursor,
        },
        Err(e) => Step { result: Err(e), cursor: line.cursor },
    }
}

/// The next `length` bytes, with the cursor left behind them. Where fewer
/// remain the step fails in place; the offset in the error is the cursor plus
/// the length of the whole buffer.
pub open spec fn extract_bytes(bytes: Seq<u8>, cursor: int, length: int) -> Step<Seq<u8>> {
    if cursor + length > bytes.len() {
        Step { result: Err(RESPError::OutOfBounds((cursor + bytes.len()) as usize)), cursor }
    } else {
        Step { result: Ok(bytes.subrange(cursor, cursor + length)), cursor: cursor + length }
    }
}

/// A simple string: the sigil `+`, then one line of text.
pub open spec fn decode_simple_string(bytes: Seq<u8>, cursor: int) -> Step<Value>
    recommends
        0 <= cursor < bytes.len(),
{
    if bytes[cursor] != SIMPLE_STRING {
        Step { result: Err(RESPError::WrongType), cursor }
    } else {
        let line = extract_line_as_string(bytes, cursor + 1);
        match line.result {
            Ok(text) => Step { result: Ok(Value::SimpleString(text)), cursor: line.cursor },
            Err(e) => Step { result: Err(e), cursor: line.cursor },
        }
    }
}

/// A bulk string or null: the sigil `$`, then a length line. Length `-1` is
/// null and ends the value; a smaller length is refused. Otherwise that many
/// bytes of payload follow, read as text, and the cursor skips two bytes more,
/// whatever they hold.
pub open spec fn decode_bulk_string(bytes: Seq<u8>, cursor: int) -> Step<Value>
    recommends
        0 <= cursor < bytes.len(),
{
    if bytes[cursor] != BULK_STRING {
        Step { result: Err(RESPError::WrongType), cursor }
    } else {
        let length = extract_length(bytes, cursor + 1);
        match length.result {
            Err(e) => Step { result: Err(e), cursor: length.cursor },
            Ok(n) => if n == -1 {
                Step { result: Ok(Value::Null), cursor: length.cursor }
            } else if n < -1 {
                Step { result: Err(RESPError::IncorrectLength(n)), cursor: length.cursor }
            } else {
                let payload = extract_bytes(bytes, length.cursor, n as int);
                match payload.result {
                    Err(e) => Step { result: Err(e), cursor: payload.cursor },
                    Ok(content) => match text_of(content) {
                        Err(e) => Step { result: Err(e), cursor: payload.cursor },
                        Ok(text) => Step {
                            result: Ok(Value::BulkString(text)),
                            cursor: payload.cursor + 2,
                        },
                    },
                }
            },
        }
    }
}

/// One value, chosen by the sigil at the cursor. A byte that is no known
/// sigil fails in place.
pub open spec fn decode(bytes: Seq<u8>, cursor: int) -> Step<Value>
    recommends
        0 <= cursor < bytes.len(),
{
    if bytes[cursor] == SIMPLE_STRING {
        decode_simple_string(bytes, cursor)
    } else if bytes[cursor] == BULK_STRING {
        decode_bulk_string(bytes, cursor)
    } else {
        Step { result: Err(RESPError::Unknown), cursor }
    }
}

/// The text that stands for a value on the wire. Null is the bulk string of
/// length `-1`; a simple string is its text between the sigil and a
/// terminator; a bulk string gives the number of bytes of its text in decimal
/// on a line of its own, and then the text, terminated.
pub open spec fn wire_text(value: Value) -> Seq<char> {
    match value {
        Value::Null => seq!['$', '-', '1', '\r', '\n'],
        Value::SimpleString(text) => seq!['+'] + text + seq!['\r', '\n'],
        Value::BulkString(text) => seq!['$'] + decimal_chars(encode_utf8(text).len()) + seq![
            '\r',
            '\n',
        ] + text + seq!['\r', '\n'],
    }
}

/// The bytes that stand for a value on the wire: its wire text in UTF-8.
pub open spec fn wire_bytes(value: Value) -> Seq<u8> {
    encode_utf8(wire_text(value))
}

} // verus!
