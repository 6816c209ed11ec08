//! Encoding and decoding are inverse: the bytes of a value decode to the value.

use vstd::prelude::*;
use vstd::utf8::{encode_utf8, is_ascii_chars, is_ascii_chars_encode_utf8};
use crate::decimal::{
    decimal_chars, is_digit, lemma_decimal_chars_are_digits, lemma_decimal_i32_of_text,
    lemma_signed_decimal_of_text, signed_decimal_chars,
};
use crate::resp_result::{RESPError, RESPResult};
use crate::text::{lemma_encode_utf8_concat, lemma_text_of_encoded};
use crate::wire::{
    decode, extract_bytes, extract_length, extract_line, extract_line_as_string,
    first_terminator, has_terminator, is_first_terminator, lemma_first_terminator_is_first,
    lemma_line_before_terminator, terminator_at, wire_bytes, wire_text, Step, Value,
    BULK_STRING, CR, LF, SIMPLE_STRING,
};

verus! {

/// The bytes of a text of ASCII characters: one byte for each character.
pub open spec fn ascii_bytes(text: Seq<char>) -> Seq<u8> {
    Seq::new(text.len(), |i: int| text[i] as u8)
}

/// UTF-8 encodes ASCII characters as themselves.
pub proof fn lemma_encode_ascii(text: Seq<char>)
    requires
        is_ascii_chars(text),
    ensures
        encode_utf8(text) == ascii_bytes(text),
{
    is_ascii_chars_encode_utf8(text);
    assert(encode_utf8(text) =~= ascii_bytes(text));
}

/// The bytes of a value on the wire, part by part: the sigil, for a bulk
/// string the decimal length of its text in bytes and a terminator, then the
/// bytes of the text and a terminator. Null is the five bytes `$-1` and a
/// terminator.
pub proof fn lemma_wire_bytes(value: Value)
    ensures
        wire_bytes(value) == match value {
            Value::Null => seq![BULK_STRING, 0x2du8, 0x31u8, CR, LF],
            Value::SimpleString(text) => seq![SIMPLE_STRING] + encode_utf8(text) + seq![CR, LF],
            Value::BulkString(text) => seq![BULK_STRING] + ascii_bytes(
                decimal_chars(encode_utf8(text).len()),
            ) + seq![CR, LF] + encode_utf8(text) + seq![CR, LF],
        },
{
    let sigil_plus = seq!['+'];
    let sigil_dollar = seq!['$'];
    let end = seq!['\r', '\n'];
    lemma_encode_ascii(sigil_plus);
    lemma_encode_ascii(sigil_dollar);
    lemma_encode_ascii(end);
    assert(ascii_bytes(sigil_plus) =~= seq![SIMPLE_STRING]);
    assert(ascii_bytes(sigil_dollar) =~= seq![BULK_STRING]);
    assert(ascii_bytes(end) =~= seq![CR, LF]);
    match value {
        Value::Null => {
            let text = wire_text(value);
            lemma_encode_ascii(text);
            assert(ascii_bytes(text) =~= seq![BULK_STRING, 0x2du8, 0x31u8, CR, LF]);
        },
        Value::SimpleString(text) => {
            lemma_encode_utf8_concat(sigil_plus + text, end);
            lemma_encode_utf8_concat(sigil_plus, text);
        },
        Value::BulkString(text) => {
            let digits = decimal_chars(encode_utf8(text).len());
            lemma_decimal_chars_are_digits(encode_utf8(text).len());
            assert(is_ascii_chars(digits)) by {
                assert forall|i: int| 0 <= i < digits.len() implies '\0' <= #[trigger] digits[i]
                    <= '\u{7f}' by {
                    assert(is_digit(digits[i]));
                }
            }
            lemma_encode_ascii(digits);
            lemma_encode_utf8_concat(sigil_dollar + digits + end + text, end);
            lemma_encode_utf8_concat(sigil_dollar + digits + end, text);
            lemma_encode_utf8_concat(sigil_dollar + digits, end);
            lemma_encode_utf8_concat(sigil_dollar, digits);
        },
    }
}

/// A line that holds no terminator, framed by one, is what line extraction
/// finds, whatever stands before the cursor and behind the terminator.
pub proof fn lemma_extract_framed_line(head: Seq<u8>, line: Seq<u8>, tail: Seq<u8>)
    requires
        !has_terminator(line, 0),
    ensures
        extract_line(head + line + seq![CR, LF] + tail, head.len() as int) == (Step::<Seq<u8>> {
            result: Ok(line),
            cursor: (head.len() + line.len() + 2) as int,
        }),
{
    let bytes = head + line + seq![CR, LF] + tail;
    let start = head.len() as int;
    let end = start + line.len();
    assert(terminator_at(bytes, end));
    assert forall|j: int| start <= j < end implies !terminator_at(bytes, j) by {
        if terminator_at(bytes, j) {
            if j + 1 < end {
                assert(line[j - start] == bytes[j]);
                assert(line[j + 1 - start] == bytes[j + 1]);
                assert(terminator_at(line, j - start));
            }
        }
    }
    assert(is_first_terminator(bytes, start, end));
    lemma_line_before_terminator(bytes, start, line.len() as int);
    assert(bytes.subrange(start, end) =~= line);
}

/// A text that holds no terminator, framed by one, is what line extraction
/// reads as text.
pub proof fn lemma_extract_framed_text(head: Seq<u8>, text: Seq<char>, tail: Seq<u8>)
    requires
        !has_terminator(encode_utf8(text), 0),
    ensures
        extract_line_as_string(
            head + encode_utf8(text) + seq![CR, LF] + tail,
            head.len() as int,
        ) == (Step::<Seq<char>> {
            result: Ok(text),
            cursor: (head.len() + encode_utf8(text).len() + 2) as int,
        }),
{
    lemma_extract_framed_line(head, encode_utf8(text), tail);
    lemma_text_of_encoded(text);
}

/// The decimal text of an integer is ASCII and holds no terminator.
pub proof fn lemma_decimal_text_is_plain(v: int)
    ensures
        is_ascii_chars(signed_decimal_chars(v)),
        !has_terminator(encode_utf8(signed_decimal_chars(v)), 0),
{
    let text = signed_decimal_chars(v);
    let magnitude = if v < 0 {
        (-v) as nat
    } else {
        v as nat
    };
    let digits = decimal_chars(magnitude);
    lemma_decimal_chars_are_digits(magnitude);
    assert forall|i: int| 0 <= i < text.len() implies (is_digit(#[trigger] text[i]) || text[i]
        == '-') by {
        if v < 0 {
            if i > 0 {
                assert(text[i] == digits[i - 1]);
                assert(is_digit(digits[i - 1]));
            }
        } else {
            assert(is_digit(digits[i]));
        }
    }
    assert(is_ascii_chars(text));
    lemma_encode_ascii(text);
    let line = ascii_bytes(text);
    assert forall|j: int| 0 <= j implies !terminator_at(line, j) by {
        if j < line.len() {
            assert(is_digit(text[j]) || text[j] == '-');
            assert(line[j] == text[j] as u8);
        }
    }
}

/// The decimal text of an `i32`, framed by a terminator, is read as that
/// length.
pub proof fn lemma_extract_framed_length(head: Seq<u8>, v: i32, tail: Seq<u8>)
    ensures
        extract_length(
            head + encode_utf8(signed_decimal_chars(v as int)) + seq![CR, LF] + tail,
            head.len() as int,
        ) == (Step::<i32> {
            result: Ok(v),
            cursor: (head.len() + encode_utf8(signed_decimal_chars(v as int)).len() + 2) as int,
        }),
{
    lemma_decimal_text_is_plain(v as int);
    lemma_extract_framed_text(head, signed_decimal_chars(v as int), tail);
    lemma_decimal_i32_of_text(v);
}

/// A value whose bytes decode to itself. The text of a simple string holds no
/// terminator, since its line would end there. The text of a bulk string has
/// no more bytes than a length line can declare.
pub open spec fn decodable(value: Value) -> bool {
    match value {
        Value::Null => true,
        Value::SimpleString(text) => !has_terminator(encode_utf8(text), 0),
        Value::BulkString(text) => encode_utf8(text).len() <= i32::MAX,
    }
}

proof fn lemma_decode_encoded_null()
    ensures
        decode(wire_bytes(Value::Null), 0) == (Step::<Value> {
            result: Ok(Value::Null),
            cursor: wire_bytes(Value::Null).len() as int,
        }),
{
    let bytes = wire_bytes(Value::Null);
    let head = seq![BULK_STRING];
    let text = signed_decimal_chars(-1);
    assert(text =~= seq!['-', '1']) by {
        reveal_with_fuel(decimal_chars, 2);
    }
    lemma_wire_bytes(Value::Null);
    lemma_decimal_text_is_plain(-1);
    lemma_encode_ascii(text);
    assert(ascii_bytes(text) =~= seq![0x2du8, 0x31u8]);
    assert(bytes =~= head + encode_utf8(text) + seq![CR, LF] + Seq::<u8>::empty());
    lemma_extract_framed_length(head, -1i32, Seq::<u8>::empty());
    assert(bytes[0] == BULK_STRING);
}

proof fn lemma_decode_encoded_simple_string(text: Seq<char>)
    requires
        !has_terminator(encode_utf8(text), 0),
    ensures
        decode(wire_bytes(Value::SimpleString(text)), 0) == (Step::<Value> {
            result: Ok(Value::SimpleString(text)),
            cursor: wire_bytes(Value::SimpleString(text)).len() as int,
        }),
{
    let bytes = wire_bytes(Value::SimpleString(text));
    let head = seq![SIMPLE_STRING];
    lemma_wire_bytes(Value::SimpleString(text));
    assert(bytes =~= head + encode_utf8(text) + seq![CR, LF] + Seq::<u8>::empty());
    lemma_extract_framed_text(head, text, Seq::<u8>::empty());
    assert(bytes[0] == SIMPLE_STRING);
}

proof fn lemma_decode_encoded_bulk_string(text: Seq<char>)
    requires
        encode_utf8(text).len() <= i32::MAX,
    ensures
        decode(wire_bytes(Value::BulkString(text)), 0) == (Step::<Value> {
            result: Ok(Value::BulkString(text)),
            cursor: wire_bytes(Value::BulkString(text)).len() as int,
        }),
{
    let bytes = wire_bytes(Value::BulkString(text));
    let head = seq![BULK_STRING];
    let payload = encode_utf8(text);
    let n = payload.len() as i32;
    let digits = signed_decimal_chars(n as int);
    assert(digits == decimal_chars(payload.len()));
    let line = encode_utf8(digits);
    let tail = payload + seq![CR, LF];
    lemma_wire_bytes(Value::BulkString(text));
    lemma_decimal_text_is_plain(n as int);
    lemma_encode_ascii(digits);
    assert(bytes =~= head + line + seq![CR, LF] + tail);
    lemma_extract_framed_length(head, n, tail);
    assert(bytes[0] == BULK_STRING);
    let start = (1 + line.len() + 2) as int;
    assert(extract_length(bytes, 1) == (Step::<i32> { result: Ok(n), cursor: start }));
    assert(bytes.len() == start + n + 2);
    assert(bytes.subrange(start, start + n) =~= payload);
    assert(extract_bytes(bytes, start, n as int) == (Step::<Seq<u8>> {
        result: Ok(payload),
        cursor: start + n,
    }));
    lemma_text_of_encoded(text);
}

/// Decoding the bytes of a value from their start gives the value back, and
/// leaves the cursor at their end.
pub proof fn lemma_decode_encoded(value: Value)
    requires
        decodable(value),
    ensures
        decode(wire_bytes(value), 0) == (Step::<Value> {
            result: Ok(value),
            cursor: wire_bytes(value).len() as int,
        }),
{
    match value {
        Value::Null => lemma_decode_encoded_null(),
        Value::SimpleString(text) => lemma_decode_encoded_simple_string(text),
        Value::BulkString(text) => lemma_decode_encoded_bulk_string(text),
    }
}

/// No other value decodes to itself. A simple string that holds a terminator
/// is cut there, with bytes left behind the cursor; a bulk string too long for
/// a length line fails at that line.
pub proof fn lemma_decode_encoded_needs_decodable(value: Value)
    requires
        !decodable(value),
    ensures
        decode(wire_bytes(value), 0).result is Ok ==> decode(wire_bytes(value), 0).cursor
            < wire_bytes(value).len(),
        value is BulkString ==> decode(wire_bytes(value), 0).result == RESPResult::<Value>::Err(
            RESPError::ParseInt,
        ),
{
    let bytes = wire_bytes(value);
    lemma_wire_bytes(value);
    match value {
        Value::Null => {},
        Value::SimpleString(text) => {
            let line = encode_utf8(text);
            lemma_first_terminator_is_first(line, 0);
            let k = first_terminator(line, 0);
            assert(bytes[0] == SIMPLE_STRING);
            assert(terminator_at(bytes, 1 + k));
            assert forall|j: int| 1 <= j < 1 + k implies !terminator_at(bytes, j) by {
                if terminator_at(bytes, j) {
                    assert(line[j - 1] == bytes[j]);
                    assert(line[j] == bytes[j + 1]);
                    assert(terminator_at(line, j - 1));
                }
            }
            assert(is_first_terminator(bytes, 1, 1 + k));
            lemma_line_before_terminator(bytes, 1, k);
        },
        Value::BulkString(text) => {
            let payload = encode_utf8(text);
            let n = payload.len() as int;
            let digits = signed_decimal_chars(n);
            assert(digits == decimal_chars(payload.len()));
            let tail = payload + seq![CR, LF];
            lemma_decimal_text_is_plain(n);
            lemma_encode_ascii(digits);
            assert(bytes =~= seq![BULK_STRING] + encode_utf8(digits) + seq![CR, LF] + tail);
            lemma_extract_framed_text(seq![BULK_STRING], digits, tail);
            lemma_signed_decimal_of_text(n);
            assert(bytes[0] == BULK_STRING);
        },
    }
}

} // verus!
