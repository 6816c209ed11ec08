//! Decoding a buffer into protocol values, and encoding them back.

use vstd::prelude::*;
use vstd::slice::{slice_subrange, slice_to_vec};
use vstd::string::*;
use crate::resp_result::{result_view, RESPError, RESPLength, RESPResult};
use crate::text::bytes_to_string;
use crate::decimal::{append_decimal, parse_i32};
use crate::roundtrip::{decodable, lemma_decode_encoded};
use crate::wire::{
    decode, decode_bulk_string, decode_simple_string, extract_bytes, extract_length,
    extract_line, extract_line_as_string, has_terminator, is_first_terminator,
    lemma_first_terminator_unique, terminator_at, wire_bytes, wire_text, Step, Value,
    BULK_STRING, CR, LF, SIMPLE_STRING,
};

verus! {

/// A protocol value.
#[derive(Debug, PartialEq)]
pub enum RESP {
    Null,
    SimpleString(String),
    BulkString(String),
}

impl View for RESP {
    type V = Value;

    open spec fn view(&self) -> Value {
        match *self {
            RESP::Null => Value::Null,
            RESP::SimpleString(text) => Value::SimpleString(text@),
            RESP::BulkString(text) => Value::BulkString(text@),
        }
    }
}

impl RESP {
    /// The value as text in its wire form.
    pub fn to_string(&self) -> (s: String)
        ensures
            s@ == wire_text(self@),
    {
        match self {
            RESP::Null => {
                proof {
                    reveal_strlit("$-1\r\n");
                }
                let s = String::from_str("$-1\r\n");
                assert(s@ =~= wire_text(self@));
                s
            },
            RESP::SimpleString(data) => {
                proof {
                    reveal_strlit("+");
                    reveal_strlit("\r\n");
                }
                let mut s = String::from_str("+");
                s.append(data.as_str());
                s.append("\r\n");
                assert(s@ =~= wire_text(self@));
                s
            },
            RESP::BulkString(data) => {
                proof {
                    reveal_strlit("$");
                    reveal_strlit("\r\n");
                }
                let mut s = String::from_str("$");
                append_decimal(&mut s, data.as_str().as_bytes().len());
                s.append("\r\n");
                s.append(data.as_str());
                s.append("\r\n");
                assert(s@ =~= wire_text(self@));
                s
            },
        }
    }

    /// The value as bytes in its wire form. Decoding them gives the value
    /// back, unless it is a simple string that holds a terminator or a bulk
    /// string too long for a length line.
    pub fn encode(&self) -> (bytes: Vec<u8>)
        ensures
            bytes@ == wire_bytes(self@),
            decodable(self@) ==> decode(bytes@, 0) == (Step::<Value> {
                result: Ok(self@),
                cursor: bytes@.len() as int,
            }),
    {
        let text = self.to_string();
        proof {
            if decodable(self@) {
                lemma_decode_encoded(self@);
            }
        }
        text.as_str().as_bytes_vec()
    }
}

/// The decoders that the dispatcher chooses among.
#[derive(Debug, Clone, Copy, PartialEq, Eq, Structural)]
pub enum Parser {
    SimpleString,
    BulkString,
}

/// Chooses the decoder for the byte at the cursor, and leaves the cursor where
/// it is.
pub fn parse_router(buffer: &[u8], index: &mut usize) -> (r: Option<Parser>)
    requires
        *old(index) < buffer@.len(),
    ensures
        *final(index) == *old(index),
        buffer@[*old(index) as int] == SIMPLE_STRING ==> r == Some(Parser::SimpleString),
        buffer@[*old(index) as int] == BULK_STRING ==> r == Some(Parser::BulkString),
        buffer@[*old(index) as int] != SIMPLE_STRING && buffer@[*old(index) as int]
            != BULK_STRING ==> r is None,
{
    let sigil = buffer[*index];
    if sigil == SIMPLE_STRING {
        Some(Parser::SimpleString)
    } else if sigil == BULK_STRING {
        Some(Parser::BulkString)
    } else {
        None
    }
}

/// Decodes the value that starts at the cursor.
///
/// The buffer holds a byte at the cursor, and is no longer than a slice of
/// bytes can be.
pub fn bytes_to_resp(buffer: &[u8], index: &mut usize) -> (r: RESPResult<RESP>)
    requires
        *old(index) < buffer@.len(),
        buffer@.len() <= isize::MAX,
    ensures
        result_view(r) == decode(buffer@, *old(index) as int).result,
        *final(index) == decode(buffer@, *old(index) as int).cursor,
        buffer@[*old(index) as int] != SIMPLE_STRING && buffer@[*old(index) as int]
            != BULK_STRING ==> r == RESPResult::<RESP>::Err(RESPError::Unknown) && *final(index)
            == *old(index),
        r is Ok ==> *final(index) > *old(index),
        *final(index) >= *old(index),
{
    match parse_router(buffer, index) {
        Some(Parser::SimpleString) => parse_simple_string(buffer, index),
        Some(Parser::BulkString) => parse_bulk_string(buffer, index),
        None => Err(RESPError::Unknown),
    }
}

/// Decodes a simple string: the sigil `+`, then one line of text.
pub fn parse_simple_string(buffer: &[u8], index: &mut usize) -> (r: RESPResult<RESP>)
    requires
        *old(index) < buffer@.len(),
    ensures
        result_view(r) == decode_simple_string(buffer@, *old(index) as int).result,
        *final(index) == decode_simple_string(buffer@, *old(index) as int).cursor,
        buffer@[*old(index) as int] != SIMPLE_STRING ==> r == RESPResult::<RESP>::Err(
            RESPError::WrongType,
        ) && *final(index) == *old(index),
        r is Ok ==> *old(index) < *final(index) <= buffer@.len(),
        *final(index) >= *old(index),
{
    match resp_remove_type('+', buffer, index) {
        Ok(()) => {},
        Err(e) => {
            return Err(e);
        },
    }
    match binary_extract_line_as_string(buffer, index) {
        Ok(line) => Ok(RESP::SimpleString(line)),
        Err(e) => Err(e),
    }
}

/// Extracts the line that starts at the cursor and reads it as text.
pub fn binary_extract_line_as_string(buffer: &[u8], index: &mut usize) -> (r: RESPResult<String>)
    ensures
        result_view(r) == extract_line_as_string(buffer@, *old(index) as int).result,
        *final(index) == extract_line_as_string(buffer@, *old(index) as int).cursor,
        r is Ok ==> *old(index) + 2 <= *final(index) <= buffer@.len(),
        *final(index) >= *old(index),
{
    match binary_extract_line(buffer, index) {
        Ok(line) => bytes_to_string(line),
        Err(e) => Err(e),
    }
}

/// Checks that the byte at the cursor is the sigil `value`, and steps over it.
/// On another byte the cursor stays.
pub fn resp_remove_type(value: char, buffer: &[u8], index: &mut usize) -> (r: RESPResult<()>)
    requires
        *old(index) < buffer@.len(),
    ensures
        buffer@[*old(index) as int] == value as u8 ==> r == RESPResult::<()>::Ok(())
            && *final(index) == *old(index) + 1,
        buffer@[*old(index) as int] != value as u8 ==> r == RESPResult::<()>::Err(
            RESPError::WrongType,
        ) && *final(index) == *old(index),
{
    let sigil: u8 = #[verifier::truncate] (value as u8);
    if buffer[*index] != sigil {
        Err(RESPError::WrongType)
    } else {
        *index += 1;
        Ok(())
    }
}

/// Decodes a bulk string or null: the sigil `$`, a length line and, unless
/// the length is `-1`, that many bytes of text and two bytes more.
///
/// The buffer holds a byte at the cursor, and is no longer than a slice of
/// bytes can be.
pub fn parse_bulk_string(buffer: &[u8], index: &mut usize) -> (r: RESPResult<RESP>)
    requires
        *old(index) < buffer@.len(),
        buffer@.len() <= isize::MAX,
    ensures
        result_view(r) == decode_bulk_string(buffer@, *old(index) as int).result,
        *final(index) == decode_bulk_string(buffer@, *old(index) as int).cursor,
        buffer@[*old(index) as int] != BULK_STRING ==> r == RESPResult::<RESP>::Err(
            RESPError::WrongType,
        ) && *final(index) == *old(index),
        r is Ok ==> *final(index) > *old(index),
        *final(index) >= *old(index),
{
    match resp_remove_type('$', buffer, index) {
        Ok(()) => {},
        Err(e) => {
            return Err(e);
        },
    }
    let length = match resp_extract_length(buffer, index) {
        Ok(length) => length,
        Err(e) => {
            return Err(e);
        },
    };

    if length == -1 {
        return Ok(RESP::Null);
    }
    if length < -1 {
        return Err(RESPError::IncorrectLength(length));
    }
    let bytes = match binary_extract_bytes(buffer, index, length as usize) {
        Ok(bytes) => bytes,
        Err(e) => {
            return Err(e);
        },
    };
    let data = match bytes_to_string(bytes) {
        Ok(data) => data,
        Err(e) => {
            return Err(e);
        },
    };

    *index += 2;
    Ok(RESP::BulkString(data))
}

/// Extracts the next `length` bytes and steps over them. Where fewer remain,
/// the cursor stays, and the offset in the error is the cursor plus the length
/// of the buffer.
///
/// That offset has to fit `usize`.
pub fn binary_extract_bytes(buffer: &[u8], index: &mut usize, length: usize) -> (r: RESPResult<
    Vec<u8>,
>)
    requires
        *old(index) + buffer@.len() <= usize::MAX,
    ensures
        result_view(r) == extract_bytes(buffer@, *old(index) as int, length as int).result,
        *final(index) == extract_bytes(buffer@, *old(index) as int, length as int).cursor,
{
    let len = buffer.len();
    let start = *index;
    if start > len || length > len - start {
        return Err(RESPError::OutOfBounds(start + len));
    }
    let extraction = slice_to_vec(slice_subrange(buffer, start, start + length));
    *index = start + length;
    Ok(extraction)
}

/// Extracts the line that starts at the cursor and reads it as a length.
pub fn resp_extract_length(buffer: &[u8], index: &mut usize) -> (r: RESPResult<RESPLength>)
    ensures
        r == extract_length(buffer@, *old(index) as int).result,
        *final(index) == extract_length(buffer@, *old(index) as int).cursor,
        r is Ok ==> *old(index) + 2 <= *final(index) <= buffer@.len(),
        *final(index) >= *old(index),
{
    let line = match binary_extract_line_as_string(buffer, index) {
        Ok(line) => line,
        Err(e) => {
            return Err(e);
        },
    };
    match parse_i32(line.as_str()) {
        Ok(length) => Ok(length),
        Err(e) => Err(RESPError::from(e)),
    }
}

/// Extracts the line that starts at the cursor: the bytes up to the next
/// terminator. The cursor is left behind the terminator, or where the scan
/// gave up.
///
/// What ends a line is a whole terminator, CR directly followed by LF, and the
/// first one from the cursor on. With fewer than two bytes left there is none.
pub fn binary_extract_line(buffer: &[u8], index: &mut usize) -> (r: RESPResult<Vec<u8>>)
    ensures
        result_view(r) == extract_line(buffer@, *old(index) as int).result,
        *final(index) == extract_line(buffer@, *old(index) as int).cursor,
        r is Ok <==> *old(index) < buffer@.len() && has_terminator(buffer@, *old(index) as int),
        r is Ok ==> is_first_terminator(buffer@, *old(index) as int, *final(index) - 2),
        r is Ok ==> *old(index) + 2 <= *final(index) <= buffer@.len(),
        *final(index) >= *old(index),
        r is Err ==> r == RESPResult::<Vec<u8>>::Err(RESPError::OutOfBounds(*final(index))),
        *old(index) <= buffer@.len() < *old(index) + 2 ==> r is Err && *final(index)
            == buffer@.len(),
        forall|k: int| #[trigger]
            is_first_terminator(buffer@, *old(index) as int, *old(index) + k) ==> r is Ok
                && r->Ok_0@ == buffer@.subrange(*old(index) as int, *old(index) + k)
                && *final(index) == *old(index) + k + 2,
{
    let len = buffer.len();
    let start = *index;
    if start >= len {
        return Err(RESPError::OutOfBounds(start));
    }
    let mut pos = start;
    while pos + 1 < len
        invariant
            len == buffer@.len(),
            start <= pos < len,
            *index == start,
            start == *old(index),
            forall|j: int| start <= j < pos ==> !terminator_at(buffer@, j),
        decreases len - pos,
    {
        if buffer[pos] == CR && buffer[pos + 1] == LF {
            proof {
                assert(is_first_terminator(buffer@, start as int, pos as int));
                lemma_first_terminator_unique(buffer@, start as int, pos as int);
            }
            let line = slice_to_vec(slice_subrange(buffer, start, pos));
            *index = pos + 2;
            return Ok(line);
        }
        pos += 1;
    }
    proof {
        assert forall|j: int| start <= j implies !terminator_at(buffer@, j) by {}
    }
    *index = len;
    Err(RESPError::OutOfBounds(len))
}

} // verus!
