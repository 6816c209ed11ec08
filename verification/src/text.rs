//! Bytes as text: UTF-8 validation and what it yields.

use vstd::prelude::*;
use vstd::utf8::{
    decode_utf8, encode_utf8, encode_utf8_decode_utf8, encode_utf8_valid_utf8, valid_utf8,
};
use std::string::FromUtf8Error;
use crate::resp_result::{result_view, RESPError, RESPResult};

verus! {

/// The text that a sequence of bytes stands for: its characters where the
/// bytes are valid UTF-8, a failure where they are not.
pub open spec fn text_of(bytes: Seq<u8>) -> RESPResult<Seq<char>> {
    if valid_utf8(bytes) {
        Ok(decode_utf8(bytes))
    } else {
        Err(RESPError::FromUtf8)
    }
}

/// UTF-8 encodes a text piece by piece: the bytes of two texts joined are the
/// bytes of the first and then those of the second.
pub proof fn lemma_encode_utf8_concat(a: Seq<char>, b: Seq<char>)
    ensures
        encode_utf8(a + b) == encode_utf8(a) + encode_utf8(b),
    decreases a.len(),
{
    if a.len() == 0 {
        assert(a + b =~= b);
        assert(encode_utf8(a) + encode_utf8(b) =~= encode_utf8(b));
    } else {
        assert((a + b).drop_first() =~= a.drop_first() + b);
        lemma_encode_utf8_concat(a.drop_first(), b);
        assert(encode_utf8(a + b) =~= encode_utf8(a) + encode_utf8(b));
    }
}

/// The bytes of a text read back as text give the text.
pub proof fn lemma_text_of_encoded(text: Seq<char>)
    ensures
        text_of(encode_utf8(text)) == RESPResult::<Seq<char>>::Ok(text),
{
    encode_utf8_valid_utf8(text);
    encode_utf8_decode_utf8(text);
}

/// Calls `String::from_utf8`, which checks that the bytes are valid UTF-8 and
/// then takes them over as a string without changing them.
///
/// Not proved. The contract claims that the call succeeds exactly on valid
/// UTF-8, and that the bytes of the string it returns are the bytes given.
#[verifier::external_body]
fn string_from_utf8(bytes: Vec<u8>) -> (r: Result<String, FromUtf8Error>)
    ensures
        r is Ok <==> valid_utf8(bytes@),
        r is Ok ==> encode_utf8(r->Ok_0@) == bytes@,
{
    String::from_utf8(bytes)
}

/// Reads bytes as text.
pub(crate) fn bytes_to_string(bytes: Vec<u8>) -> (r: RESPResult<String>)
    ensures
        result_view(r) == text_of(bytes@),
{
    match string_from_utf8(bytes) {
        Ok(text) => {
            proof {
                encode_utf8_decode_utf8(text@);
            }
            Ok(text)
        },
        Err(e) => Err(RESPError::from(e)),
    }
}

} // verus!
