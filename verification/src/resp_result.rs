//! The closed set of decoding failures.

use vstd::prelude::*;
use vstd::string::*;
use crate::decimal::{append_decimal, append_signed_decimal, decimal_chars, signed_decimal_chars};
use std::num::ParseIntError;
use std::string::FromUtf8Error;

verus! {

/// The error that `String::from_utf8` reports. Nothing is known of its contents.
#[verifier::external_type_specification]
#[verifier::external_body]
pub struct ExFromUtf8Error(FromUtf8Error);

/// The error that `str::parse` reports for an integer. Nothing is known of its contents.
#[verifier::external_type_specification]
#[verifier::external_body]
pub struct ExParseIntError(ParseIntError);

/// The type of a declared bulk-string length.
pub type RESPLength = i32;

/// Why a decoding step gave up.
#[derive(Debug, Clone, Copy, PartialEq, Eq, Structural)]
pub enum RESPError {
    /// The bytes of a line or payload are not valid UTF-8.
    FromUtf8,
    /// The scan ran past the bytes that are there; the offset says where it stopped.
    OutOfBounds(usize),
    /// The byte at the cursor is not the sigil that the decoder expects.
    WrongType,
    /// A declared length below `-1`.
    IncorrectLength(RESPLength),
    /// The length line is not a decimal integer that fits `RESPLength`.
    ParseInt,
    /// The byte at the cursor is no known sigil.
    Unknown,
}

/// What a decoding step returns.
pub type RESPResult<T> = Result<T, RESPError>;

impl RESPError {
    /// The message that describes the error to a reader.
    pub open spec fn message(self) -> Seq<char> {
        match self {
            RESPError::OutOfBounds(index) => "Out of bounds at index "@ + decimal_chars(
                index as nat,
            ),
            RESPError::FromUtf8 => "Cannot convert from UTF-8"@,
            RESPError::WrongType => "Wrong prefix for RESP type"@,
            RESPError::IncorrectLength(length) => "Incorrect legth "@ + signed_decimal_chars(
                length as int,
            ),
            RESPError::ParseInt => "Cannot parse string into integer"@,
            RESPError::Unknown => "Unknown format for RESP string"@,
        }
    }

    /// Describes the error in words.
    pub fn to_string(&self) -> (s: String)
        ensures
            s@ == self.message(),
    {
        match self {
            RESPError::OutOfBounds(index) => {
                let mut s = String::from_str("Out of bounds at index ");
                append_decimal(&mut s, *index);
                s
            },
            RESPError::FromUtf8 => String::from_str("Cannot convert from UTF-8"),
            RESPError::WrongType => String::from_str("Wrong prefix for RESP type"),
            RESPError::IncorrectLength(length) => {
                let mut s = String::from_str("Incorrect legth ");
                append_signed_decimal(&mut s, *length);
                s
            },
            RESPError::ParseInt => String::from_str("Cannot parse string into integer"),
            RESPError::Unknown => String::from_str("Unknown format for RESP string"),
        }
    }
}

/// A result as the contracts see it: the value by its view, the error as it is.
pub open spec fn result_view<T: View>(r: RESPResult<T>) -> RESPResult<T::V> {
    match r {
        Ok(v) => Ok(v@),
        Err(e) => Err(e),
    }
}

impl From<FromUtf8Error> for RESPError {
    fn from(_err: FromUtf8Error) -> (e: Self) {
        RESPError::FromUtf8
    }
}

impl vstd::std_specs::convert::FromSpecImpl<FromUtf8Error> for RESPError {
    open spec fn obeys_from_spec() -> bool {
        true
    }

    open spec fn from_spec(_err: FromUtf8Error) -> Self {
        RESPError::FromUtf8
    }
}

impl From<ParseIntError> for RESPError {
    fn from(_err: ParseIntError) -> (e: Self) {
        RESPError::ParseInt
    }
}

impl vstd::std_specs::convert::FromSpecImpl<ParseIntError> for RESPError {
    open spec fn obeys_from_spec() -> bool {
        true
    }

    open spec fn from_spec(_err: ParseIntError) -> Self {
        RESPError::ParseInt
    }
}

} // verus!
