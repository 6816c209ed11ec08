//! Integers in decimal text: the digits that stand for a number, and the
//! number that a line of text stands for.

use vstd::prelude::*;
use vstd::string::*;
use std::num::ParseIntError;

verus! {

/// The character of the decimal digit `d`, for `d` from 0 to 9.
pub open spec fn digit_char(d: int) -> char {
    (48 + d) as char
}

/// The decimal digits of `n`, most significant first and without leading
/// zeros; `0` is the one digit `0`.
pub open spec fn decimal_chars(n: nat) -> Seq<char>
    decreases n,
{
    if n < 10 {
        seq![digit_char(n as int)]
    } else {
        decimal_chars(n / 10).push(digit_char((n % 10) as int))
    }
}

/// An integer in decimal, with `-` in front where it is negative.
pub open spec fn signed_decimal_chars(v: int) -> Seq<char> {
    if v < 0 {
        seq!['-'] + decimal_chars((-v) as nat)
    } else {
        decimal_chars(v as nat)
    }
}

/// `c` is one of the characters `0` to `9`.
pub open spec fn is_digit(c: char) -> bool {
    '0' <= c && c <= '9'
}

/// The number that the digit `c` stands for.
pub open spec fn digit_value(c: char) -> int {
    c as int - 48
}

/// Every character of `s` is a decimal digit.
pub open spec fn all_digits(s: Seq<char>) -> bool {
    forall|i: int| 0 <= i < s.len() ==> is_digit(#[trigger] s[i])
}

/// The number that a sequence of decimal digits stands for.
pub open spec fn digits_value(s: Seq<char>) -> int
    decreases s.len(),
{
    if s.len() == 0 {
        0
    } else {
        10 * digits_value(s.drop_last()) + digit_value(s.last())
    }
}

/// The integer that `s` stands for in decimal: an optional sign, `+` or `-`,
/// and then one or more digits, nothing else. Leading zeros are allowed.
pub open spec fn signed_decimal(s: Seq<char>) -> Option<int> {
    if s.len() > 0 && (s[0] == '+' || s[0] == '-') {
        let digits = s.subrange(1, s.len() as int);
        if digits.len() > 0 && all_digits(digits) {
            Some(
                if s[0] == '-' {
                    -digits_value(digits)
                } else {
                    digits_value(digits)
                },
            )
        } else {
            None
        }
    } else if s.len() > 0 && all_digits(s) {
        Some(digits_value(s))
    } else {
        None
    }
}

/// The `i32` that `s` stands for in decimal, where it stands for one that fits.
pub open spec fn decimal_i32(s: Seq<char>) -> Option<i32> {
    match signed_decimal(s) {
        Some(v) => if i32::MIN <= v <= i32::MAX {
            Some(v as i32)
        } else {
            None
        },
        None => None,
    }
}

/// The decimal text of a number is one digit or more, and digits only.
pub proof fn lemma_decimal_chars_are_digits(n: nat)
    ensures
        decimal_chars(n).len() >= 1,
        all_digits(decimal_chars(n)),
    decreases n,
{
    if n >= 10 {
        lemma_decimal_chars_are_digits(n / 10);
    }
}

/// The decimal text of a number stands for that number.
pub proof fn lemma_decimal_chars_value(n: nat)
    ensures
        digits_value(decimal_chars(n)) == n,
    decreases n,
{
    let text = decimal_chars(n);
    if n < 10 {
        assert(text.drop_last() =~= Seq::<char>::empty());
        assert(digits_value(text.drop_last()) == 0);
    } else {
        lemma_decimal_chars_value(n / 10);
        assert(text.drop_last() =~= decimal_chars(n / 10));
    }
}

/// Reading the decimal text of an integer gives the integer back.
pub proof fn lemma_signed_decimal_of_text(v: int)
    ensures
        signed_decimal(signed_decimal_chars(v)) == Some(v),
{
    let text = signed_decimal_chars(v);
    if v < 0 {
        let digits = decimal_chars((-v) as nat);
        lemma_decimal_chars_are_digits((-v) as nat);
        lemma_decimal_chars_value((-v) as nat);
        assert(text.subrange(1, text.len() as int) =~= digits);
    } else {
        lemma_decimal_chars_are_digits(v as nat);
        lemma_decimal_chars_value(v as nat);
        assert(is_digit(text[0]));
    }
}

/// Reading the decimal text of an `i32` gives the number back.
pub proof fn lemma_decimal_i32_of_text(v: i32)
    ensures
        decimal_i32(signed_decimal_chars(v as int)) == Some(v),
{
    lemma_signed_decimal_of_text(v as int);
}

/// Calls `str::parse::<i32>`, which reads an optional sign followed by
/// decimal digits and fails on anything else, the empty string and a lone
/// sign included, and on a number that does not fit.
///
/// Not proved. The contract claims that the call succeeds exactly on the texts
/// that `decimal_i32` accepts, with the number that it gives.
#[verifier::external_body]
pub(crate) fn parse_i32(text: &str) -> (r: Result<i32, ParseIntError>)
    ensures
        r is Ok <==> decimal_i32(text@) is Some,
        r is Ok ==> decimal_i32(text@) == Some(r->Ok_0),
{
    text.parse::<i32>()
}

/// The text of one decimal digit.
fn digit_str(d: usize) -> (r: &'static str)
    requires
        d < 10,
    ensures
        r@ == seq![digit_char(d as int)],
{
    proof {
        reveal_strlit("0");
        reveal_strlit("1");
        reveal_strlit("2");
        reveal_strlit("3");
        reveal_strlit("4");
        reveal_strlit("5");
        reveal_strlit("6");
        reveal_strlit("7");
        reveal_strlit("8");
        reveal_strlit("9");
    }
    let r = if d == 0 {
        "0"
    } else if d == 1 {
        "1"
    } else if d == 2 {
        "2"
    } else if d == 3 {
        "3"
    } else if d == 4 {
        "4"
    } else if d == 5 {
        "5"
    } else if d == 6 {
        "6"
    } else if d == 7 {
        "7"
    } else if d == 8 {
        "8"
    } else {
        "9"
    };
    assert(r@ =~= seq![digit_char(d as int)]);
    r
}

/// Appends `n` in decimal to `out`.
pub fn append_decimal(out: &mut String, n: usize)
    ensures
        final(out)@ == old(out)@ + decimal_chars(n as nat),
    decreases n,
{
    if n >= 10 {
        append_decimal(out, n / 10);
    }
    out.append(digit_str(n % 10));
    assert(out@ =~= old(out)@ + decimal_chars(n as nat));
}

/// Appends `v` in decimal to `out`, with `-` in front where it is negative.
pub fn append_signed_decimal(out: &mut String, v: i32)
    ensures
        final(out)@ == old(out)@ + signed_decimal_chars(v as int),
{
    if v < 0 {
        proof {
            reveal_strlit("-");
        }
        out.append("-");
        let magnitude: i64 = -(v as i64);
        append_decimal(out, magnitude as usize);
        assert(out@ =~= old(out)@ + signed_decimal_chars(v as int));
    } else {
        append_decimal(out, v as usize);
    }
}

} // verus!
