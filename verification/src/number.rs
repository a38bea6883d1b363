//! The grammar of decimal floating-point literals, and a recogniser for it.
//!
//! ```text
//! Literal  ::= Sign? Mantissa Exponent?
//! Mantissa ::= Digit+ | Digit+ '.' Digit* | Digit* '.' Digit+
//! Exponent ::= ('e' | 'E') Sign? Digit+
//! Sign     ::= '+' | '-'
//! Digit    ::= '0' ..= '9'
//! ```
//!
//! This is the text that the standard conversion from a string to a 64-bit
//! float accepts, apart from the spellings of infinity and NaN.

use vstd::prelude::*;
use vstd::slice::slice_subrange;
use crate::ascii::{DIGIT_NINE, DIGIT_ZERO, DOT, LOWER_E, MINUS, PLUS, UPPER_E};

verus! {

/// `b` is an ASCII decimal digit.
pub open spec fn is_digit(b: u8) -> bool {
    DIGIT_ZERO <= b && b <= DIGIT_NINE
}

/// `b` is `+` or `-`.
pub open spec fn is_sign(b: u8) -> bool {
    b == PLUS || b == MINUS
}

/// `b` is `e` or `E`.
pub open spec fn is_exponent_mark(b: u8) -> bool {
    b == LOWER_E || b == UPPER_E
}

/// `b` may occur inside a numeric lexeme: a digit, `.`, `e`, `E`, `+` or `-`.
pub open spec fn is_number_byte(b: u8) -> bool {
    is_digit(b) || b == DOT || is_exponent_mark(b) || is_sign(b)
}

/// The number of consecutive digits of `s` that start at index `from`.
pub open spec fn digit_run(s: Seq<u8>, from: int) -> nat
    decreases s.len() - from,
{
    if 0 <= from < s.len() && is_digit(s[from]) {
        1 + digit_run(s, from + 1)
    } else {
        0
    }
}

/// The length of the optional sign at index `at` of `s`: 1 or 0.
pub open spec fn sign_len(s: Seq<u8>, at: int) -> nat {
    if 0 <= at < s.len() && is_sign(s[at]) {
        1
    } else {
        0
    }
}

/// From index `at` to its end, `s` is an exponent: a mark, an optional sign
/// and at least one digit.
pub open spec fn is_exponent(s: Seq<u8>, at: int) -> bool {
    &&& 0 <= at < s.len()
    &&& is_exponent_mark(s[at])
    &&& digit_run(s, at + 1 + sign_len(s, at + 1)) > 0
    &&& at + 1 + sign_len(s, at + 1) + digit_run(s, at + 1 + sign_len(s, at + 1)) == s.len()
}

/// The whole of `s` is a decimal floating-point literal.
pub open spec fn is_float_literal(s: Seq<u8>) -> bool {
    let int_start = sign_len(s, 0) as int;
    let int_digits = digit_run(s, int_start);
    let dot = int_start + int_digits;
    let has_dot = dot < s.len() && s[dot] == DOT;
    let frac_digits = if has_dot {
        digit_run(s, dot + 1)
    } else {
        0
    };
    let mantissa_end = if has_dot {
        dot + 1 + frac_digits
    } else {
        dot
    };
    &&& int_digits + frac_digits > 0
    &&& (mantissa_end == s.len() || is_exponent(s, mantissa_end))
}

/// Whether `b` is an ASCII decimal digit.
pub fn byte_is_digit(b: u8) -> (r: bool)
    ensures
        r == is_digit(b),
{
    DIGIT_ZERO <= b && b <= DIGIT_NINE
}

/// Whether `b` is `+` or `-`.
pub fn byte_is_sign(b: u8) -> (r: bool)
    ensures
        r == is_sign(b),
{
    b == PLUS || b == MINUS
}

/// Whether `b` may occur inside a numeric lexeme.
pub fn byte_is_number_byte(b: u8) -> (r: bool)
    ensures
        r == is_number_byte(b),
{
    byte_is_digit(b) || b == DOT || b == LOWER_E || b == UPPER_E || byte_is_sign(b)
}

/// Counts the digits of `bytes` that start at `from`.
pub fn count_digits(bytes: &[u8], from: usize) -> (n: usize)
    requires
        from <= bytes.len(),
    ensures
        n == digit_run(bytes@, from as int),
        from + n <= bytes.len(),
{
    let mut i: usize = from;
    while i < bytes.len() && byte_is_digit(bytes[i])
        invariant
            from <= i <= bytes.len(),
            digit_run(bytes@, from as int) == (i - from) + digit_run(bytes@, i as int),
        decreases bytes.len() - i,
    {
        i += 1;
    }
    i - from
}

/// Decides whether the whole of `bytes` is a decimal floating-point literal.
pub fn check_float_literal(bytes: &[u8]) -> (ok: bool)
    ensures
        ok == is_float_literal(bytes@),
{
    let len: usize = bytes.len();
    let int_start: usize = if len > 0 && byte_is_sign(bytes[0]) {
        1
    } else {
        0
    };
    let int_digits: usize = count_digits(bytes, int_start);
    let dot: usize = int_start + int_digits;
    let has_dot: bool = dot < len && bytes[dot] == DOT;
    let frac_digits: usize = if has_dot {
        count_digits(bytes, dot + 1)
    } else {
        0
    };
    let mantissa_end: usize = if has_dot {
        dot + 1 + frac_digits
    } else {
        dot
    };
    if int_digits + frac_digits == 0 {
        return false;
    }
    if mantissa_end == len {
        return true;
    }
    if !(bytes[mantissa_end] == LOWER_E || bytes[mantissa_end] == UPPER_E) {
        return false;
    }
    let exp_start: usize = if mantissa_end + 1 < len && byte_is_sign(bytes[mantissa_end + 1]) {
        mantissa_end + 2
    } else {
        mantissa_end + 1
    };
    let exp_digits: usize = count_digits(bytes, exp_start);
    exp_digits > 0 && exp_start + exp_digits == len
}

/// Decides whether `bytes[start..end]` is a decimal floating-point literal.
pub fn check_float_literal_in(bytes: &[u8], start: usize, end: usize) -> (ok: bool)
    requires
        start <= end <= bytes.len(),
    ensures
        ok == is_float_literal(bytes@.subrange(start as int, end as int)),
{
    check_float_literal(slice_subrange(bytes, start, end))
}

} // verus!
