//! The lexer: one pass from bytes to tokens.
//!
//! [`lex`] says, as a function on byte sequences, which tokens a text has;
//! [`tokenize`] computes them.

use vstd::prelude::*;
use vstd::slice::slice_subrange;
use crate::ascii::{
    BACKSLASH, BLANK, CARRIAGE_RETURN, COLON, COMMA, DIGIT_NINE, DIGIT_ZERO, LEFT_BRACE,
    LEFT_BRACKET, LINE_FEED, LOWER_F, LOWER_N, LOWER_T, MINUS, QUOTE, RIGHT_BRACE, RIGHT_BRACKET,
    TAB,
};
use crate::number::{
    byte_is_number_byte, check_float_literal_in, is_digit, is_float_literal, is_number_byte,
};
use crate::text::{chars_of, string_of_bytes};
use crate::token::{tokens_view, Token, TokenView};
use crate::writable::{lemma_lexed_tokens_writable, tokens_writable};

verus! {

/// Why a text has no token sequence.
#[derive(Debug, Clone, Copy, PartialEq, Eq)]
pub enum LexError {
    /// A token cannot start with this byte.
    InvalidCharacter(u8),
    /// A run of number bytes is not a decimal floating-point literal.
    MalformedNumber,
    /// The text ends inside a string literal or a keyword.
    UnexpectedEof,
}

/// `b` is a space, a tab, a carriage return or a line feed.
pub open spec fn is_whitespace(b: u8) -> bool {
    b == BLANK || b == TAB || b == CARRIAGE_RETURN || b == LINE_FEED
}

/// `b` can start a numeric literal: a digit or `-`.
pub open spec fn starts_number(b: u8) -> bool {
    is_digit(b) || b == MINUS
}

/// Puts `head` in front of a scanned string `tail` that spans `span` bytes more.
pub open spec fn extend_string(head: Seq<char>, span: nat, tail: Option<(Seq<char>, nat)>) -> Option<
    (Seq<char>, nat),
> {
    match tail {
        Some((text, n)) => Some((head + text, n + span)),
        None => None,
    }
}

/// Scans a string literal whose opening quote has been consumed: `s` starts
/// at its first content byte. Gives the text of the literal and the number of
/// bytes up to and including the closing quote, or `None` where `s` ends
/// before an unescaped quote.
///
/// A backslash is dropped and the byte behind it is taken as it stands,
/// whatever it is.
pub open spec fn scan_string(s: Seq<u8>) -> Option<(Seq<char>, nat)>
    decreases s.len(),
{
    if s.len() == 0 {
        None
    } else if s[0] == QUOTE {
        Some((Seq::empty(), 1))
    } else if s[0] == BACKSLASH {
        if s.len() < 2 {
            None
        } else {
            extend_string(seq![s[1] as char], 2, scan_string(s.skip(2)))
        }
    } else {
        extend_string(seq![s[0] as char], 1, scan_string(s.skip(1)))
    }
}

/// The number of number bytes that `s` starts with.
pub open spec fn number_len(s: Seq<u8>) -> nat
    decreases s.len(),
{
    if s.len() > 0 && is_number_byte(s[0]) {
        1 + number_len(s.skip(1))
    } else {
        0
    }
}

/// A keyword of `len` bytes at the start of `s`: only its first byte was
/// looked at, the others are taken unseen.
pub open spec fn scan_keyword(s: Seq<u8>, token: TokenView, len: nat) -> Result<
    (TokenView, nat),
    LexError,
> {
    if s.len() >= len {
        Ok((token, len))
    } else {
        Err(LexError::UnexpectedEof)
    }
}

/// The first token of the non-empty text `s` and the number of bytes it spans.
pub open spec fn scan_token(s: Seq<u8>) -> Result<(TokenView, nat), LexError>
    recommends
        s.len() > 0,
{
    let b = s[0];
    if b == LEFT_BRACE {
        Ok((TokenView::LeftBrace, 1))
    } else if b == RIGHT_BRACE {
        Ok((TokenView::RightBrace, 1))
    } else if b == LEFT_BRACKET {
        Ok((TokenView::LeftBracket, 1))
    } else if b == RIGHT_BRACKET {
        Ok((TokenView::RightBracket, 1))
    } else if b == COMMA {
        Ok((TokenView::Comma, 1))
    } else if b == COLON {
        Ok((TokenView::Colon, 1))
    } else if is_whitespace(b) {
        Ok((TokenView::Space, 1))
    } else if b == QUOTE {
        match scan_string(s.skip(1)) {
            Some((text, n)) => Ok((TokenView::String(text), n + 1)),
            None => Err(LexError::UnexpectedEof),
        }
    } else if starts_number(b) {
        let lexeme = s.take(number_len(s) as int);
        if is_float_literal(lexeme) {
            Ok((TokenView::Number(chars_of(lexeme)), number_len(s)))
        } else {
            Err(LexError::MalformedNumber)
        }
    } else if b == LOWER_T {
        scan_keyword(s, TokenView::Boolean(true), 4)
    } else if b == LOWER_F {
        scan_keyword(s, TokenView::Boolean(false), 5)
    } else if b == LOWER_N {
        scan_keyword(s, TokenView::Null, 4)
    } else {
        Err(LexError::InvalidCharacter(b))
    }
}

/// Puts the items `head` in front of the outcome `tail`: an error stays.
pub open spec fn prepend<T, E>(head: Seq<T>, tail: Result<Seq<T>, E>) -> Result<Seq<T>, E> {
    match tail {
        Ok(items) => Ok(head + items),
        Err(e) => Err(e),
    }
}

/// The tokens of the text `s`, in source order, or the first error met when
/// reading it from left to right.
pub open spec fn lex(s: Seq<u8>) -> Result<Seq<TokenView>, LexError>
    decreases s.len(),
    via lex_decreases
{
    if s.len() == 0 {
        Ok(Seq::empty())
    } else {
        match scan_token(s) {
            Ok((token, n)) => prepend(seq![token], lex(s.skip(n as int))),
            Err(e) => Err(e),
        }
    }
}

#[via_fn]
proof fn lex_decreases(s: Seq<u8>) {
    if s.len() > 0 {
        lemma_scan_token_span(s);
    }
}

/// A scanned string literal spans at least its closing quote and stays
/// inside the text.
pub proof fn lemma_scan_string_span(s: Seq<u8>)
    ensures
        match scan_string(s) {
            Some((_, n)) => 0 < n <= s.len(),
            None => true,
        },
    decreases s.len(),
{
    if s.len() == 0 || s[0] == QUOTE {
    } else if s[0] == BACKSLASH {
        if s.len() >= 2 {
            lemma_scan_string_span(s.skip(2));
        }
    } else {
        lemma_scan_string_span(s.skip(1));
    }
}

/// A run of number bytes stays inside the text.
pub proof fn lemma_number_len_bound(s: Seq<u8>)
    ensures
        number_len(s) <= s.len(),
    decreases s.len(),
{
    if s.len() > 0 && is_number_byte(s[0]) {
        lemma_number_len_bound(s.skip(1));
    }
}

/// Every token spans at least one byte and stays inside the text.
pub proof fn lemma_scan_token_span(s: Seq<u8>)
    requires
        s.len() > 0,
    ensures
        match scan_token(s) {
            Ok((_, n)) => 0 < n <= s.len(),
            Err(_) => true,
        },
{
    lemma_scan_string_span(s.skip(1));
    lemma_number_len_bound(s);
}

/// Putting items in front twice is putting their concatenation in front.
pub proof fn lemma_prepend_twice<T, E>(a: Seq<T>, b: Seq<T>, tail: Result<Seq<T>, E>)
    ensures
        prepend(a, prepend(b, tail)) == prepend(a + b, tail),
{
    match tail {
        Ok(items) => {
            assert(a + (b + items) =~= (a + b) + items);
        },
        Err(_) => {},
    }
}

/// Finds where the run of number bytes that starts at `start` ends.
fn number_end(bytes: &[u8], start: usize) -> (end: usize)
    requires
        start <= bytes.len(),
    ensures
        start <= end <= bytes.len(),
        end - start == number_len(bytes@.skip(start as int)),
{
    let mut k: usize = start;
    while k < bytes.len() && byte_is_number_byte(bytes[k])
        invariant
            start <= k <= bytes.len(),
            number_len(bytes@.skip(start as int)) == (k - start) + number_len(
                bytes@.skip(k as int),
            ),
        decreases bytes.len() - k,
    {
        assert(bytes@.skip(k as int).skip(1) =~= bytes@.skip(k + 1));
        k += 1;
    }
    k
}

/// Reads a string literal whose opening quote stands just before `start`.
/// Gives its text and the index behind its closing quote.
fn read_string(bytes: &[u8], start: usize) -> (r: Option<(String, usize)>)
    requires
        start <= bytes.len(),
    ensures
        match r {
            Some((text, end)) => start < end <= bytes.len() && scan_string(
                bytes@.skip(start as int),
            ) == Some((text@, (end - start) as nat)),
            None => scan_string(bytes@.skip(start as int)) is None,
        },
{
    let mut text = String::new();
    let mut k: usize = start;
    while k < bytes.len()
        invariant
            start <= k <= bytes.len(),
            scan_string(bytes@.skip(start as int)) == extend_string(
                text@,
                (k - start) as nat,
                scan_string(bytes@.skip(k as int)),
            ),
        decreases bytes.len() - k,
    {
        let ghost before = text@;
        let ghost rest = bytes@.skip(k as int);
        let b = bytes[k];
        if b == QUOTE {
            assert(before + Seq::<char>::empty() =~= before);
            return Some((text, k + 1));
        }
        if b == BACKSLASH {
            if bytes.len() - k < 2 {
                return None;
            }
            text.push(bytes[k + 1] as char);
            proof {
                assert(rest.skip(2) =~= bytes@.skip(k + 2));
                let tail = scan_string(rest.skip(2));
                if let Some((t, n)) = tail {
                    assert(before + (seq![rest[1] as char] + t) =~= before.push(rest[1] as char)
                        + t);
                }
            }
            k += 2;
        } else {
            text.push(b as char);
            proof {
                assert(rest.skip(1) =~= bytes@.skip(k + 1));
                let tail = scan_string(rest.skip(1));
                if let Some((t, n)) = tail {
                    assert(before + (seq![rest[0] as char] + t) =~= before.push(rest[0] as char)
                        + t);
                }
            }
            k += 1;
        }
    }
    None
}

/// Reads the token that starts at `start`. Gives it with the index behind it.
fn read_token(bytes: &[u8], start: usize) -> (r: Result<(Token, usize), LexError>)
    requires
        start < bytes.len(),
    ensures
        match r {
            Ok((token, end)) => start < end <= bytes.len() && scan_token(
                bytes@.skip(start as int),
            ) == Ok::<_, LexError>((token@, (end - start) as nat)),
            Err(e) => scan_token(bytes@.skip(start as int)) == Err::<(TokenView, nat), _>(e),
        },
{
    let ghost s = bytes@.skip(start as int);
    let b = bytes[start];
    if b == LEFT_BRACE {
        Ok((Token::LeftBrace, start + 1))
    } else if b == RIGHT_BRACE {
        Ok((Token::RightBrace, start + 1))
    } else if b == LEFT_BRACKET {
        Ok((Token::LeftBracket, start + 1))
    } else if b == RIGHT_BRACKET {
        Ok((Token::RightBracket, start + 1))
    } else if b == COMMA {
        Ok((Token::Comma, start + 1))
    } else if b == COLON {
        Ok((Token::Colon, start + 1))
    } else if b == BLANK || b == TAB || b == CARRIAGE_RETURN || b == LINE_FEED {
        Ok((Token::Space, start + 1))
    } else if b == QUOTE {
        assert(s.skip(1) =~= bytes@.skip(start + 1));
        match read_string(bytes, start + 1) {
            Some((text, end)) => Ok((Token::String(text), end)),
            None => Err(LexError::UnexpectedEof),
        }
    } else if (DIGIT_ZERO <= b && b <= DIGIT_NINE) || b == MINUS {
        let end = number_end(bytes, start);
        assert(s.take(number_len(s) as int) =~= bytes@.subrange(start as int, end as int));
        if check_float_literal_in(bytes, start, end) {
            let text = string_of_bytes(slice_subrange(bytes, start, end));
            assert(end > start);
            Ok((Token::Number(text), end))
        } else {
            Err(LexError::MalformedNumber)
        }
    } else if b == LOWER_T {
        if bytes.len() - start >= 4 {
            Ok((Token::Boolean(true), start + 4))
        } else {
            Err(LexError::UnexpectedEof)
        }
    } else if b == LOWER_F {
        if bytes.len() - start >= 5 {
            Ok((Token::Boolean(false), start + 5))
        } else {
            Err(LexError::UnexpectedEof)
        }
    } else if b == LOWER_N {
        if bytes.len() - start >= 4 {
            Ok((Token::Null, start + 4))
        } else {
            Err(LexError::UnexpectedEof)
        }
    } else {
        Err(LexError::InvalidCharacter(b))
    }
}

/// Splits the text `bytes` into its tokens, in source order.
///
/// Succeeds exactly where [`lex`] gives a token sequence, and returns that
/// sequence; fails with the error that [`lex`] gives otherwise. Every
/// string token that it returns holds a byte text, and every number token
/// the text of a decimal floating-point literal.
pub fn tokenize(bytes: &[u8]) -> (result: Result<Vec<Token>, LexError>)
    ensures
        match result {
            Ok(tokens) => lex(bytes@) == Ok::<_, LexError>(tokens_view(tokens@))
                && tokens_writable(tokens_view(tokens@)),
            Err(e) => lex(bytes@) == Err::<Seq<TokenView>, _>(e),
        },
{
    proof {
        lemma_lexed_tokens_writable(bytes@);
    }
    let mut tokens: Vec<Token> = Vec::new();
    let mut i: usize = 0;
    assert(bytes@.skip(0) =~= bytes@);
    assert(tokens_view(tokens@) =~= Seq::empty());
    proof {
        lemma_prepend_empty(lex(bytes@));
    }
    while i < bytes.len()
        invariant
            i <= bytes.len(),
            lex(bytes@) == prepend(tokens_view(tokens@), lex(bytes@.skip(i as int))),
        decreases bytes.len() - i,
    {
        let ghost s = bytes@.skip(i as int);
        let ghost before = tokens_view(tokens@);
        match read_token(bytes, i) {
            Ok((token, end)) => {
                proof {
                    assert(s.skip(end - i) =~= bytes@.skip(end as int));
                    lemma_prepend_twice(before, seq![token@], lex(bytes@.skip(end as int)));
                    assert(tokens_view(tokens@.push(token)) =~= before + seq![token@]);
                }
                tokens.push(token);
                i = end;
            },
            Err(e) => {
                return Err(e);
            },
        }
    }
    assert(tokens_view(tokens@) + Seq::<TokenView>::empty() =~= tokens_view(tokens@));
    Ok(tokens)
}

/// Putting nothing in front changes nothing.
pub proof fn lemma_prepend_empty<T, E>(tail: Result<Seq<T>, E>)
    ensures
        prepend(Seq::empty(), tail) == tail,
{
    match tail {
        Ok(items) => {
            assert(Seq::<T>::empty() + items =~= items);
        },
        Err(_) => {},
    }
}

} // verus!
