//! Lexing is compositional at token boundaries: where a text lexes and the
//! text behind it cannot prolong its last token, the tokens of the whole are
//! the tokens of the parts.

use vstd::prelude::*;
use crate::ascii::{BACKSLASH, QUOTE};
use crate::grammar::{
    after, document_of, elements_of, gap_len, is_key_gap, lemma_gap_len_bound, lemma_value_span,
    members_of, value_of,
};
use crate::lexer::{
    is_whitespace, lemma_number_len_bound, lemma_prepend_empty, lemma_prepend_twice,
    lemma_scan_token_span, lex, number_len, prepend, scan_string, scan_token, starts_number,
    LexError,
};
use crate::number::is_number_byte;
use crate::token::TokenView;

verus! {

/// The text `b` cannot prolong the last token of the text `a`: one of them
/// is empty, or `a` does not end in a number byte, or `b` does not start
/// with one.
pub open spec fn safe_boundary(a: Seq<u8>, b: Seq<u8>) -> bool {
    a.len() == 0 || b.len() == 0 || !is_number_byte(a.last()) || !is_number_byte(b[0])
}

/// Every byte of `s` is whitespace.
pub open spec fn all_whitespace(s: Seq<u8>) -> bool {
    forall|i: int| 0 <= i < s.len() ==> is_whitespace(#[trigger] s[i])
}

/// `n` whitespace tokens.
pub open spec fn spaces(n: nat) -> Seq<TokenView> {
    Seq::new(n, |i: int| TokenView::Space)
}

/// A string literal that is closed inside `s` is not changed by what
/// follows `s`.
pub proof fn lemma_scan_string_append(s: Seq<u8>, b: Seq<u8>)
    requires
        scan_string(s) is Some,
    ensures
        scan_string(s + b) == scan_string(s),
    decreases s.len(),
{
    if s[0] == QUOTE {
    } else if s[0] == BACKSLASH {
        assert((s + b).skip(2) =~= s.skip(2) + b);
        lemma_scan_string_append(s.skip(2), b);
    } else {
        assert((s + b).skip(1) =~= s.skip(1) + b);
        lemma_scan_string_append(s.skip(1), b);
    }
}

/// A run of number bytes that fills the whole of `s` ends in a number byte.
pub proof fn lemma_number_len_full(s: Seq<u8>)
    requires
        s.len() > 0,
        number_len(s) == s.len(),
    ensures
        is_number_byte(s.last()),
    decreases s.len(),
{
    lemma_number_len_bound(s.skip(1));
    if s.len() > 1 {
        lemma_number_len_full(s.skip(1));
    }
}

/// A run of number bytes that ends inside `s`, or that `b` does not
/// prolong, is not changed by appending `b`.
pub proof fn lemma_number_len_append(s: Seq<u8>, b: Seq<u8>)
    requires
        number_len(s) < s.len() || b.len() == 0 || !is_number_byte(b[0]),
    ensures
        number_len(s + b) == number_len(s),
    decreases s.len(),
{
    if s.len() == 0 {
        assert(s + b =~= b);
    } else if is_number_byte(s[0]) {
        assert((s + b).skip(1) =~= s.skip(1) + b);
        lemma_number_len_append(s.skip(1), b);
    }
}

/// The first token of a text is not changed by a text behind it that
/// cannot prolong it.
pub proof fn lemma_scan_token_append(a: Seq<u8>, b: Seq<u8>)
    requires
        a.len() > 0,
        scan_token(a) is Ok,
        safe_boundary(a, b),
    ensures
        scan_token(a + b) == scan_token(a),
{
    assert((a + b)[0] == a[0]);
    if a[0] == QUOTE {
        assert((a + b).skip(1) =~= a.skip(1) + b);
        lemma_scan_string_append(a.skip(1), b);
    } else if starts_number(a[0]) {
        lemma_number_len_bound(a);
        if number_len(a) == a.len() {
            lemma_number_len_full(a);
        }
        lemma_number_len_append(a, b);
        assert((a + b).take(number_len(a) as int) =~= a.take(number_len(a) as int));
    }
}

/// Lexing is compositional: where `a` lexes and `b` cannot prolong its last
/// token, the tokens of `a + b` are the tokens of `a` followed by the
/// tokens of `b`, and an error in `b` is the error of the whole.
pub proof fn lemma_lex_concat(a: Seq<u8>, b: Seq<u8>)
    requires
        lex(a) is Ok,
        safe_boundary(a, b),
    ensures
        lex(a + b) == prepend(lex(a)->Ok_0, lex(b)),
    decreases a.len(),
{
    if a.len() == 0 {
        assert(a + b =~= b);
        lemma_prepend_empty(lex(b));
    } else {
        lemma_scan_token_span(a);
        lemma_scan_token_append(a, b);
        let (token, n) = scan_token(a)->Ok_0;
        let rest = a.skip(n as int);
        assert((a + b).skip(n as int) =~= rest + b);
        assert(rest.len() > 0 ==> rest.last() == a.last());
        lemma_lex_concat(rest, b);
        lemma_prepend_twice(seq![token], lex(rest)->Ok_0, lex(b));
    }
}

/// A text of whitespace lexes to one whitespace token per byte.
pub proof fn lemma_lex_whitespace(blanks: Seq<u8>)
    requires
        all_whitespace(blanks),
    ensures
        lex(blanks) == Ok::<_, LexError>(spaces(blanks.len())),
    decreases blanks.len(),
{
    if blanks.len() > 0 {
        assert(is_whitespace(blanks[0]));
        let rest = blanks.skip(1);
        assert forall|i: int| 0 <= i < rest.len() implies is_whitespace(#[trigger] rest[i]) by {
            assert(rest[i] == blanks[i + 1]);
        }
        lemma_lex_whitespace(rest);
        assert(seq![TokenView::Space] + spaces(rest.len()) =~= spaces(blanks.len()));
    } else {
        assert(spaces(0) =~= Seq::<TokenView>::empty());
    }
}

/// A run of gap tokens that ends inside `ts` is not changed by what follows
/// `ts`.
pub proof fn lemma_gap_len_append(ts: Seq<TokenView>, extra: Seq<TokenView>)
    requires
        gap_len(ts) < ts.len(),
    ensures
        gap_len(ts + extra) == gap_len(ts),
    decreases ts.len(),
{
    if is_key_gap(ts[0]) {
        assert((ts + extra).skip(1) =~= ts.skip(1) + extra);
        lemma_gap_len_append(ts.skip(1), extra);
    }
}

/// A value that was read is not changed by tokens behind those it was read
/// from.
pub proof fn lemma_value_append(
    first: TokenView,
    rest: Seq<TokenView>,
    extra: Seq<TokenView>,
    coerce: bool,
)
    requires
        value_of(first, rest, coerce) is Ok,
    ensures
        value_of(first, rest + extra, coerce) == value_of(first, rest, coerce),
    decreases rest.len(), 1nat,
{
    match first {
        TokenView::LeftBrace => lemma_members_append(rest, extra, coerce),
        TokenView::LeftBracket => lemma_elements_append(rest, extra, coerce),
        _ => {},
    }
}

/// The members of an object that was closed are not changed by tokens
/// behind those they were read from.
pub proof fn lemma_members_append(ts: Seq<TokenView>, extra: Seq<TokenView>, coerce: bool)
    requires
        members_of(ts, coerce) is Ok,
    ensures
        members_of(ts + extra, coerce) == members_of(ts, coerce),
    decreases ts.len(), 0nat,
{
    let whole = ts + extra;
    assert(whole[0] == ts[0]);
    assert(whole.skip(1) =~= ts.skip(1) + extra);
    match ts[0] {
        TokenView::Space | TokenView::Comma => lemma_members_append(ts.skip(1), extra, coerce),
        TokenView::String(key) => {
            lemma_gap_len_bound(ts.skip(1));
            lemma_gap_len_append(ts.skip(1), extra);
            let at = 1 + gap_len(ts.skip(1));
            assert(whole[at as int] == ts[at as int]);
            assert(after(whole, at + 1) =~= after(ts, at + 1) + extra);
            lemma_value_span(ts[at as int], after(ts, at + 1), coerce);
            lemma_value_append(ts[at as int], after(ts, at + 1), extra, coerce);
            let n = value_of(ts[at as int], after(ts, at + 1), coerce)->Ok_0.1;
            assert(after(whole, at + 1 + n) =~= after(ts, at + 1 + n) + extra);
            lemma_members_append(after(ts, at + 1 + n), extra, coerce);
        },
        _ => {},
    }
}

/// The elements of an array that was closed are not changed by tokens
/// behind those they were read from.
pub proof fn lemma_elements_append(ts: Seq<TokenView>, extra: Seq<TokenView>, coerce: bool)
    requires
        elements_of(ts, coerce) is Ok,
    ensures
        elements_of(ts + extra, coerce) == elements_of(ts, coerce),
    decreases ts.len(), 0nat,
{
    let whole = ts + extra;
    assert(whole[0] == ts[0]);
    assert(whole.skip(1) =~= ts.skip(1) + extra);
    match ts[0] {
        TokenView::RightBracket => {},
        TokenView::Space | TokenView::Comma => lemma_elements_append(ts.skip(1), extra, coerce),
        first => {
            lemma_value_span(first, ts.skip(1), coerce);
            lemma_value_append(first, ts.skip(1), extra, coerce);
            let n = value_of(first, ts.skip(1), coerce)->Ok_0.1;
            assert(after(whole, 1 + n) =~= after(ts, 1 + n) + extra);
            lemma_elements_append(after(ts, 1 + n), extra, coerce);
        },
    }
}

/// A document that was read is not changed by tokens behind it.
pub proof fn lemma_document_append(ts: Seq<TokenView>, extra: Seq<TokenView>, coerce: bool)
    requires
        document_of(ts, coerce) is Ok,
    ensures
        document_of(ts + extra, coerce) == document_of(ts, coerce),
{
    let whole = ts + extra;
    assert(whole[0] == ts[0]);
    assert(whole.skip(1) =~= ts.skip(1) + extra);
    lemma_value_append(ts[0], ts.skip(1), extra, coerce);
}

/// Whitespace behind a text that lexes adds one whitespace token per byte
/// and nothing else; where the text holds a document, the longer text holds
/// the same one.
pub proof fn lemma_trailing_whitespace(text: Seq<u8>, blanks: Seq<u8>, coerce: bool)
    requires
        lex(text) is Ok,
        all_whitespace(blanks),
    ensures
        lex(text + blanks) == Ok::<_, LexError>(
            lex(text)->Ok_0 + spaces(blanks.len()),
        ),
        document_of(lex(text)->Ok_0, coerce) is Ok ==> document_of(
            lex(text + blanks)->Ok_0,
            coerce,
        ) == document_of(lex(text)->Ok_0, coerce),
{
    if blanks.len() > 0 {
        assert(is_whitespace(blanks[0]));
    }
    lemma_lex_concat(text, blanks);
    lemma_lex_whitespace(blanks);
    if document_of(lex(text)->Ok_0, coerce) is Ok {
        lemma_document_append(lex(text)->Ok_0, spaces(blanks.len()), coerce);
    }
}

} // verus!
