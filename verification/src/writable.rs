//! What was read can be written: the tokens of a text hold byte texts and
//! numeric texts only, and so does every tree that is read from them.

use vstd::prelude::*;
use crate::ascii::{BACKSLASH, QUOTE};
use crate::grammar::{
    after, document_of, elements_of, gap_len, lemma_gap_len_bound, lemma_value_span, members_of,
    value_of,
};
use crate::lexer::{
    lemma_number_len_bound, lemma_scan_token_span, lex, number_len, scan_string, scan_token,
    starts_number,
};
use crate::number::is_number_byte;
use crate::render::{bytes_of, is_byte_text, is_number_text, is_writable};
use crate::text::chars_of;
use crate::token::TokenView;
use crate::value::{Field, Json};

verus! {

/// The text of the token `t`, where it has one, can be written down: a
/// string holds a byte text, a number a numeric text.
pub open spec fn token_is_writable(t: TokenView) -> bool {
    match t {
        TokenView::String(text) => is_byte_text(text),
        TokenView::Number(text) => is_number_text(text),
        _ => true,
    }
}

/// Every token of `ts` can be written down.
pub open spec fn tokens_writable(ts: Seq<TokenView>) -> bool {
    forall|i: int| 0 <= i < ts.len() ==> token_is_writable(#[trigger] ts[i])
}

/// Every member of `members` has a byte text as its key and a value that
/// can be written down.
pub open spec fn fields_writable(members: Seq<Field>) -> bool {
    forall|i: int|
        0 <= i < members.len() ==> is_byte_text((#[trigger] members[i]).key) && is_writable(
            members[i].value,
        )
}

/// Every tree of `items` can be written down.
pub open spec fn items_writable(items: Seq<Json>) -> bool {
    forall|i: int| 0 <= i < items.len() ==> is_writable(#[trigger] items[i])
}

/// The characters of bytes are a byte text, and their bytes are the bytes
/// that they came from.
pub proof fn lemma_bytes_of_chars(s: Seq<u8>)
    ensures
        is_byte_text(chars_of(s)),
        bytes_of(chars_of(s)) == s,
{
    assert forall|i: int| 0 <= i < s.len() implies bytes_of(chars_of(s))[i] == s[i] by {
        assert((s[i] as char) as u8 == s[i]);
    }
    assert(bytes_of(chars_of(s)) =~= s);
}

/// The text of a scanned string literal is a byte text.
pub proof fn lemma_scanned_string_is_byte_text(s: Seq<u8>)
    ensures
        match scan_string(s) {
            Some((text, _)) => is_byte_text(text),
            None => true,
        },
    decreases s.len(),
{
    if s.len() == 0 || s[0] == QUOTE {
    } else if s[0] == BACKSLASH {
        if s.len() >= 2 {
            lemma_scanned_string_is_byte_text(s.skip(2));
            if let Some((rest, _)) = scan_string(s.skip(2)) {
                lemma_byte_text_push_front(s[1], rest);
            }
        }
    } else {
        lemma_scanned_string_is_byte_text(s.skip(1));
        if let Some((rest, _)) = scan_string(s.skip(1)) {
            lemma_byte_text_push_front(s[0], rest);
        }
    }
}

/// The character of a byte in front of a byte text gives a byte text.
pub proof fn lemma_byte_text_push_front(b: u8, text: Seq<char>)
    requires
        is_byte_text(text),
    ensures
        is_byte_text(seq![b as char] + text),
{
    let longer = seq![b as char] + text;
    assert forall|i: int| 0 <= i < longer.len() implies 0 <= (#[trigger] longer[i]) as int
        <= 0xFF by {
        if i > 0 {
            assert(longer[i] == text[i - 1]);
        }
    }
}

/// The bytes of a run of number bytes are number bytes.
pub proof fn lemma_number_run(s: Seq<u8>)
    ensures
        forall|i: int| 0 <= i < number_len(s) ==> is_number_byte(#[trigger] s[i]),
    decreases s.len(),
{
    if s.len() > 0 && is_number_byte(s[0]) {
        let rest = s.skip(1);
        lemma_number_run(rest);
        lemma_number_len_bound(rest);
        assert forall|i: int| 0 <= i < number_len(s) implies is_number_byte(#[trigger] s[i]) by {
            if i > 0 {
                assert(s[i] == rest[i - 1]);
            }
        }
    }
}

/// The first token of a text can be written down.
pub proof fn lemma_scanned_token_writable(s: Seq<u8>)
    requires
        s.len() > 0,
    ensures
        match scan_token(s) {
            Ok((token, _)) => token_is_writable(token),
            Err(_) => true,
        },
{
    if s[0] == QUOTE {
        lemma_scanned_string_is_byte_text(s.skip(1));
    } else if starts_number(s[0]) {
        let n = number_len(s);
        let lexeme = s.take(n as int);
        lemma_number_len_bound(s);
        lemma_number_run(s);
        lemma_bytes_of_chars(lexeme);
        assert(n > 0);
        assert(lexeme[0] == s[0]);
        assert forall|i: int| 0 <= i < lexeme.len() implies is_number_byte(
            #[trigger] bytes_of(chars_of(lexeme))[i],
        ) by {
            assert(lexeme[i] == s[i]);
        }
    }
}

/// Every token of a text can be written down.
pub proof fn lemma_lexed_tokens_writable(s: Seq<u8>)
    ensures
        match lex(s) {
            Ok(tokens) => tokens_writable(tokens),
            Err(_) => true,
        },
    decreases s.len(),
{
    if s.len() > 0 {
        lemma_scan_token_span(s);
        lemma_scanned_token_writable(s);
        if let Ok((token, n)) = scan_token(s) {
            lemma_lexed_tokens_writable(s.skip(n as int));
            if let Ok(rest) = lex(s.skip(n as int)) {
                let tokens = seq![token] + rest;
                assert forall|i: int| 0 <= i < tokens.len() implies token_is_writable(
                    #[trigger] tokens[i],
                ) by {
                    if i > 0 {
                        assert(tokens[i] == rest[i - 1]);
                    }
                }
            }
        }
    }
}

/// A suffix of tokens that can be written down can be written down.
pub proof fn lemma_writable_after(ts: Seq<TokenView>, n: nat)
    requires
        tokens_writable(ts),
    ensures
        tokens_writable(after(ts, n)),
{
    let rest = after(ts, n);
    assert forall|i: int| 0 <= i < rest.len() implies token_is_writable(#[trigger] rest[i]) by {
        assert(rest[i] == ts[i + n]);
    }
}

/// A value that is read from tokens that can be written down can be
/// written down.
pub proof fn lemma_value_writable(first: TokenView, rest: Seq<TokenView>, coerce: bool)
    requires
        token_is_writable(first),
        tokens_writable(rest),
    ensures
        match value_of(first, rest, coerce) {
            Ok((value, _)) => is_writable(value),
            Err(_) => true,
        },
    decreases rest.len(), 1nat,
{
    match first {
        TokenView::LeftBrace => {
            lemma_members_writable(rest, coerce);
            if let Ok((members, _)) = members_of(rest, coerce) {
                let whole = Json::Object(members);
                assert(whole is Object && whole->Object_0 == members);
            }
        },
        TokenView::LeftBracket => {
            lemma_elements_writable(rest, coerce);
            if let Ok((items, _)) = elements_of(rest, coerce) {
                let whole = Json::Array(items);
                assert(whole is Array && whole->Array_0 == items);
            }
        },
        _ => {},
    }
}

/// The members that are read from tokens that can be written down can be
/// written down.
pub proof fn lemma_members_writable(ts: Seq<TokenView>, coerce: bool)
    requires
        tokens_writable(ts),
    ensures
        match members_of(ts, coerce) {
            Ok((members, _)) => fields_writable(members),
            Err(_) => true,
        },
    decreases ts.len(), 0nat,
{
    if ts.len() > 0 {
        lemma_writable_after(ts, 1);
        match ts[0] {
            TokenView::Space | TokenView::Comma => {
                lemma_members_writable(ts.skip(1), coerce);
                if let Ok((members, _)) = members_of(ts.skip(1), coerce) {
                    assert(Seq::<Field>::empty() + members =~= members);
                }
            },
            TokenView::String(key) => {
                lemma_gap_len_bound(ts.skip(1));
                let at = 1 + gap_len(ts.skip(1));
                if at < ts.len() {
                    assert(token_is_writable(ts[0]));
                    assert(token_is_writable(ts[at as int]));
                    lemma_writable_after(ts, at + 1);
                    lemma_value_span(ts[at as int], after(ts, at + 1), coerce);
                    lemma_value_writable(ts[at as int], after(ts, at + 1), coerce);
                    if let Ok((value, n)) = value_of(ts[at as int], after(ts, at + 1), coerce) {
                        lemma_writable_after(ts, at + 1 + n);
                        lemma_members_writable(after(ts, at + 1 + n), coerce);
                        if let Ok((rest, _)) = members_of(after(ts, at + 1 + n), coerce) {
                            let members = seq![Field { key, value }] + rest;
                            assert forall|i: int| 0 <= i < members.len() implies is_byte_text(
                                (#[trigger] members[i]).key,
                            ) && is_writable(members[i].value) by {
                                if i > 0 {
                                    assert(members[i] == rest[i - 1]);
                                }
                            }
                        }
                    }
                }
            },
            _ => {},
        }
    }
}

/// The elements that are read from tokens that can be written down can be
/// written down.
pub proof fn lemma_elements_writable(ts: Seq<TokenView>, coerce: bool)
    requires
        tokens_writable(ts),
    ensures
        match elements_of(ts, coerce) {
            Ok((items, _)) => items_writable(items),
            Err(_) => true,
        },
    decreases ts.len(), 0nat,
{
    if ts.len() > 0 {
        lemma_writable_after(ts, 1);
        match ts[0] {
            TokenView::RightBracket => {},
            TokenView::Space | TokenView::Comma => {
                lemma_elements_writable(ts.skip(1), coerce);
                if let Ok((items, _)) = elements_of(ts.skip(1), coerce) {
                    assert(Seq::<Json>::empty() + items =~= items);
                }
            },
            first => {
                assert(token_is_writable(ts[0]));
                lemma_value_span(first, ts.skip(1), coerce);
                lemma_value_writable(first, ts.skip(1), coerce);
                if let Ok((value, n)) = value_of(first, ts.skip(1), coerce) {
                    lemma_writable_after(ts, 1 + n);
                    lemma_elements_writable(after(ts, 1 + n), coerce);
                    if let Ok((rest, _)) = elements_of(after(ts, 1 + n), coerce) {
                        let items = seq![value] + rest;
                        assert forall|i: int| 0 <= i < items.len() implies is_writable(
                            #[trigger] items[i],
                        ) by {
                            if i > 0 {
                                assert(items[i] == rest[i - 1]);
                            }
                        }
                    }
                }
            },
        }
    }
}

/// The document of tokens that can be written down can be written down,
/// and its root is an object or an array.
pub proof fn lemma_document_writable(ts: Seq<TokenView>, coerce: bool)
    requires
        tokens_writable(ts),
    ensures
        match document_of(ts, coerce) {
            Ok(value) => is_writable(value) && (value is Object || value is Array),
            Err(_) => true,
        },
{
    if ts.len() > 0 {
        assert(token_is_writable(ts[0]));
        lemma_writable_after(ts, 1);
        lemma_value_writable(ts[0], ts.skip(1), coerce);
    }
}

} // verus!
