//! The grammar of documents, as functions from token sequences to trees.
//!
//! Each function reads from the front of a token sequence and gives what it
//! read together with the number of tokens that it spans.

use vstd::prelude::*;
use crate::token::TokenView;
use crate::value::{Field, Json};

verus! {

/// Why a token sequence has no document.
#[derive(Debug, Clone, Copy, PartialEq, Eq)]
pub enum ParseError {
    /// There is no token at all.
    EmptyInput,
    /// A token stands where the grammar has no place for it.
    UnexpectedToken,
    /// The tokens end before a container is closed.
    UnexpectedEof,
}

/// What was read from the front of a token sequence, with the number of
/// tokens that it spans.
pub type Reading<T> = Result<(T, nat), ParseError>;

/// `t` may stand between the members of an object or the elements of an
/// array without meaning anything: whitespace or a comma.
pub open spec fn is_filler(t: TokenView) -> bool {
    t is Space || t is Comma
}

/// `t` may stand between a key and its value: whitespace or a colon.
pub open spec fn is_key_gap(t: TokenView) -> bool {
    t is Space || t is Colon
}

/// The number of whitespace and colon tokens that `ts` starts with.
pub open spec fn gap_len(ts: Seq<TokenView>) -> nat
    decreases ts.len(),
{
    if ts.len() > 0 && is_key_gap(ts[0]) {
        1 + gap_len(ts.skip(1))
    } else {
        0
    }
}

/// The value of a string token. With `coerce`, the three texts `null`,
/// `true` and `false` stand for the literals of those names; without it,
/// every string is a string.
pub open spec fn string_value(text: Seq<char>, coerce: bool) -> Json {
    if coerce && text == "null"@ {
        Json::Null
    } else if coerce && text == "true"@ {
        Json::Boolean(true)
    } else if coerce && text == "false"@ {
        Json::Boolean(false)
    } else {
        Json::String(text)
    }
}

/// Puts the items `head`, which span `span` tokens, in front of the reading
/// `tail`: an error stays.
pub open spec fn join<T>(head: Seq<T>, span: nat, tail: Reading<Seq<T>>) -> Reading<Seq<T>> {
    match tail {
        Ok((items, n)) => Ok((head + items, span + n)),
        Err(e) => Err(e),
    }
}

/// The tokens of `ts` behind its first `n`; none where it has no more.
pub open spec fn after(ts: Seq<TokenView>, n: nat) -> Seq<TokenView> {
    if n <= ts.len() {
        ts.skip(n as int)
    } else {
        Seq::empty()
    }
}

/// The value that starts with the token `first`, which `rest` follows, with
/// the number of tokens of `rest` that belong to it.
pub open spec fn value_of(first: TokenView, rest: Seq<TokenView>, coerce: bool) -> Reading<Json>
    decreases rest.len(), 1nat,
{
    match first {
        TokenView::LeftBrace => match members_of(rest, coerce) {
            Ok((members, n)) => Ok((Json::Object(members), n)),
            Err(e) => Err(e),
        },
        TokenView::LeftBracket => match elements_of(rest, coerce) {
            Ok((items, n)) => Ok((Json::Array(items), n)),
            Err(e) => Err(e),
        },
        TokenView::String(text) => Ok((string_value(text, coerce), 0)),
        TokenView::Number(text) => Ok((Json::Number(text), 0)),
        TokenView::Boolean(b) => Ok((Json::Boolean(b), 0)),
        TokenView::Null => Ok((Json::Null, 0)),
        _ => Err(ParseError::UnexpectedToken),
    }
}

/// The members of an object whose opening brace has been consumed, with the
/// number of tokens up to and including its closing brace.
pub open spec fn members_of(ts: Seq<TokenView>, coerce: bool) -> Reading<Seq<Field>>
    decreases ts.len(), 0nat,
{
    if ts.len() == 0 {
        Err(ParseError::UnexpectedEof)
    } else {
        match ts[0] {
            TokenView::RightBrace => Ok((Seq::empty(), 1)),
            TokenView::Space | TokenView::Comma => join(
                Seq::empty(),
                1,
                members_of(ts.skip(1), coerce),
            ),
            TokenView::String(key) => {
                let at = 1 + gap_len(ts.skip(1));
                if at >= ts.len() {
                    Err(ParseError::UnexpectedEof)
                } else {
                    match value_of(ts[at as int], after(ts, at + 1), coerce) {
                        Ok((value, n)) => join(
                            seq![Field { key, value }],
                            at + 1 + n,
                            members_of(after(ts, at + 1 + n), coerce),
                        ),
                        Err(e) => Err(e),
                    }
                }
            },
            _ => Err(ParseError::UnexpectedToken),
        }
    }
}

/// The elements of an array whose opening bracket has been consumed, with
/// the number of tokens up to and including its closing bracket.
pub open spec fn elements_of(ts: Seq<TokenView>, coerce: bool) -> Reading<Seq<Json>>
    decreases ts.len(), 0nat,
{
    if ts.len() == 0 {
        Err(ParseError::UnexpectedEof)
    } else {
        match ts[0] {
            TokenView::RightBracket => Ok((Seq::empty(), 1)),
            TokenView::Space | TokenView::Comma => join(
                Seq::empty(),
                1,
                elements_of(ts.skip(1), coerce),
            ),
            first => match value_of(first, ts.skip(1), coerce) {
                Ok((value, n)) => join(seq![value], 1 + n, elements_of(after(ts, 1 + n), coerce)),
                Err(e) => Err(e),
            },
        }
    }
}

/// The document that the token sequence `ts` holds: the object or array
/// that starts with its first token. What follows that container is not
/// looked at.
pub open spec fn document_of(ts: Seq<TokenView>, coerce: bool) -> Result<Json, ParseError> {
    if ts.len() == 0 {
        Err(ParseError::EmptyInput)
    } else if ts[0] is LeftBrace || ts[0] is LeftBracket {
        match value_of(ts[0], ts.skip(1), coerce) {
            Ok((value, _)) => Ok(value),
            Err(e) => Err(e),
        }
    } else {
        Err(ParseError::UnexpectedToken)
    }
}

/// A run of gap tokens stays inside the sequence.
pub proof fn lemma_gap_len_bound(ts: Seq<TokenView>)
    ensures
        gap_len(ts) <= ts.len(),
    decreases ts.len(),
{
    if ts.len() > 0 && is_key_gap(ts[0]) {
        lemma_gap_len_bound(ts.skip(1));
    }
}

/// A value stays inside the tokens that follow its first one.
pub proof fn lemma_value_span(first: TokenView, rest: Seq<TokenView>, coerce: bool)
    ensures
        match value_of(first, rest, coerce) {
            Ok((_, n)) => n <= rest.len(),
            Err(_) => true,
        },
    decreases rest.len(), 1nat,
{
    match first {
        TokenView::LeftBrace => lemma_members_span(rest, coerce),
        TokenView::LeftBracket => lemma_elements_span(rest, coerce),
        _ => {},
    }
}

/// The members of an object span at least the closing brace and stay inside
/// the sequence.
pub proof fn lemma_members_span(ts: Seq<TokenView>, coerce: bool)
    ensures
        match members_of(ts, coerce) {
            Ok((_, n)) => 0 < n <= ts.len(),
            Err(_) => true,
        },
    decreases ts.len(), 0nat,
{
    if ts.len() > 0 {
        match ts[0] {
            TokenView::Space | TokenView::Comma => lemma_members_span(ts.skip(1), coerce),
            TokenView::String(key) => {
                lemma_gap_len_bound(ts.skip(1));
                let at = 1 + gap_len(ts.skip(1));
                if at < ts.len() {
                    lemma_value_span(ts[at as int], after(ts, at + 1), coerce);
                    if let Ok((_, n)) = value_of(ts[at as int], after(ts, at + 1), coerce) {
                        lemma_members_span(after(ts, at + 1 + n), coerce);
                    }
                }
            },
            _ => {},
        }
    }
}

/// The elements of an array span at least the closing bracket and stay
/// inside the sequence.
pub proof fn lemma_elements_span(ts: Seq<TokenView>, coerce: bool)
    ensures
        match elements_of(ts, coerce) {
            Ok((_, n)) => 0 < n <= ts.len(),
            Err(_) => true,
        },
    decreases ts.len(), 0nat,
{
    if ts.len() > 0 {
        match ts[0] {
            TokenView::RightBracket => {},
            TokenView::Space | TokenView::Comma => lemma_elements_span(ts.skip(1), coerce),
            first => {
                lemma_value_span(first, ts.skip(1), coerce);
                if let Ok((_, n)) = value_of(first, ts.skip(1), coerce) {
                    lemma_elements_span(after(ts, 1 + n), coerce);
                }
            },
        }
    }
}

} // verus!
