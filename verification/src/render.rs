//! The compact text of a document tree, and the law that reading it gives
//! the tree back.

use vstd::prelude::*;
use crate::ascii::{
    BACKSLASH, COLON, COMMA, LEFT_BRACE, LEFT_BRACKET, LOWER_A, LOWER_E, LOWER_F, LOWER_L,
    LOWER_N, LOWER_R, LOWER_S, LOWER_T, LOWER_U, QUOTE, RIGHT_BRACE, RIGHT_BRACKET,
};
use crate::lexer::starts_number;
use crate::number::{is_float_literal, is_number_byte};
use crate::token::TokenView;
use crate::value::{Field, Json};

verus! {

/// Every character of `text` has the code of a byte.
pub open spec fn is_byte_text(text: Seq<char>) -> bool {
    forall|i: int| 0 <= i < text.len() ==> 0 <= (#[trigger] text[i]) as int <= 0xFF
}

/// The bytes that the characters of `text` have as their codes.
pub open spec fn bytes_of(text: Seq<char>) -> Seq<u8> {
    Seq::new(text.len(), |i: int| text[i] as u8)
}

/// `text` is the text of a numeric token: number bytes only, of which the
/// first is a digit or `-`, that make up a decimal floating-point literal.
pub open spec fn is_number_text(text: Seq<char>) -> bool {
    &&& is_byte_text(text)
    &&& text.len() > 0
    &&& starts_number(bytes_of(text)[0])
    &&& forall|i: int| 0 <= i < text.len() ==> is_number_byte(#[trigger] bytes_of(text)[i])
    &&& is_float_literal(bytes_of(text))
}

/// The tree `v` can be written down and read again: its strings and keys
/// are byte texts and its numbers are numeric texts.
pub open spec fn is_writable(v: Json) -> bool
    decreases v,
{
    match v {
        Json::Object(members) => forall|i: int|
            0 <= i < members.len() ==> is_byte_text((#[trigger] members[i]).key) && is_writable(
                members[i].value,
            ),
        Json::Array(items) => forall|i: int|
            0 <= i < items.len() ==> is_writable(#[trigger] items[i]),
        Json::String(text) => is_byte_text(text),
        Json::Number(text) => is_number_text(text),
        Json::Boolean(_) => true,
        Json::Null => true,
    }
}

/// The tree `v` is a document: it can be written down, and its root is an
/// object or an array.
pub open spec fn is_document(v: Json) -> bool {
    is_writable(v) && (v is Object || v is Array)
}

/// The content of a string literal for the bytes `s`: a backslash in front
/// of every quote and every backslash.
pub open spec fn escaped(s: Seq<u8>) -> Seq<u8>
    decreases s.len(),
{
    if s.len() == 0 {
        Seq::empty()
    } else if s[0] == QUOTE || s[0] == BACKSLASH {
        seq![BACKSLASH, s[0]] + escaped(s.skip(1))
    } else {
        seq![s[0]] + escaped(s.skip(1))
    }
}

/// The string literal for `text`.
pub open spec fn render_string(text: Seq<char>) -> Seq<u8> {
    seq![QUOTE] + escaped(bytes_of(text)) + seq![QUOTE]
}

/// A comma in front of every item but the first.
pub open spec fn separator(i: int) -> Seq<u8> {
    if i > 0 {
        seq![COMMA]
    } else {
        Seq::empty()
    }
}

/// The compact text of the tree `v`.
pub open spec fn render(v: Json) -> Seq<u8>
    decreases v, 0nat,
{
    match v {
        Json::Object(members) => seq![LEFT_BRACE] + render_members(members, 0),
        Json::Array(items) => seq![LEFT_BRACKET] + render_elements(items, 0),
        Json::String(text) => render_string(text),
        Json::Number(text) => bytes_of(text),
        Json::Boolean(b) => if b {
            seq![LOWER_T, LOWER_R, LOWER_U, LOWER_E]
        } else {
            seq![LOWER_F, LOWER_A, LOWER_L, LOWER_S, LOWER_E]
        },
        Json::Null => seq![LOWER_N, LOWER_U, LOWER_L, LOWER_L],
    }
}

/// The text of the members of an object from the one at `i` on, with the
/// closing brace.
pub open spec fn render_members(members: Seq<Field>, i: int) -> Seq<u8>
    decreases members, members.len() - i,
{
    if 0 <= i < members.len() {
        separator(i) + render_string(members[i].key) + seq![COLON] + render(members[i].value)
            + render_members(members, i + 1)
    } else {
        seq![RIGHT_BRACE]
    }
}

/// The text of the elements of an array from the one at `i` on, with the
/// closing bracket.
pub open spec fn render_elements(items: Seq<Json>, i: int) -> Seq<u8>
    decreases items, items.len() - i,
{
    if 0 <= i < items.len() {
        separator(i) + render(items[i]) + render_elements(items, i + 1)
    } else {
        seq![RIGHT_BRACKET]
    }
}

/// A comma token in front of every item but the first.
pub open spec fn separator_token(i: int) -> Seq<TokenView> {
    if i > 0 {
        seq![TokenView::Comma]
    } else {
        Seq::empty()
    }
}

/// The tokens of the compact text of the tree `v`.
pub open spec fn tokens_of(v: Json) -> Seq<TokenView>
    decreases v, 0nat,
{
    match v {
        Json::Object(members) => seq![TokenView::LeftBrace] + member_tokens(members, 0),
        Json::Array(items) => seq![TokenView::LeftBracket] + element_tokens(items, 0),
        Json::String(text) => seq![TokenView::String(text)],
        Json::Number(text) => seq![TokenView::Number(text)],
        Json::Boolean(b) => seq![TokenView::Boolean(b)],
        Json::Null => seq![TokenView::Null],
    }
}

/// The tokens of the members of an object from the one at `i` on, with the
/// closing brace.
pub open spec fn member_tokens(members: Seq<Field>, i: int) -> Seq<TokenView>
    decreases members, members.len() - i,
{
    if 0 <= i < members.len() {
        separator_token(i) + seq![TokenView::String(members[i].key)] + seq![TokenView::Colon]
            + tokens_of(members[i].value) + member_tokens(members, i + 1)
    } else {
        seq![TokenView::RightBrace]
    }
}

/// The tokens of the elements of an array from the one at `i` on, with the
/// closing bracket.
pub open spec fn element_tokens(items: Seq<Json>, i: int) -> Seq<TokenView>
    decreases items, items.len() - i,
{
    if 0 <= i < items.len() {
        separator_token(i) + tokens_of(items[i]) + element_tokens(items, i + 1)
    } else {
        seq![TokenView::RightBracket]
    }
}

} // verus!
