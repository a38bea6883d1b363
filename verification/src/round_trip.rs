//! Reading the compact text of a document gives the document back.

use vstd::prelude::*;
use crate::ascii::{
    BACKSLASH, COLON, COMMA, LEFT_BRACE, LEFT_BRACKET, QUOTE, RIGHT_BRACE, RIGHT_BRACKET,
};
use crate::boundaries::{lemma_lex_concat, lemma_value_append, safe_boundary};
use crate::grammar::{
    after, document_of, elements_of, gap_len, members_of, value_of, ParseError,
};
use crate::lexer::{lex, number_len, scan_string, scan_token, LexError};
use crate::number::is_number_byte;
use crate::render::{
    bytes_of, element_tokens, escaped, is_byte_text, is_document, is_number_text, is_writable,
    member_tokens,
    render, render_elements, render_members, render_string, separator, separator_token,
    tokens_of,
};
use crate::text::chars_of;
use crate::token::TokenView;
use crate::value::{Field, Json};

verus! {

/// The empty text has no token.
pub proof fn lemma_lex_empty()
    ensures
        lex(Seq::empty()) == Ok::<_, LexError>(Seq::<TokenView>::empty()),
{
}

/// A text that is one token lexes to that token.
pub proof fn lemma_lex_one_token(s: Seq<u8>, token: TokenView)
    requires
        s.len() > 0,
        scan_token(s) == Ok::<_, LexError>((token, s.len())),
    ensures
        lex(s) == Ok::<_, LexError>(seq![token]),
{
    assert(s.skip(s.len() as int) =~= Seq::empty());
    lemma_lex_empty();
    assert(seq![token] + Seq::empty() =~= seq![token]);
}

/// Where two texts lex and the second cannot prolong the last token of the
/// first, their concatenation lexes to the concatenation of their tokens.
pub proof fn lemma_lex_join(a: Seq<u8>, ta: Seq<TokenView>, b: Seq<u8>, tb: Seq<TokenView>)
    requires
        lex(a) == Ok::<_, LexError>(ta),
        lex(b) == Ok::<_, LexError>(tb),
        safe_boundary(a, b),
    ensures
        lex(a + b) == Ok::<_, LexError>(ta + tb),
{
    lemma_lex_concat(a, b);
}

/// Scanning the escaped form of `s` up to its closing quote gives `s` back.
pub proof fn lemma_scan_escaped(s: Seq<u8>)
    ensures
        scan_string(escaped(s) + seq![QUOTE]) == Some(
            (chars_of(s), (escaped(s).len() + 1) as nat),
        ),
    decreases s.len(),
{
    let whole = escaped(s) + seq![QUOTE];
    if s.len() == 0 {
        assert(whole =~= seq![QUOTE]);
        assert(chars_of(s) =~= Seq::empty());
    } else {
        let rest = s.skip(1);
        lemma_scan_escaped(rest);
        assert(seq![s[0] as char] + chars_of(rest) =~= chars_of(s));
        if s[0] == QUOTE || s[0] == BACKSLASH {
            assert(whole[0] == BACKSLASH);
            assert(whole[1] == s[0]);
            assert(whole.skip(2) =~= escaped(rest) + seq![QUOTE]);
        } else {
            assert(whole[0] == s[0]);
            assert(whole.skip(1) =~= escaped(rest) + seq![QUOTE]);
        }
    }
}

/// A byte text is the characters of its bytes.
pub proof fn lemma_chars_of_bytes(text: Seq<char>)
    requires
        is_byte_text(text),
    ensures
        chars_of(bytes_of(text)) == text,
{
    assert forall|i: int| 0 <= i < text.len() implies chars_of(bytes_of(text))[i] == text[i] by {
        let c = text[i];
        assert(c as int <= 0xFF);
        assert(0 <= c as int <= 0xFF);
        assert((c as u8) as char == c);
    }
    assert(chars_of(bytes_of(text)) =~= text);
}

/// A string literal lexes to one string token with its text.
pub proof fn lemma_lex_string(text: Seq<char>)
    requires
        is_byte_text(text),
    ensures
        lex(render_string(text)) == Ok::<_, LexError>(seq![TokenView::String(text)]),
{
    let literal = render_string(text);
    let content = escaped(bytes_of(text));
    assert(literal[0] == QUOTE);
    assert(literal.skip(1) =~= content + seq![QUOTE]);
    lemma_scan_escaped(bytes_of(text));
    lemma_chars_of_bytes(text);
    lemma_lex_one_token(literal, TokenView::String(text));
}

/// A text of number bytes is one run.
pub proof fn lemma_number_len_all(s: Seq<u8>)
    requires
        forall|i: int| 0 <= i < s.len() ==> is_number_byte(#[trigger] s[i]),
    ensures
        number_len(s) == s.len(),
    decreases s.len(),
{
    if s.len() > 0 {
        let rest = s.skip(1);
        assert(is_number_byte(s[0]));
        assert forall|i: int| 0 <= i < rest.len() implies is_number_byte(#[trigger] rest[i]) by {
            assert(rest[i] == s[i + 1]);
        }
        lemma_number_len_all(rest);
    }
}

/// A numeric text lexes to one number token with that text.
pub proof fn lemma_lex_number(text: Seq<char>)
    requires
        is_number_text(text),
    ensures
        lex(bytes_of(text)) == Ok::<_, LexError>(seq![TokenView::Number(text)]),
{
    let s = bytes_of(text);
    lemma_number_len_all(s);
    assert(s.take(s.len() as int) =~= s);
    lemma_chars_of_bytes(text);
    lemma_lex_one_token(s, TokenView::Number(text));
}

/// The separator in front of item `i` lexes to its token.
pub proof fn lemma_lex_separator(i: int)
    ensures
        lex(separator(i)) == Ok::<_, LexError>(separator_token(i)),
{
    if i > 0 {
        lemma_lex_one_token(seq![COMMA], TokenView::Comma);
    } else {
        lemma_lex_empty();
    }
}

/// The rest of the members of an object starts with a byte that is no
/// number byte.
pub proof fn lemma_members_head(members: Seq<Field>, i: int)
    requires
        i > 0,
    ensures
        render_members(members, i).len() > 0,
        !is_number_byte(render_members(members, i)[0]),
{
    if i < members.len() {
        let head = separator(i);
        assert(head[0] == COMMA);
        assert(render_members(members, i)[0] == COMMA);
    }
}

/// The rest of the elements of an array starts with a byte that is no
/// number byte.
pub proof fn lemma_elements_head(items: Seq<Json>, i: int)
    requires
        i > 0,
    ensures
        render_elements(items, i).len() > 0,
        !is_number_byte(render_elements(items, i)[0]),
{
    if i < items.len() {
        let head = separator(i);
        assert(head[0] == COMMA);
        assert(render_elements(items, i)[0] == COMMA);
    }
}

/// The compact text of a tree lexes to the tokens of the tree.
pub proof fn lemma_lex_render(v: Json)
    requires
        is_writable(v),
    ensures
        lex(render(v)) == Ok::<_, LexError>(tokens_of(v)),
    decreases v, 0nat,
{
    match v {
        Json::Object(members) => {
            lemma_lex_one_token(seq![LEFT_BRACE], TokenView::LeftBrace);
            lemma_lex_members(members, 0);
            lemma_lex_join(
                seq![LEFT_BRACE],
                seq![TokenView::LeftBrace],
                render_members(members, 0),
                member_tokens(members, 0),
            );
        },
        Json::Array(items) => {
            lemma_lex_one_token(seq![LEFT_BRACKET], TokenView::LeftBracket);
            lemma_lex_elements(items, 0);
            lemma_lex_join(
                seq![LEFT_BRACKET],
                seq![TokenView::LeftBracket],
                render_elements(items, 0),
                element_tokens(items, 0),
            );
        },
        Json::String(text) => lemma_lex_string(text),
        Json::Number(text) => lemma_lex_number(text),
        Json::Boolean(b) => {
            lemma_lex_one_token(render(v), TokenView::Boolean(b));
        },
        Json::Null => {
            lemma_lex_one_token(render(v), TokenView::Null);
        },
    }
}

/// The text of the members from `i` on lexes to their tokens.
pub proof fn lemma_lex_members(members: Seq<Field>, i: int)
    requires
        0 <= i <= members.len(),
        is_writable(Json::Object(members)),
    ensures
        lex(render_members(members, i)) == Ok::<_, LexError>(member_tokens(members, i)),
    decreases members, members.len() - i,
{
    if i < members.len() {
        let sep = separator(i);
        let key = render_string(members[i].key);
        let colon = seq![COLON];
        let val = render(members[i].value);
        let tail = render_members(members, i + 1);
        let key_token = seq![TokenView::String(members[i].key)];
        let colon_token = seq![TokenView::Colon];
        assert(is_byte_text(members[i].key) && is_writable(members[i].value));
        lemma_lex_separator(i);
        lemma_lex_string(members[i].key);
        lemma_lex_one_token(colon, TokenView::Colon);
        lemma_lex_render(members[i].value);
        lemma_lex_members(members, i + 1);
        lemma_members_head(members, i + 1);
        assert(key[0] == QUOTE);
        lemma_lex_join(sep, separator_token(i), key, key_token);
        lemma_lex_join(sep + key, separator_token(i) + key_token, colon, colon_token);
        assert((sep + key + colon).last() == COLON);
        lemma_lex_join(
            sep + key + colon,
            separator_token(i) + key_token + colon_token,
            val,
            tokens_of(members[i].value),
        );
        lemma_lex_join(
            sep + key + colon + val,
            separator_token(i) + key_token + colon_token + tokens_of(members[i].value),
            tail,
            member_tokens(members, i + 1),
        );
    } else {
        lemma_lex_one_token(seq![RIGHT_BRACE], TokenView::RightBrace);
    }
}

/// The text of the elements from `i` on lexes to their tokens.
pub proof fn lemma_lex_elements(items: Seq<Json>, i: int)
    requires
        0 <= i <= items.len(),
        is_writable(Json::Array(items)),
    ensures
        lex(render_elements(items, i)) == Ok::<_, LexError>(element_tokens(items, i)),
    decreases items, items.len() - i,
{
    if i < items.len() {
        let sep = separator(i);
        let val = render(items[i]);
        let tail = render_elements(items, i + 1);
        let whole = Json::Array(items);
        assert(whole is Array && whole->Array_0 == items);
        assert(is_writable(items[i]));
        lemma_lex_separator(i);
        lemma_lex_render(items[i]);
        lemma_lex_elements(items, i + 1);
        lemma_elements_head(items, i + 1);
        lemma_lex_join(sep, separator_token(i), val, tokens_of(items[i]));
        lemma_lex_join(
            sep + val,
            separator_token(i) + tokens_of(items[i]),
            tail,
            element_tokens(items, i + 1),
        );
    } else {
        lemma_lex_one_token(seq![RIGHT_BRACKET], TokenView::RightBracket);
    }
}

/// The token that the tokens of the tree `v` start with.
pub open spec fn head_token(v: Json) -> TokenView {
    match v {
        Json::Object(_) => TokenView::LeftBrace,
        Json::Array(_) => TokenView::LeftBracket,
        Json::String(text) => TokenView::String(text),
        Json::Number(text) => TokenView::Number(text),
        Json::Boolean(b) => TokenView::Boolean(b),
        Json::Null => TokenView::Null,
    }
}

/// The tokens of a tree start with its head token.
pub proof fn lemma_tokens_head(v: Json)
    ensures
        tokens_of(v).len() > 0,
        tokens_of(v)[0] == head_token(v),
{
}

/// Reading the tokens of a tree gives the tree, over all of its tokens.
pub proof fn lemma_read_value(v: Json)
    ensures
        value_of(head_token(v), tokens_of(v).skip(1), false) == Ok::<_, ParseError>(
            (v, (tokens_of(v).len() - 1) as nat),
        ),
    decreases v, 0nat,
{
    match v {
        Json::Object(members) => {
            lemma_read_members(members, 0);
            assert(tokens_of(v).skip(1) =~= member_tokens(members, 0));
            assert(members.skip(0) =~= members);
        },
        Json::Array(items) => {
            lemma_read_elements(items, 0);
            assert(tokens_of(v).skip(1) =~= element_tokens(items, 0));
            assert(items.skip(0) =~= items);
        },
        _ => {
            assert(tokens_of(v).skip(1) =~= Seq::empty());
        },
    }
}

/// Reading the tokens of the members from `i` on gives those members, over
/// all of these tokens.
pub proof fn lemma_read_members(members: Seq<Field>, i: int)
    requires
        0 <= i <= members.len(),
    ensures
        members_of(member_tokens(members, i), false) == Ok::<_, ParseError>(
            (members.skip(i), member_tokens(members, i).len()),
        ),
    decreases members, members.len() - i,
{
    let all = member_tokens(members, i);
    if i < members.len() {
        let value = members[i].value;
        let key_token = seq![TokenView::String(members[i].key)];
        let colon_token = seq![TokenView::Colon];
        let inner = tokens_of(value);
        let tail = member_tokens(members, i + 1);
        let entry = key_token + colon_token + inner + tail;
        lemma_tokens_head(value);
        lemma_read_value(value);
        lemma_value_append(head_token(value), inner.skip(1), tail, false);
        lemma_read_members(members, i + 1);
        // the entry itself
        assert(entry[0] == TokenView::String(members[i].key));
        let gap = entry.skip(1);
        assert(gap =~= colon_token + inner + tail);
        assert(gap.skip(1) =~= inner + tail);
        assert(gap_len(gap.skip(1)) == 0);
        assert(gap_len(gap) == 1);
        assert(entry[2] == head_token(value));
        assert(after(entry, 3) =~= inner.skip(1) + tail);
        assert(after(entry, (3 + (inner.len() - 1)) as nat) =~= tail);
        assert(seq![members[i]] + members.skip(i + 1) =~= members.skip(i));
        assert(members_of(entry, false) == Ok::<_, ParseError>((members.skip(i), entry.len())));
        // the separator in front of it
        if i > 0 {
            assert(all[0] == TokenView::Comma);
            assert(all.skip(1) =~= entry);
            assert(Seq::<Field>::empty() + members.skip(i) =~= members.skip(i));
        } else {
            assert(all =~= entry);
        }
    } else {
        assert(members.skip(i) =~= Seq::empty());
    }
}

/// Reading the tokens of the elements from `i` on gives those elements,
/// over all of these tokens.
pub proof fn lemma_read_elements(items: Seq<Json>, i: int)
    requires
        0 <= i <= items.len(),
    ensures
        elements_of(element_tokens(items, i), false) == Ok::<_, ParseError>(
            (items.skip(i), element_tokens(items, i).len()),
        ),
    decreases items, items.len() - i,
{
    let all = element_tokens(items, i);
    if i < items.len() {
        let value = items[i];
        let inner = tokens_of(value);
        let tail = element_tokens(items, i + 1);
        let entry = inner + tail;
        lemma_tokens_head(value);
        lemma_read_value(value);
        lemma_value_append(head_token(value), inner.skip(1), tail, false);
        lemma_read_elements(items, i + 1);
        // the entry itself
        assert(entry[0] == head_token(value));
        assert(entry.skip(1) =~= inner.skip(1) + tail);
        assert(after(entry, (1 + (inner.len() - 1)) as nat) =~= tail);
        assert(seq![value] + items.skip(i + 1) =~= items.skip(i));
        assert(elements_of(entry, false) == Ok::<_, ParseError>((items.skip(i), entry.len())));
        // the separator in front of it
        if i > 0 {
            assert(all[0] == TokenView::Comma);
            assert(all.skip(1) =~= entry);
            assert(Seq::<Json>::empty() + items.skip(i) =~= items.skip(i));
        } else {
            assert(all =~= entry);
        }
    } else {
        assert(items.skip(i) =~= Seq::empty());
    }
}

/// The tokens of a tree whose root is an object or an array hold that
/// tree as their document.
pub proof fn lemma_read_tokens(doc: Json)
    requires
        doc is Object || doc is Array,
    ensures
        document_of(tokens_of(doc), false) == Ok::<_, ParseError>(doc),
{
    lemma_tokens_head(doc);
    lemma_read_value(doc);
}

/// Writing a document down in its compact text and reading that text gives
/// the document back: the text lexes, and its tokens hold a document that
/// has the same containers and values in the same order.
pub proof fn lemma_round_trip(doc: Json)
    requires
        is_document(doc),
    ensures
        lex(render(doc)) == Ok::<_, LexError>(tokens_of(doc)),
        document_of(tokens_of(doc), false) == Ok::<_, ParseError>(doc),
{
    lemma_lex_render(doc);
    lemma_read_tokens(doc);
}

} // verus!
