//! Reading with coercion is reading without it, followed by turning the
//! strings `null`, `true` and `false` of the tree into literals.

use vstd::prelude::*;
use crate::grammar::{
    after, document_of, elements_of, gap_len, lemma_gap_len_bound, members_of, string_value,
    value_of, Reading,
};
use crate::token::TokenView;
use crate::value::{Field, Json};

verus! {

/// The tree `v` with every string value that reads `null`, `true` or
/// `false` replaced by the literal of that name. Keys stay as they are.
pub open spec fn coerced(v: Json) -> Json
    decreases v,
{
    match v {
        Json::Object(members) => Json::Object(coerced_fields(members)),
        Json::Array(items) => Json::Array(coerced_items(items)),
        Json::String(text) => string_value(text, true),
        _ => v,
    }
}

/// The members `members` with their values coerced.
pub open spec fn coerced_fields(members: Seq<Field>) -> Seq<Field>
    decreases members,
{
    Seq::new(
        members.len(),
        |i: int|
            if 0 <= i < members.len() {
                Field { key: members[i].key, value: coerced(members[i].value) }
            } else {
                members[i]
            },
    )
}

/// The trees `items`, each coerced.
pub open spec fn coerced_items(items: Seq<Json>) -> Seq<Json>
    decreases items,
{
    Seq::new(
        items.len(),
        |i: int|
            if 0 <= i < items.len() {
                coerced(items[i])
            } else {
                items[i]
            },
    )
}

/// The reading `r` with the tree that it holds coerced.
pub open spec fn coerced_value(r: Reading<Json>) -> Reading<Json> {
    match r {
        Ok((value, n)) => Ok((coerced(value), n)),
        Err(e) => Err(e),
    }
}

/// The reading `r` with the values of its members coerced.
pub open spec fn coerced_members(r: Reading<Seq<Field>>) -> Reading<Seq<Field>> {
    match r {
        Ok((members, n)) => Ok((coerced_fields(members), n)),
        Err(e) => Err(e),
    }
}

/// The reading `r` with its elements coerced.
pub open spec fn coerced_elements(r: Reading<Seq<Json>>) -> Reading<Seq<Json>> {
    match r {
        Ok((items, n)) => Ok((coerced_items(items), n)),
        Err(e) => Err(e),
    }
}

/// A value read with coercion is the value read without it, coerced, over
/// the same tokens; the errors are the same.
pub proof fn lemma_value_coerced(first: TokenView, rest: Seq<TokenView>)
    ensures
        value_of(first, rest, true) == coerced_value(value_of(first, rest, false)),
    decreases rest.len(), 1nat,
{
    match first {
        TokenView::LeftBrace => lemma_members_coerced(rest),
        TokenView::LeftBracket => lemma_elements_coerced(rest),
        TokenView::String(text) => {
            assert(coerced(Json::String(text)) == string_value(text, true));
        },
        TokenView::Number(text) => {
            assert(coerced(Json::Number(text)) == Json::Number(text));
        },
        TokenView::Boolean(b) => {
            assert(coerced(Json::Boolean(b)) == Json::Boolean(b));
        },
        TokenView::Null => {
            assert(coerced(Json::Null) == Json::Null);
        },
        _ => {},
    }
}

/// The members read with coercion are the members read without it, with
/// their values coerced.
pub proof fn lemma_members_coerced(ts: Seq<TokenView>)
    ensures
        members_of(ts, true) == coerced_members(members_of(ts, false)),
    decreases ts.len(), 0nat,
{
    if ts.len() > 0 {
        match ts[0] {
            TokenView::RightBrace => {
                assert(coerced_fields(Seq::empty()) =~= Seq::empty());
            },
            TokenView::Space | TokenView::Comma => {
                lemma_members_coerced(ts.skip(1));
                if let Ok((members, _)) = members_of(ts.skip(1), false) {
                    assert(Seq::<Field>::empty() + coerced_fields(members) =~= coerced_fields(
                        Seq::<Field>::empty() + members,
                    ));
                }
            },
            TokenView::String(key) => {
                lemma_gap_len_bound(ts.skip(1));
                let at = 1 + gap_len(ts.skip(1));
                if at < ts.len() {
                    lemma_value_coerced(ts[at as int], after(ts, at + 1));
                    if let Ok((value, n)) = value_of(ts[at as int], after(ts, at + 1), false) {
                        lemma_members_coerced(after(ts, at + 1 + n));
                        if let Ok((rest, _)) = members_of(after(ts, at + 1 + n), false) {
                            assert(seq![Field { key, value: coerced(value) }] + coerced_fields(rest)
                                =~= coerced_fields(seq![Field { key, value }] + rest));
                        }
                    }
                }
            },
            _ => {},
        }
    }
}

/// The elements read with coercion are the elements read without it, each
/// coerced.
pub proof fn lemma_elements_coerced(ts: Seq<TokenView>)
    ensures
        elements_of(ts, true) == coerced_elements(elements_of(ts, false)),
    decreases ts.len(), 0nat,
{
    if ts.len() > 0 {
        match ts[0] {
            TokenView::RightBracket => {
                assert(coerced_items(Seq::empty()) =~= Seq::empty());
            },
            TokenView::Space | TokenView::Comma => {
                lemma_elements_coerced(ts.skip(1));
                if let Ok((items, _)) = elements_of(ts.skip(1), false) {
                    assert(Seq::<Json>::empty() + coerced_items(items) =~= coerced_items(
                        Seq::<Json>::empty() + items,
                    ));
                }
            },
            first => {
                lemma_value_coerced(first, ts.skip(1));
                if let Ok((value, n)) = value_of(first, ts.skip(1), false) {
                    lemma_elements_coerced(after(ts, 1 + n));
                    if let Ok((rest, _)) = elements_of(after(ts, 1 + n), false) {
                        assert(seq![coerced(value)] + coerced_items(rest) =~= coerced_items(
                            seq![value] + rest,
                        ));
                    }
                }
            },
        }
    }
}

/// The document read with coercion is the document read without it,
/// coerced; the errors are the same.
pub proof fn lemma_document_coerced(ts: Seq<TokenView>)
    ensures
        document_of(ts, true) == match document_of(ts, false) {
            Ok(value) => Ok(coerced(value)),
            Err(e) => Err(e),
        },
{
    if ts.len() > 0 {
        lemma_value_coerced(ts[0], ts.skip(1));
    }
}

} // verus!
