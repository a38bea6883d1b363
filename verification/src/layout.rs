//! Whitespace tokens behind the first token mean nothing: a token sequence
//! and the same sequence without its whitespace hold the same document.

use vstd::prelude::*;
use crate::grammar::{
    after, document_of, elements_of, gap_len, is_key_gap, lemma_elements_span,
    lemma_gap_len_bound, lemma_members_span, lemma_value_span, members_of, value_of, Reading,
};
use crate::token::TokenView;
use crate::value::{Field, Json};

verus! {

/// The tokens of `ts` that are not whitespace, in order.
pub open spec fn without_spaces(ts: Seq<TokenView>) -> Seq<TokenView>
    decreases ts.len(),
{
    if ts.len() == 0 {
        Seq::empty()
    } else if ts[0] is Space {
        without_spaces(ts.skip(1))
    } else {
        seq![ts[0]] + without_spaces(ts.skip(1))
    }
}

/// The number of tokens among the first `n` of `ts` that are not
/// whitespace.
pub open spec fn kept(ts: Seq<TokenView>, n: nat) -> nat {
    without_spaces(ts.take(n as int)).len()
}

/// The reading `r` with its span counted without the whitespace of `ts`.
pub open spec fn respanned<T>(ts: Seq<TokenView>, r: Reading<T>) -> Reading<T> {
    match r {
        Ok((what, n)) => Ok((what, kept(ts, n))),
        Err(e) => Err(e),
    }
}

/// Dropping whitespace goes through concatenation.
pub proof fn lemma_without_spaces_add(a: Seq<TokenView>, b: Seq<TokenView>)
    ensures
        without_spaces(a + b) == without_spaces(a) + without_spaces(b),
    decreases a.len(),
{
    if a.len() == 0 {
        assert(a + b =~= b);
        assert(without_spaces(a) + without_spaces(b) =~= without_spaces(b));
    } else {
        assert((a + b).skip(1) =~= a.skip(1) + b);
        lemma_without_spaces_add(a.skip(1), b);
        if !(a[0] is Space) {
            assert(seq![a[0]] + (without_spaces(a.skip(1)) + without_spaces(b)) =~= (seq![a[0]]
                + without_spaces(a.skip(1))) + without_spaces(b));
        }
    }
}

/// Behind the kept tokens among the first `n` stand the kept tokens among
/// the others.
pub proof fn lemma_after_kept(ts: Seq<TokenView>, n: nat)
    requires
        n <= ts.len(),
    ensures
        kept(ts, n) <= without_spaces(ts).len(),
        after(without_spaces(ts), kept(ts, n)) == without_spaces(after(ts, n)),
{
    let head = ts.take(n as int);
    let tail = ts.skip(n as int);
    assert(head + tail =~= ts);
    lemma_without_spaces_add(head, tail);
    assert((without_spaces(head) + without_spaces(tail)).skip(without_spaces(head).len() as int)
        =~= without_spaces(tail));
}

/// The kept tokens among the first `a + b` are those among the first `a`
/// and those among the next `b`.
pub proof fn lemma_kept_add(ts: Seq<TokenView>, a: nat, b: nat)
    requires
        a + b <= ts.len(),
    ensures
        kept(ts, a + b) == kept(ts, a) + kept(after(ts, a), b),
{
    let first = ts.take(a as int);
    let second = ts.skip(a as int).take(b as int);
    assert(first + second =~= ts.take((a + b) as int));
    lemma_without_spaces_add(first, second);
}

/// Of one token, what is kept is the token, unless it is whitespace.
pub proof fn lemma_kept_one(ts: Seq<TokenView>)
    requires
        ts.len() > 0,
    ensures
        kept(ts, 1) == if ts[0] is Space {
            0nat
        } else {
            1nat
        },
        without_spaces(ts.skip(1)) == after(without_spaces(ts), kept(ts, 1)),
{
    let one = ts.take(1);
    assert(one.skip(1) =~= Seq::empty());
    assert(without_spaces(one.skip(1)) =~= Seq::empty());
    assert(one[0] == ts[0]);
    lemma_after_kept(ts, 1);
}

/// The gap behind a key, without its whitespace, is the colons of the gap;
/// it ends where the tokens end, or in front of the same token.
pub proof fn lemma_gap_without_spaces(ts: Seq<TokenView>)
    ensures
        gap_len(without_spaces(ts)) == kept(ts, gap_len(ts)),
        gap_len(ts) <= ts.len(),
        gap_len(ts) == ts.len() <==> gap_len(without_spaces(ts)) == without_spaces(ts).len(),
        gap_len(ts) < ts.len() ==> without_spaces(ts)[gap_len(without_spaces(ts)) as int]
            == ts[gap_len(ts) as int] && kept(ts, gap_len(ts) + 1) == gap_len(
            without_spaces(ts),
        ) + 1,
    decreases ts.len(),
{
    let stripped = without_spaces(ts);
    lemma_gap_len_bound(ts);
    lemma_gap_len_bound(stripped);
    if ts.len() == 0 {
        assert(ts.take(0) =~= ts);
    } else {
        let rest = ts.skip(1);
        lemma_gap_without_spaces(rest);
        lemma_gap_len_bound(rest);
        lemma_kept_one(ts);
        if is_key_gap(ts[0]) {
            let g = gap_len(rest);
            lemma_kept_add(ts, 1, g);
            if g < rest.len() {
                lemma_kept_add(ts, 1, g + 1);
            }
            if ts[0] is Colon {
                assert(stripped.skip(1) =~= without_spaces(rest));
            }
        } else {
            assert(ts.take(0) =~= Seq::empty());
            assert(stripped[0] == ts[0]);
        }
    }
}

/// A value reads the same without the whitespace behind its first token.
pub proof fn lemma_value_without_spaces(first: TokenView, rest: Seq<TokenView>, coerce: bool)
    ensures
        value_of(first, without_spaces(rest), coerce) == respanned(
            rest,
            value_of(first, rest, coerce),
        ),
    decreases rest.len(), 1nat,
{
    match first {
        TokenView::LeftBrace => lemma_members_without_spaces(rest, coerce),
        TokenView::LeftBracket => lemma_elements_without_spaces(rest, coerce),
        _ => {
            assert(rest.take(0) =~= Seq::empty());
        },
    }
}

/// The members of an object read the same without whitespace.
pub proof fn lemma_members_without_spaces(ts: Seq<TokenView>, coerce: bool)
    ensures
        members_of(without_spaces(ts), coerce) == respanned(ts, members_of(ts, coerce)),
    decreases ts.len(), 0nat,
{
    let stripped = without_spaces(ts);
    if ts.len() > 0 {
        let rest = ts.skip(1);
        lemma_kept_one(ts);
        lemma_members_span(rest, coerce);
        match ts[0] {
            TokenView::RightBrace => {},
            TokenView::Space => {
                lemma_members_without_spaces(rest, coerce);
                if let Ok((members, m)) = members_of(rest, coerce) {
                    lemma_kept_add(ts, 1, m);
                    assert(Seq::<Field>::empty() + members =~= members);
                }
            },
            TokenView::Comma => {
                lemma_members_without_spaces(rest, coerce);
                assert(stripped.skip(1) =~= without_spaces(rest));
                if let Ok((members, m)) = members_of(rest, coerce) {
                    lemma_kept_add(ts, 1, m);
                }
            },
            TokenView::String(key) => {
                assert(stripped.skip(1) =~= without_spaces(rest));
                lemma_gap_without_spaces(rest);
                let g = gap_len(rest);
                let at = 1 + g;
                let g_kept = gap_len(without_spaces(rest));
                let at_kept = 1 + g_kept;
                if at < ts.len() {
                    let behind = after(ts, at + 1);
                    lemma_gap_len_bound(without_spaces(rest));
                    assert(stripped[at_kept as int] == without_spaces(rest)[g_kept as int]);
                    assert(rest[g as int] == ts[at as int]);
                    lemma_kept_add(ts, 1, g + 1);
                    lemma_after_kept(ts, at + 1);
                    assert(kept(ts, at + 1) == at_kept + 1);
                    lemma_value_without_spaces(ts[at as int], behind, coerce);
                    lemma_value_span(ts[at as int], behind, coerce);
                    if let Ok((value, n)) = value_of(ts[at as int], behind, coerce) {
                        let n_kept = kept(behind, n);
                        let tail = after(ts, at + 1 + n);
                        assert(after(behind, n) =~= tail);
                        lemma_after_kept(behind, n);
                        lemma_kept_add(ts, at + 1, n);
                        lemma_after_kept(ts, at + 1 + n);
                        assert(after(stripped, at_kept + 1 + n_kept) == without_spaces(tail));
                        lemma_members_without_spaces(tail, coerce);
                        lemma_members_span(tail, coerce);
                        if let Ok((others, m)) = members_of(tail, coerce) {
                            lemma_kept_add(ts, at + 1 + n, m);
                        }
                    }
                }
            },
            _ => {},
        }
    }
}

/// The elements of an array read the same without whitespace.
pub proof fn lemma_elements_without_spaces(ts: Seq<TokenView>, coerce: bool)
    ensures
        elements_of(without_spaces(ts), coerce) == respanned(ts, elements_of(ts, coerce)),
    decreases ts.len(), 0nat,
{
    let stripped = without_spaces(ts);
    if ts.len() > 0 {
        let rest = ts.skip(1);
        lemma_kept_one(ts);
        lemma_elements_span(rest, coerce);
        match ts[0] {
            TokenView::RightBracket => {},
            TokenView::Space => {
                lemma_elements_without_spaces(rest, coerce);
                if let Ok((items, m)) = elements_of(rest, coerce) {
                    lemma_kept_add(ts, 1, m);
                    assert(Seq::<Json>::empty() + items =~= items);
                }
            },
            TokenView::Comma => {
                lemma_elements_without_spaces(rest, coerce);
                assert(stripped.skip(1) =~= without_spaces(rest));
                if let Ok((items, m)) = elements_of(rest, coerce) {
                    lemma_kept_add(ts, 1, m);
                }
            },
            first => {
                assert(stripped.skip(1) =~= without_spaces(rest));
                lemma_value_without_spaces(first, rest, coerce);
                lemma_value_span(first, rest, coerce);
                if let Ok((value, n)) = value_of(first, rest, coerce) {
                    let n_kept = kept(rest, n);
                    let tail = after(ts, 1 + n);
                    assert(after(rest, n) =~= tail);
                    lemma_after_kept(rest, n);
                    lemma_kept_add(ts, 1, n);
                    lemma_after_kept(ts, 1 + n);
                    assert(after(stripped, 1 + n_kept) == without_spaces(tail));
                    lemma_elements_without_spaces(tail, coerce);
                    lemma_elements_span(tail, coerce);
                    if let Ok((others, m)) = elements_of(tail, coerce) {
                        lemma_kept_add(ts, 1 + n, m);
                    }
                }
            },
        }
    }
}

/// Whitespace behind the first token does not change what a token sequence
/// holds: without it, the sequence holds the same document or fails with
/// the same error.
pub proof fn lemma_document_without_spaces(ts: Seq<TokenView>, coerce: bool)
    requires
        ts.len() == 0 || !(ts[0] is Space),
    ensures
        document_of(without_spaces(ts), coerce) == document_of(ts, coerce),
{
    if ts.len() > 0 {
        let stripped = without_spaces(ts);
        assert(stripped[0] == ts[0]);
        assert(stripped.skip(1) =~= without_spaces(ts.skip(1)));
        lemma_value_without_spaces(ts[0], ts.skip(1), coerce);
    }
}

} // verus!
