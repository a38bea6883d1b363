//! The structural parser: recursive descent from tokens to a document tree.

use vstd::prelude::*;
use vstd::string::StringExecFns;
use crate::grammar::{
    after, document_of, elements_of, gap_len, is_filler, is_key_gap, join, members_of,
    string_value, value_of, ParseError, Reading,
};
use crate::token::{tokens_view, Token, TokenView};
use crate::value::{
    lemma_array_view, lemma_object_view, members_view, values_view, Field, Json, Member, Value,
};

verus! {

/// Joining twice is joining the concatenation over the sum of the spans.
pub proof fn lemma_join_twice<T>(a: Seq<T>, m: nat, b: Seq<T>, n: nat, tail: Reading<Seq<T>>)
    ensures
        join(a, m, join(b, n, tail)) == join(a + b, m + n, tail),
{
    match tail {
        Ok((items, _)) => {
            assert(a + (b + items) =~= (a + b) + items);
        },
        Err(_) => {},
    }
}

/// Inside a suffix, the tokens behind the first `n` are a later suffix.
pub proof fn lemma_after_skip(ts: Seq<TokenView>, k: nat, n: nat)
    requires
        k + n <= ts.len(),
    ensures
        after(ts.skip(k as int), n) == ts.skip((k + n) as int),
{
    assert(ts.skip(k as int).skip(n as int) =~= ts.skip((k + n) as int));
}

/// Whether `token` may stand between members or elements.
fn token_is_filler(token: &Token) -> (r: bool)
    ensures
        r == is_filler(token@),
{
    match token {
        Token::Space | Token::Comma => true,
        _ => false,
    }
}

/// Whether `token` may stand between a key and its value.
fn token_is_key_gap(token: &Token) -> (r: bool)
    ensures
        r == is_key_gap(token@),
{
    match token {
        Token::Space | Token::Colon => true,
        _ => false,
    }
}

/// Whether `text` reads as `word`.
fn text_is(text: &String, word: &str) -> (r: bool)
    ensures
        r == (text@ == word@),
{
    let other = String::from_str(word);
    text.eq(&other)
}

/// The value of a string token.
fn value_of_string(text: &String, coerce: bool) -> (value: Value)
    ensures
        value@ == string_value(text@, coerce),
{
    if coerce && text_is(text, "null") {
        Value::Null
    } else if coerce && text_is(text, "true") {
        Value::Boolean(true)
    } else if coerce && text_is(text, "false") {
        Value::Boolean(false)
    } else {
        Value::String(text.clone())
    }
}

/// Finds the first token at or behind `from` that is neither whitespace nor
/// a colon.
fn skip_key_gap(tokens: &[Token], from: usize) -> (at: usize)
    requires
        from <= tokens.len(),
    ensures
        from <= at <= tokens.len(),
        at - from == gap_len(tokens_view(tokens@).skip(from as int)),
{
    let ghost ts = tokens_view(tokens@);
    let mut at: usize = from;
    while at < tokens.len() && token_is_key_gap(&tokens[at])
        invariant
            from <= at <= tokens.len(),
            ts == tokens_view(tokens@),
            gap_len(ts.skip(from as int)) == (at - from) + gap_len(ts.skip(at as int)),
        decreases tokens.len() - at,
    {
        assert(ts.skip(at as int).skip(1) =~= ts.skip(at + 1));
        at += 1;
    }
    at
}

/// Reads the value that starts with the token at `at`. Gives it with the
/// index behind its last token.
fn parse_value(tokens: &[Token], at: usize, coerce: bool) -> (r: Result<(Value, usize), ParseError>)
    requires
        at < tokens.len(),
    ensures
        match r {
            Ok((value, next)) => at < next <= tokens.len() && value_of(
                tokens_view(tokens@)[at as int],
                tokens_view(tokens@).skip(at + 1),
                coerce,
            ) == Ok::<_, ParseError>((value@, (next - at - 1) as nat)),
            Err(e) => value_of(
                tokens_view(tokens@)[at as int],
                tokens_view(tokens@).skip(at + 1),
                coerce,
            ) == Err::<(Json, nat), _>(e),
        },
    decreases tokens.len() - at, 0nat,
{
    match &tokens[at] {
        Token::LeftBrace => match parse_members(tokens, at + 1, coerce) {
            Ok((members, next)) => {
                proof {
                    lemma_object_view(members);
                }
                Ok((Value::Object(members), next))
            },
            Err(e) => Err(e),
        },
        Token::LeftBracket => match parse_elements(tokens, at + 1, coerce) {
            Ok((items, next)) => {
                proof {
                    lemma_array_view(items);
                }
                Ok((Value::Array(items), next))
            },
            Err(e) => Err(e),
        },
        Token::String(text) => Ok((value_of_string(text, coerce), at + 1)),
        Token::Number(text) => Ok((Value::Number(text.clone()), at + 1)),
        Token::Boolean(b) => Ok((Value::Boolean(*b), at + 1)),
        Token::Null => Ok((Value::Null, at + 1)),
        _ => Err(ParseError::UnexpectedToken),
    }
}

/// Reads the members of an object whose opening brace stands just before
/// `start`. Gives them with the index behind the closing brace.
fn parse_members(tokens: &[Token], start: usize, coerce: bool) -> (r: Result<
    (Vec<Member>, usize),
    ParseError,
>)
    requires
        start <= tokens.len(),
    ensures
        match r {
            Ok((members, next)) => start < next <= tokens.len() && members_of(
                tokens_view(tokens@).skip(start as int),
                coerce,
            ) == Ok::<_, ParseError>((members_view(members@), (next - start) as nat)),
            Err(e) => members_of(tokens_view(tokens@).skip(start as int), coerce) == Err::<
                (Seq<Field>, nat),
                _,
            >(e),
        },
    decreases tokens.len() - start, 1nat,
{
    let ghost ts = tokens_view(tokens@);
    let mut members: Vec<Member> = Vec::new();
    let mut k: usize = start;
    assert(members_view(members@) =~= Seq::empty());
    proof {
        lemma_join_empty(members_of(ts.skip(start as int), coerce));
    }
    while k < tokens.len()
        invariant
            start <= k <= tokens.len(),
            ts == tokens_view(tokens@),
            members_of(ts.skip(start as int), coerce) == join(
                members_view(members@),
                (k - start) as nat,
                members_of(ts.skip(k as int), coerce),
            ),
        decreases tokens.len() - k,
    {
        let ghost here = ts.skip(k as int);
        let ghost before = members_view(members@);
        assert(here[0] == ts[k as int]);
        match &tokens[k] {
            Token::RightBrace => {
                assert(before + Seq::<Field>::empty() =~= before);
                return Ok((members, k + 1));
            },
            Token::Space | Token::Comma => {
                proof {
                    assert(here.skip(1) =~= ts.skip(k + 1));
                    lemma_join_twice(
                        before,
                        (k - start) as nat,
                        Seq::empty(),
                        1,
                        members_of(ts.skip(k + 1), coerce),
                    );
                    assert(before + Seq::<Field>::empty() =~= before);
                }
                k += 1;
            },
            Token::String(key) => {
                assert(here.skip(1) =~= ts.skip(k + 1));
                let at = skip_key_gap(tokens, k + 1);
                if at >= tokens.len() {
                    return Err(ParseError::UnexpectedEof);
                }
                proof {
                    lemma_after_skip(ts, k as nat, (at - k + 1) as nat);
                    assert(here[at - k] == ts[at as int]);
                }
                match parse_value(tokens, at, coerce) {
                    Ok((value, next)) => {
                        let member = Member { key: key.clone(), value };
                        proof {
                            lemma_after_skip(ts, k as nat, (next - k) as nat);
                            lemma_join_twice(
                                before,
                                (k - start) as nat,
                                seq![member@],
                                (next - k) as nat,
                                members_of(ts.skip(next as int), coerce),
                            );
                            assert(members_view(members@.push(member)) =~= before + seq![
                                member@,
                            ]);
                        }
                        members.push(member);
                        k = next;
                    },
                    Err(e) => {
                        return Err(e);
                    },
                }
            },
            _ => {
                return Err(ParseError::UnexpectedToken);
            },
        }
    }
    Err(ParseError::UnexpectedEof)
}

/// Reads the elements of an array whose opening bracket stands just before
/// `start`. Gives them with the index behind the closing bracket.
fn parse_elements(tokens: &[Token], start: usize, coerce: bool) -> (r: Result<
    (Vec<Value>, usize),
    ParseError,
>)
    requires
        start <= tokens.len(),
    ensures
        match r {
            Ok((items, next)) => start < next <= tokens.len() && elements_of(
                tokens_view(tokens@).skip(start as int),
                coerce,
            ) == Ok::<_, ParseError>((values_view(items@), (next - start) as nat)),
            Err(e) => elements_of(tokens_view(tokens@).skip(start as int), coerce) == Err::<
                (Seq<Json>, nat),
                _,
            >(e),
        },
    decreases tokens.len() - start, 1nat,
{
    let ghost ts = tokens_view(tokens@);
    let mut items: Vec<Value> = Vec::new();
    let mut k: usize = start;
    assert(values_view(items@) =~= Seq::empty());
    proof {
        lemma_join_empty(elements_of(ts.skip(start as int), coerce));
    }
    while k < tokens.len()
        invariant
            start <= k <= tokens.len(),
            ts == tokens_view(tokens@),
            elements_of(ts.skip(start as int), coerce) == join(
                values_view(items@),
                (k - start) as nat,
                elements_of(ts.skip(k as int), coerce),
            ),
        decreases tokens.len() - k,
    {
        let ghost here = ts.skip(k as int);
        let ghost before = values_view(items@);
        assert(here[0] == ts[k as int]);
        assert(here.skip(1) =~= ts.skip(k + 1));
        match &tokens[k] {
            Token::RightBracket => {
                assert(before + Seq::<Json>::empty() =~= before);
                return Ok((items, k + 1));
            },
            Token::Space | Token::Comma => {
                proof {
                    lemma_join_twice(
                        before,
                        (k - start) as nat,
                        Seq::empty(),
                        1,
                        elements_of(ts.skip(k + 1), coerce),
                    );
                    assert(before + Seq::<Json>::empty() =~= before);
                }
                k += 1;
            },
            _ => {
                match parse_value(tokens, k, coerce) {
                    Ok((value, next)) => {
                        proof {
                            lemma_after_skip(ts, k as nat, (next - k) as nat);
                            lemma_join_twice(
                                before,
                                (k - start) as nat,
                                seq![value@],
                                (next - k) as nat,
                                elements_of(ts.skip(next as int), coerce),
                            );
                            assert(values_view(items@.push(value)) =~= before + seq![value@]);
                        }
                        items.push(value);
                        k = next;
                    },
                    Err(e) => {
                        return Err(e);
                    },
                }
            },
        }
    }
    Err(ParseError::UnexpectedEof)
}

/// Joining nothing over no span changes nothing.
pub proof fn lemma_join_empty<T>(tail: Reading<Seq<T>>)
    ensures
        join(Seq::empty(), 0, tail) == tail,
{
    match tail {
        Ok((items, _)) => {
            assert(Seq::<T>::empty() + items =~= items);
        },
        Err(_) => {},
    }
}

/// Reads the document that `tokens` holds. With `coerce_literals`, a string
/// whose text is `null`, `true` or `false` becomes the literal of that name.
///
/// Succeeds exactly where [`document_of`] gives a tree, and returns that
/// tree; fails with the error that [`document_of`] gives otherwise. The root
/// of a document is an object or an array.
pub fn parse_document(tokens: &[Token], coerce_literals: bool) -> (result: Result<
    Value,
    ParseError,
>)
    ensures
        match result {
            Ok(value) => document_of(tokens_view(tokens@), coerce_literals) == Ok::<
                _,
                ParseError,
            >(value@) && (value@ is Object || value@ is Array),
            Err(e) => document_of(tokens_view(tokens@), coerce_literals) == Err::<Json, _>(e),
        },
{
    if tokens.len() == 0 {
        return Err(ParseError::EmptyInput);
    }
    match &tokens[0] {
        Token::LeftBrace | Token::LeftBracket => match parse_value(tokens, 0, coerce_literals) {
            Ok((value, _)) => Ok(value),
            Err(e) => Err(e),
        },
        _ => Err(ParseError::UnexpectedToken),
    }
}

/// Reads the document that `tokens` holds. Every string stays a string.
pub fn parse(tokens: &[Token]) -> (result: Result<Value, ParseError>)
    ensures
        match result {
            Ok(value) => document_of(tokens_view(tokens@), false) == Ok::<_, ParseError>(value@)
                && (value@ is Object || value@ is Array),
            Err(e) => document_of(tokens_view(tokens@), false) == Err::<Json, _>(e),
        },
{
    parse_document(tokens, false)
}

} // verus!
