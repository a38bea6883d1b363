//! From bytes to a document in one step.

use vstd::prelude::*;
use crate::boundaries::{all_whitespace, lemma_trailing_whitespace};
use crate::grammar::{document_of, ParseError};
use crate::lexer::{lex, tokenize, LexError};
use crate::parser::parse;
use crate::layout::{lemma_document_without_spaces, without_spaces};
use crate::render::{is_document, render, tokens_of};
use crate::round_trip::{lemma_read_tokens, lemma_round_trip};
use crate::token::{tokens_view, Token, TokenView};
use crate::value::{Json, Value};
use crate::writable::{lemma_document_writable, lemma_lexed_tokens_writable};

verus! {

/// Why a text has no document.
#[derive(Debug, Clone, Copy, PartialEq, Eq)]
pub enum JsonError {
    /// The text has no token sequence.
    Lex(LexError),
    /// The tokens of the text hold no document.
    Parse(ParseError),
}

/// The document that the text `bytes` holds: the document of its tokens.
/// An error of the lexer comes before any error of the parser.
pub open spec fn read(bytes: Seq<u8>, coerce: bool) -> Result<Json, JsonError> {
    match lex(bytes) {
        Ok(tokens) => match document_of(tokens, coerce) {
            Ok(value) => Ok(value),
            Err(e) => Err(JsonError::Parse(e)),
        },
        Err(e) => Err(JsonError::Lex(e)),
    }
}

/// Holds the tokens of the text that it was last given.
pub struct Parser {
    pub tokens: Vec<Token>,
}

impl Parser {
    /// A parser that holds no token.
    pub fn new() -> (parser: Self)
        ensures
            parser.tokens@ == Seq::<Token>::empty(),
    {
        Parser { tokens: Vec::new() }
    }

    /// Lexes `json_data` and keeps its tokens. Where the text does not lex,
    /// the tokens held before stay.
    pub fn parse(&mut self, json_data: &[u8]) -> (result: Result<(), LexError>)
        ensures
            match result {
                Ok(_) => lex(json_data@) == Ok::<_, LexError>(tokens_view(final(self).tokens@)),
                Err(e) => lex(json_data@) == Err::<Seq<TokenView>, _>(e) && final(self).tokens
                    == old(self).tokens,
            },
    {
        match tokenize(json_data) {
            Ok(tokens) => {
                self.tokens = tokens;
                Ok(())
            },
            Err(e) => Err(e),
        }
    }
}

/// Reads the document that the text `json_data` holds.
///
/// Succeeds exactly where [`read`] gives a tree, and returns that tree;
/// fails with the error that [`read`] gives otherwise.
pub fn parse_coordinate_pairs(json_data: &[u8]) -> (result: Result<Value, JsonError>)
    ensures
        match result {
            Ok(value) => read(json_data@, false) == Ok::<_, JsonError>(value@) && is_document(
                value@,
            ),
            Err(e) => read(json_data@, false) == Err::<Json, _>(e),
        },
{
    proof {
        lemma_read_is_document(json_data@, false);
    }
    let mut parser = Parser::new();
    match parser.parse(json_data) {
        Ok(_) => match parse(parser.tokens.as_slice()) {
            Ok(value) => Ok(value),
            Err(e) => Err(JsonError::Parse(e)),
        },
        Err(e) => Err(JsonError::Lex(e)),
    }
}

/// What a text holds is a document: a tree that can be written down, with
/// an object or an array as its root.
pub proof fn lemma_read_is_document(bytes: Seq<u8>, coerce: bool)
    ensures
        match read(bytes, coerce) {
            Ok(value) => is_document(value),
            Err(_) => true,
        },
{
    lemma_lexed_tokens_writable(bytes);
    if let Ok(tokens) = lex(bytes) {
        lemma_document_writable(tokens, coerce);
    }
}

/// Writing down what a text holds and reading that gives the same
/// document: the compact text is a normal form of every text.
pub proof fn lemma_read_again(bytes: Seq<u8>)
    requires
        read(bytes, false) is Ok,
    ensures
        read(render(read(bytes, false)->Ok_0), false) == read(bytes, false),
{
    lemma_read_is_document(bytes, false);
    lemma_round_trip(read(bytes, false)->Ok_0);
}

/// Reading the compact text of a document gives the document back.
pub proof fn lemma_read_rendered(doc: Json)
    requires
        is_document(doc),
    ensures
        read(render(doc), false) == Ok::<_, JsonError>(doc),
{
    lemma_round_trip(doc);
}

/// A text whose tokens, whitespace apart, are the tokens of a document
/// holds that document, however its whitespace is laid out behind the first
/// token.
pub proof fn lemma_read_any_layout(bytes: Seq<u8>, doc: Json)
    requires
        doc is Object || doc is Array,
        lex(bytes) is Ok,
        without_spaces(lex(bytes)->Ok_0) == tokens_of(doc),
        !(lex(bytes)->Ok_0[0] is Space),
    ensures
        read(bytes, false) == Ok::<_, JsonError>(doc),
{
    lemma_read_tokens(doc);
    lemma_document_without_spaces(lex(bytes)->Ok_0, false);
}

/// Whitespace behind a text that holds a document changes nothing: the
/// longer text holds the same document.
pub proof fn lemma_read_trailing_whitespace(text: Seq<u8>, blanks: Seq<u8>, coerce: bool)
    requires
        read(text, coerce) is Ok,
        all_whitespace(blanks),
    ensures
        read(text + blanks, coerce) == read(text, coerce),
{
    lemma_trailing_whitespace(text, blanks, coerce);
}

} // verus!
