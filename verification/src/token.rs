//! Tokens: the lexical units that the lexer hands to the parser.

use vstd::prelude::*;

verus! {

/// One lexical unit of a JSON text.
#[derive(Debug, Clone, PartialEq)]
pub enum Token {
    /// `{`
    LeftBrace,
    /// `}`
    RightBrace,
    /// `[`
    LeftBracket,
    /// `]`
    RightBracket,
    /// `,`
    Comma,
    /// `:`
    Colon,
    /// One byte of whitespace: space, tab, carriage return or line feed.
    Space,
    /// A string literal, without its quotes and with its escapes resolved.
    String(String),
    /// A numeric literal, as the text of a decimal floating-point literal.
    Number(String),
    /// `true` or `false`
    Boolean(bool),
    /// `null`
    Null,
}

/// The mathematical value of a [`Token`].
pub ghost enum TokenView {
    LeftBrace,
    RightBrace,
    LeftBracket,
    RightBracket,
    Comma,
    Colon,
    Space,
    String(Seq<char>),
    Number(Seq<char>),
    Boolean(bool),
    Null,
}

impl View for Token {
    type V = TokenView;

    open spec fn view(&self) -> TokenView {
        match self {
            Token::LeftBrace => TokenView::LeftBrace,
            Token::RightBrace => TokenView::RightBrace,
            Token::LeftBracket => TokenView::LeftBracket,
            Token::RightBracket => TokenView::RightBracket,
            Token::Comma => TokenView::Comma,
            Token::Colon => TokenView::Colon,
            Token::Space => TokenView::Space,
            Token::String(text) => TokenView::String(text@),
            Token::Number(text) => TokenView::Number(text@),
            Token::Boolean(b) => TokenView::Boolean(*b),
            Token::Null => TokenView::Null,
        }
    }
}

/// The mathematical values of a sequence of tokens, in order.
pub open spec fn tokens_view(tokens: Seq<Token>) -> Seq<TokenView> {
    Seq::new(tokens.len(), |i: int| tokens[i]@)
}

} // verus!
