use haversine_json::lexer::{tokenize, LexError};
use haversine_json::number::check_float_literal;
use haversine_json::text::string_of_bytes;
use haversine_json::token::Token;

fn string(text: &str) -> Token {
    Token::String(text.to_string())
}

fn number(text: &str) -> Token {
    Token::Number(text.to_string())
}

#[test]
fn test_boolean() {
    let json_data = b"{\"key\": true}, {\"key\": false}, {\"key\": null}";
    let tokens = tokenize(json_data).unwrap();
    assert_eq!(
        tokens,
        vec![
            Token::LeftBrace,
            Token::String("key".to_string()),
            Token::Colon,
            Token::Space,
            Token::Boolean(true),
            Token::RightBrace,
            Token::Comma,
            Token::Space,
            Token::LeftBrace,
            Token::String("key".to_string()),
            Token::Colon,
            Token::Space,
            Token::Boolean(false),
            Token::RightBrace,
            Token::Comma,
            Token::Space,
            Token::LeftBrace,
            Token::String("key".to_string()),
            Token::Colon,
            Token::Space,
            Token::Null,
            Token::RightBrace
        ]
    );
}

#[test]
fn tokenize_object_with_boolean() {
    assert_eq!(
        tokenize(b"{\"key\": true}"),
        Ok(vec![
            Token::LeftBrace,
            string("key"),
            Token::Colon,
            Token::Space,
            Token::Boolean(true),
            Token::RightBrace,
        ])
    );
}

#[test]
fn tokenize_empty_text() {
    assert_eq!(tokenize(b""), Ok(vec![]));
}

#[test]
fn tokenize_punctuation() {
    assert_eq!(
        tokenize(b"{}[],:"),
        Ok(vec![
            Token::LeftBrace,
            Token::RightBrace,
            Token::LeftBracket,
            Token::RightBracket,
            Token::Comma,
            Token::Colon,
        ])
    );
}

#[test]
fn tokenize_whitespace_is_not_collapsed() {
    assert_eq!(
        tokenize(b" \t\r\n"),
        Ok(vec![Token::Space, Token::Space, Token::Space, Token::Space])
    );
}

#[test]
fn tokenize_numbers_keep_their_text() {
    assert_eq!(
        tokenize(b"[1, 2.5, -3e1]"),
        Ok(vec![
            Token::LeftBracket,
            number("1"),
            Token::Comma,
            Token::Space,
            number("2.5"),
            Token::Comma,
            Token::Space,
            number("-3e1"),
            Token::RightBracket,
        ])
    );
}

#[test]
fn tokenize_number_is_greedy() {
    assert_eq!(tokenize(b"12.5E+3"), Ok(vec![number("12.5E+3")]));
    assert_eq!(tokenize(b"7 8"), Ok(vec![number("7"), Token::Space, number("8")]));
    assert_eq!(tokenize(b"1."), Ok(vec![number("1.")]));
    assert_eq!(tokenize(b"-.5"), Ok(vec![number("-.5")]));
}

#[test]
fn tokenize_malformed_number() {
    assert_eq!(tokenize(b"1-2-3"), Err(LexError::MalformedNumber));
    assert_eq!(tokenize(b"-"), Err(LexError::MalformedNumber));
    assert_eq!(tokenize(b"[1e]"), Err(LexError::MalformedNumber));
    assert_eq!(tokenize(b"1.2.3"), Err(LexError::MalformedNumber));
    assert_eq!(tokenize(b"-."), Err(LexError::MalformedNumber));
    assert_eq!(tokenize(b"1e+"), Err(LexError::MalformedNumber));
    assert_eq!(tokenize(b"3+4"), Err(LexError::MalformedNumber));
}

#[test]
fn tokenize_string_escapes() {
    assert_eq!(tokenize(b"\"a\\\"b\""), Ok(vec![string("a\"b")]));
    assert_eq!(tokenize(b"\"a\\\\\""), Ok(vec![string("a\\")]));
    assert_eq!(tokenize(b"\"a\\nb\""), Ok(vec![string("anb")]));
    assert_eq!(tokenize(b"\"\""), Ok(vec![string("")]));
    assert_eq!(tokenize(b"\"{[,:]} 12\""), Ok(vec![string("{[,:]} 12")]));
}

#[test]
fn tokenize_string_bytes_become_characters() {
    assert_eq!(tokenize(&[0x22, 0xE9, 0x22]), Ok(vec![string("\u{e9}")]));
    assert_eq!(string_of_bytes(&[0x41, 0xFF, 0x00]), "A\u{ff}\u{0}".to_string());
    assert_eq!(string_of_bytes(b""), String::new());
}

#[test]
fn tokenize_unterminated_string() {
    assert_eq!(tokenize(b"\"abc"), Err(LexError::UnexpectedEof));
    assert_eq!(tokenize(b"\""), Err(LexError::UnexpectedEof));
    assert_eq!(tokenize(b"\"abc\\"), Err(LexError::UnexpectedEof));
    assert_eq!(tokenize(b"\"abc\\\""), Err(LexError::UnexpectedEof));
}

#[test]
fn tokenize_keywords_by_first_byte() {
    assert_eq!(tokenize(b"true"), Ok(vec![Token::Boolean(true)]));
    assert_eq!(tokenize(b"false"), Ok(vec![Token::Boolean(false)]));
    assert_eq!(tokenize(b"null"), Ok(vec![Token::Null]));
    assert_eq!(tokenize(b"txyz"), Ok(vec![Token::Boolean(true)]));
    assert_eq!(tokenize(b"f{}[]"), Ok(vec![Token::Boolean(false)]));
    assert_eq!(tokenize(b"n\"\"\","), Ok(vec![Token::Null, Token::Comma]));
}

#[test]
fn tokenize_truncated_keyword() {
    assert_eq!(tokenize(b"tru"), Err(LexError::UnexpectedEof));
    assert_eq!(tokenize(b"fals"), Err(LexError::UnexpectedEof));
    assert_eq!(tokenize(b"[nul"), Err(LexError::UnexpectedEof));
    assert_eq!(tokenize(b"t"), Err(LexError::UnexpectedEof));
}

#[test]
fn tokenize_invalid_character() {
    assert_eq!(tokenize(b"{key: 1}"), Err(LexError::InvalidCharacter(b'k')));
    assert_eq!(tokenize(b"+1"), Err(LexError::InvalidCharacter(b'+')));
    assert_eq!(tokenize(b".5"), Err(LexError::InvalidCharacter(b'.')));
    assert_eq!(tokenize(b"[1, x]"), Err(LexError::InvalidCharacter(b'x')));
    assert_eq!(tokenize(&[0x00]), Err(LexError::InvalidCharacter(0)));
}

#[test]
fn tokenize_first_error_wins() {
    assert_eq!(tokenize(b"1-2 x"), Err(LexError::MalformedNumber));
    assert_eq!(tokenize(b"x 1-2"), Err(LexError::InvalidCharacter(b'x')));
    assert_eq!(tokenize(b"? \"open"), Err(LexError::InvalidCharacter(b'?')));
}

#[test]
fn tokenize_trailing_whitespace_adds_space_tokens() {
    let text = b"{\"a\": [1, 2]}";
    let tokens = tokenize(text).unwrap();
    let mut longer = text.to_vec();
    longer.extend_from_slice(b" \n\t");
    let mut expected = tokens.clone();
    expected.push(Token::Space);
    expected.push(Token::Space);
    expected.push(Token::Space);
    assert_eq!(tokenize(&longer), Ok(expected));
}

#[test]
fn tokenize_concatenation_at_a_boundary() {
    let a = b"[1,\"x\"";
    let b = b",true]";
    let mut whole = a.to_vec();
    whole.extend_from_slice(b);
    let mut expected = tokenize(a).unwrap();
    expected.extend(tokenize(b).unwrap());
    assert_eq!(tokenize(&whole), Ok(expected));
}

#[test]
fn float_literal_grammar() {
    for text in ["0", "1", "-1", "+1", "1.", ".5", "-.5", "1.5", "1e5", "1E5", "1e+5", "1e-5", "1.e5", "12.34e-56", "007"] {
        assert!(check_float_literal(text.as_bytes()), "{}", text);
    }
    for text in ["", "-", "+", ".", "-.", "e5", "1e", "1e+", "1e5.", "1..2", "1.2.3", "1-2", "--1", "1e5e5", "1 ", " 1", "1x", "inf", "nan"] {
        assert!(!check_float_literal(text.as_bytes()), "{}", text);
    }
}

#[test]
fn float_literal_grammar_agrees_with_float_conversion() {
    let alphabet = [b'0', b'7', b'.', b'e', b'E', b'+', b'-'];
    let mut texts: Vec<Vec<u8>> = vec![vec![]];
    let mut from = 0;
    for _ in 0..5 {
        let upto = texts.len();
        for i in from..upto {
            for b in alphabet {
                let mut longer = texts[i].clone();
                longer.push(b);
                texts.push(longer);
            }
        }
        from = upto;
    }
    for text in texts {
        let as_str = std::str::from_utf8(&text).unwrap();
        assert_eq!(check_float_literal(&text), as_str.parse::<f64>().is_ok(), "{}", as_str);
    }
}
