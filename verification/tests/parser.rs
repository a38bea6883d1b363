use haversine_json::document::{parse_coordinate_pairs, JsonError, Parser};
use haversine_json::grammar::ParseError;
use haversine_json::lexer::{tokenize, LexError};
use haversine_json::parser::{parse, parse_document};
use haversine_json::token::Token;
use haversine_json::value::{Member, Value};

fn num(text: &str) -> Value {
    Value::Number(text.to_string())
}

fn text(s: &str) -> Value {
    Value::String(s.to_string())
}

fn member(key: &str, value: Value) -> Member {
    Member { key: key.to_string(), value }
}

fn float(value: &Value) -> f64 {
    match value {
        Value::Number(text) => text.parse::<f64>().unwrap(),
        other => panic!("not a number: {:?}", other),
    }
}

fn read(source: &[u8]) -> Result<Value, ParseError> {
    parse(&tokenize(source).unwrap())
}

#[test]
fn parse_array_of_numbers() {
    let doc = read(b"[1, 2.5, -3e1]").unwrap();
    assert_eq!(doc, Value::Array(vec![num("1"), num("2.5"), num("-3e1")]));
    match doc {
        Value::Array(items) => {
            assert_eq!(items.len(), 3);
            assert_eq!(float(&items[0]), 1.0);
            assert_eq!(float(&items[1]), 2.5);
            assert_eq!(float(&items[2]), -30.0);
        }
        other => panic!("not an array: {:?}", other),
    }
}

#[test]
fn parse_empty_containers() {
    assert_eq!(read(b"{}"), Ok(Value::Object(vec![])));
    assert_eq!(read(b"[]"), Ok(Value::Array(vec![])));
    assert_eq!(read(b"{ \n }"), Ok(Value::Object(vec![])));
    assert_eq!(read(b"[ , ]"), Ok(Value::Array(vec![])));
}

#[test]
fn parse_empty_input() {
    assert_eq!(parse(&[]), Err(ParseError::EmptyInput));
    assert_eq!(parse_document(&[], true), Err(ParseError::EmptyInput));
    assert_eq!(parse_coordinate_pairs(b""), Err(JsonError::Parse(ParseError::EmptyInput)));
}

#[test]
fn parse_unquoted_key_fails_in_the_lexer() {
    assert_eq!(
        parse_coordinate_pairs(b"{key: 1}"),
        Err(JsonError::Lex(LexError::InvalidCharacter(b'k')))
    );
}

#[test]
fn parse_nested_containers() {
    let doc = read(b"{\"a\": {\"b\": [1, 2]}}").unwrap();
    assert_eq!(
        doc,
        Value::Object(vec![member(
            "a",
            Value::Object(vec![member("b", Value::Array(vec![num("1"), num("2")]))])
        )])
    );
    match doc {
        Value::Object(outer) => match &outer[0].value {
            Value::Object(inner) => match &inner[0].value {
                Value::Array(items) => {
                    assert_eq!(float(&items[0]), 1.0);
                    assert_eq!(float(&items[1]), 2.0);
                }
                other => panic!("not an array: {:?}", other),
            },
            other => panic!("not an object: {:?}", other),
        },
        other => panic!("not an object: {:?}", other),
    }
}

#[test]
fn parse_quoted_literal_stays_a_string() {
    assert_eq!(read(b"[\"true\"]"), Ok(Value::Array(vec![text("true")])));
    assert_eq!(read(b"[\"false\"]"), Ok(Value::Array(vec![text("false")])));
    assert_eq!(read(b"[\"null\"]"), Ok(Value::Array(vec![text("null")])));
    assert_eq!(
        read(b"{\"k\": \"true\"}"),
        Ok(Value::Object(vec![member("k", text("true"))]))
    );
}

#[test]
fn parse_quoted_literal_with_coercion() {
    let tokens = tokenize(b"[\"true\", \"false\", \"null\", \"True\", \"nul\", true]").unwrap();
    assert_eq!(
        parse_document(&tokens, true),
        Ok(Value::Array(vec![
            Value::Boolean(true),
            Value::Boolean(false),
            Value::Null,
            text("True"),
            text("nul"),
            Value::Boolean(true),
        ]))
    );
    assert_eq!(
        parse_document(&tokens, false),
        Ok(Value::Array(vec![
            text("true"),
            text("false"),
            text("null"),
            text("True"),
            text("nul"),
            Value::Boolean(true),
        ]))
    );
}

#[test]
fn parse_coercion_leaves_keys_alone() {
    let tokens = tokenize(b"{\"true\": \"null\"}").unwrap();
    assert_eq!(
        parse_document(&tokens, true),
        Ok(Value::Object(vec![member("true", Value::Null)]))
    );
}

#[test]
fn parse_scalars_in_an_object() {
    assert_eq!(
        read(b"{\"s\": \"x\", \"n\": -1.5, \"t\": true, \"f\": false, \"z\": null}"),
        Ok(Value::Object(vec![
            member("s", text("x")),
            member("n", num("-1.5")),
            member("t", Value::Boolean(true)),
            member("f", Value::Boolean(false)),
            member("z", Value::Null),
        ]))
    );
}

#[test]
fn parse_keeps_member_order_and_duplicates() {
    assert_eq!(
        read(b"{\"b\": 1, \"a\": 2, \"b\": 3}"),
        Ok(Value::Object(vec![
            member("b", num("1")),
            member("a", num("2")),
            member("b", num("3")),
        ]))
    );
}

#[test]
fn parse_root_must_be_a_container() {
    assert_eq!(read(b","), Err(ParseError::UnexpectedToken));
    assert_eq!(read(b"1"), Err(ParseError::UnexpectedToken));
    assert_eq!(read(b"\"a\""), Err(ParseError::UnexpectedToken));
    assert_eq!(read(b"true"), Err(ParseError::UnexpectedToken));
    assert_eq!(read(b"null"), Err(ParseError::UnexpectedToken));
    assert_eq!(read(b"}"), Err(ParseError::UnexpectedToken));
    assert_eq!(read(b" {}"), Err(ParseError::UnexpectedToken));
}

#[test]
fn parse_unexpected_token() {
    assert_eq!(read(b"{1: 2}"), Err(ParseError::UnexpectedToken));
    assert_eq!(read(b"{true: 2}"), Err(ParseError::UnexpectedToken));
    assert_eq!(read(b"{[]}"), Err(ParseError::UnexpectedToken));
    assert_eq!(read(b"{:}"), Err(ParseError::UnexpectedToken));
    assert_eq!(read(b"{]"), Err(ParseError::UnexpectedToken));
    assert_eq!(read(b"{\"a\":}"), Err(ParseError::UnexpectedToken));
    assert_eq!(read(b"{\"a\",1}"), Err(ParseError::UnexpectedToken));
    assert_eq!(read(b"{\"a\": ]}"), Err(ParseError::UnexpectedToken));
    assert_eq!(read(b"[}"), Err(ParseError::UnexpectedToken));
    assert_eq!(read(b"[:]"), Err(ParseError::UnexpectedToken));
    assert_eq!(read(b"[1, {\"a\": 1, 2}]"), Err(ParseError::UnexpectedToken));
}

#[test]
fn parse_unexpected_eof() {
    assert_eq!(read(b"{"), Err(ParseError::UnexpectedEof));
    assert_eq!(read(b"["), Err(ParseError::UnexpectedEof));
    assert_eq!(read(b"{\"a\": 1"), Err(ParseError::UnexpectedEof));
    assert_eq!(read(b"{\"a\""), Err(ParseError::UnexpectedEof));
    assert_eq!(read(b"{\"a\": "), Err(ParseError::UnexpectedEof));
    assert_eq!(read(b"[1, 2"), Err(ParseError::UnexpectedEof));
    assert_eq!(read(b"[1, [2]"), Err(ParseError::UnexpectedEof));
    assert_eq!(read(b"{\"a\": {\"b\": 1}"), Err(ParseError::UnexpectedEof));
    assert_eq!(read(b"[ , "), Err(ParseError::UnexpectedEof));
}

#[test]
fn parse_first_error_wins() {
    assert_eq!(read(b"[1, :, "), Err(ParseError::UnexpectedToken));
    assert_eq!(read(b"{\"a\": [1, 2"), Err(ParseError::UnexpectedEof));
}

#[test]
fn parse_separators_are_optional() {
    assert_eq!(read(b"[1 2]"), Ok(Value::Array(vec![num("1"), num("2")])));
    assert_eq!(read(b"[,1,,2,]"), Ok(Value::Array(vec![num("1"), num("2")])));
    assert_eq!(
        read(b"{\"a\" 1 \"b\" : : 2}"),
        Ok(Value::Object(vec![member("a", num("1")), member("b", num("2"))]))
    );
}

#[test]
fn parse_ignores_what_follows_the_root() {
    assert_eq!(read(b"{} ]"), Ok(Value::Object(vec![])));
    assert_eq!(
        read(b"{\"key\": true}, {\"key\": false}, {\"key\": null}"),
        Ok(Value::Object(vec![member("key", Value::Boolean(true))]))
    );
    assert_eq!(read(b"[1] 2 3"), Ok(Value::Array(vec![num("1")])));
}

#[test]
fn parse_trailing_whitespace_gives_the_same_document() {
    let source = b"{\"a\": {\"b\": [1, 2]}}";
    let mut longer = source.to_vec();
    longer.extend_from_slice(b"  \r\n\t ");
    assert_eq!(read(&longer), read(source));
    assert_eq!(parse_coordinate_pairs(&longer), parse_coordinate_pairs(source));
    assert!(parse_coordinate_pairs(source).is_ok());
}

#[test]
fn parse_compact_text_round_trip() {
    let doc = Value::Object(vec![
        member("pairs", Value::Array(vec![
            Value::Object(vec![member("x0", num("-1.5")), member("y0", num("2e3"))]),
            Value::Object(vec![]),
            Value::Array(vec![]),
        ])),
        member("quote \" and \\", text("a\"b\\c")),
        member("", Value::Null),
        member("t", Value::Boolean(true)),
        member("f", Value::Boolean(false)),
    ]);
    let source = b"{\"pairs\":[{\"x0\":-1.5,\"y0\":2e3},{},[]],\"quote \\\" and \\\\\":\"a\\\"b\\\\c\",\"\":null,\"t\":true,\"f\":false}";
    assert_eq!(parse_coordinate_pairs(source), Ok(doc));
}

#[test]
fn parse_from_tokens_written_by_hand() {
    let tokens = vec![
        Token::LeftBracket,
        Token::Number("4".to_string()),
        Token::Comma,
        Token::LeftBrace,
        Token::String("k".to_string()),
        Token::Colon,
        Token::Null,
        Token::RightBrace,
        Token::RightBracket,
    ];
    assert_eq!(
        parse(&tokens),
        Ok(Value::Array(vec![num("4"), Value::Object(vec![member("k", Value::Null)])]))
    );
}

#[test]
fn parser_keeps_the_tokens_of_the_last_text() {
    let mut parser = Parser::new();
    assert_eq!(parser.tokens, vec![]);
    assert_eq!(parser.parse(b"[1]"), Ok(()));
    assert_eq!(
        parser.tokens,
        vec![Token::LeftBracket, Token::Number("1".to_string()), Token::RightBracket]
    );
    assert_eq!(parser.parse(b"[x]"), Err(LexError::InvalidCharacter(b'x')));
    assert_eq!(
        parser.tokens,
        vec![Token::LeftBracket, Token::Number("1".to_string()), Token::RightBracket]
    );
    assert_eq!(parse(&parser.tokens), Ok(Value::Array(vec![num("1")])));
}

#[test]
fn parse_generated_pairs() {
    let source = b"{\"pairs\": [\n{\"x0\":-12.5, \"y0\":40.25, \"x1\":100, \"y1\":-89.125},\n{\"x0\":1e-3, \"y0\":0, \"x1\":-0.5, \"y1\":7}\n]}";
    let doc = parse_coordinate_pairs(source).unwrap();
    let pairs = match &doc {
        Value::Object(members) => {
            assert_eq!(members.len(), 1);
            assert_eq!(members[0].key, "pairs");
            match &members[0].value {
                Value::Array(items) => items,
                other => panic!("not an array: {:?}", other),
            }
        }
        other => panic!("not an object: {:?}", other),
    };
    assert_eq!(pairs.len(), 2);
    let expected = [[-12.5, 40.25, 100.0, -89.125], [0.001, 0.0, -0.5, 7.0]];
    let keys = ["x0", "y0", "x1", "y1"];
    for (pair, want) in pairs.iter().zip(expected) {
        match pair {
            Value::Object(members) => {
                assert_eq!(members.len(), 4);
                for i in 0..4 {
                    assert_eq!(members[i].key, keys[i]);
                    assert_eq!(float(&members[i].value), want[i]);
                }
            }
            other => panic!("not an object: {:?}", other),
        }
    }
}

fn coerced(value: Value) -> Value {
    match value {
        Value::Object(members) => Value::Object(
            members
                .into_iter()
                .map(|m| Member { key: m.key, value: coerced(m.value) })
                .collect(),
        ),
        Value::Array(items) => Value::Array(items.into_iter().map(coerced).collect()),
        Value::String(s) if s == "null" => Value::Null,
        Value::String(s) if s == "true" => Value::Boolean(true),
        Value::String(s) if s == "false" => Value::Boolean(false),
        other => other,
    }
}

#[test]
fn parse_with_coercion_is_parse_then_coerce() {
    let sources: [&[u8]; 8] = [
        b"{\"a\": \"true\", \"null\": [\"null\", {\"b\": \"false\", \"c\": \"x\"}], \"d\": 1}",
        b"[\"true\", [\"false\", [\"null\", [\"nul\"]]]]",
        b"[]",
        b"{\"a\": \"true\"",
        b"[\"null\", :]",
        b"\"true\"",
        b"",
        b"{\"true\" \"true\"}",
    ];
    for source in sources {
        let tokens = tokenize(source).unwrap();
        assert_eq!(parse_document(&tokens, true), parse(&tokens).map(coerced));
    }
}

#[test]
fn parse_reads_numbers_that_convert_to_floats() {
    let doc = parse_coordinate_pairs(b"[0, -0, 1., -.5, 1e5, 1E-5, 12.5e+3, 007]").unwrap();
    let expected = [0.0, -0.0, 1.0, -0.5, 1e5, 1e-5, 12.5e3, 7.0];
    match doc {
        Value::Array(items) => {
            assert_eq!(items.len(), expected.len());
            for (item, want) in items.iter().zip(expected) {
                assert_eq!(float(item), want);
            }
        }
        other => panic!("not an array: {:?}", other),
    }
}

#[test]
fn parse_layout_does_not_matter() {
    let sources: [&[u8]; 9] = [
        b"{ \"a\" : 1 ,\n\t\"b\" : [ 1 , 2 , { } ] }  ",
        b"[ ]",
        b"{\r\n}",
        b"[1 ,",
        b"{ \"a\" ",
        b"{ \"a\" : ",
        b"{ \"a\" : }",
        b"[ 1 : 2 ]",
        b"{\"pairs\": [\n{\"x0\":1, \"y0\":2, \"x1\":3, \"y1\":4}\n]}",
    ];
    for source in sources {
        let tokens = tokenize(source).unwrap();
        let kept: Vec<Token> = tokens.iter().filter(|t| **t != Token::Space).cloned().collect();
        assert!(kept.len() < tokens.len());
        assert_eq!(parse(&kept), parse(&tokens));
        assert_eq!(parse_document(&kept, true), parse_document(&tokens, true));
    }
}

#[test]
fn parse_leading_whitespace_is_not_skipped() {
    let tokens = tokenize(b" []").unwrap();
    assert_eq!(parse(&tokens), Err(ParseError::UnexpectedToken));
    assert_eq!(parse(&tokens[1..]), Ok(Value::Array(vec![])));
}
