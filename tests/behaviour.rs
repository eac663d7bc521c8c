use json_parser::parser::parse;
use json_parser::tokenizer::{is_num_char, Loc, ParsingError, ParsingErrorKind, TokenKind, Tokenizer};
use json_parser::{JsonVal, Number, ObjectMap};

fn parse_str(text: &str) -> Result<JsonVal, ParsingError> {
    parse(Tokenizer::from_str(text))
}

fn err_of(text: &str) -> (ParsingErrorKind, usize, usize) {
    let e = parse_str(text).unwrap_err();
    (e.kind, e.loc.line, e.loc.col)
}

fn first_of_array(text: &str) -> JsonVal {
    match parse_str(text).unwrap() {
        JsonVal::Array(mut v) => v.remove(0),
        other => panic!("expected an array, got {:?}", other),
    }
}

fn float_text(v: &JsonVal) -> String {
    match v {
        JsonVal::Number(Number::Float(t)) => t.clone(),
        other => panic!("expected a float, got {:?}", other),
    }
}

#[test]
fn empty_object_and_array() {
    match parse_str("{}").unwrap() {
        JsonVal::Object(m) => assert_eq!(m.len(), 0),
        other => panic!("{:?}", other),
    }
    assert_eq!(parse_str("[]").unwrap(), JsonVal::Array(vec![]));
    assert_eq!(parse_str("[null]").unwrap(), JsonVal::Array(vec![JsonVal::Null]));
}

#[test]
fn number_classification() {
    let v = first_of_array("[27.0E2]");
    assert_eq!(float_text(&v), "27.0E2");
    assert_eq!(float_text(&v).parse::<f64>().unwrap(), 2700.0);
    assert_eq!(first_of_array("[42]"), JsonVal::Number(Number::UnsignedInt(42)));
    assert_eq!(first_of_array("[-2]"), JsonVal::Number(Number::SignedInt(-2)));
    assert_eq!(float_text(&first_of_array("[3.1415]")).parse::<f64>().unwrap(), 3.1415);
    assert_eq!(float_text(&first_of_array("[4e-6]")).parse::<f64>().unwrap(), 0.000004);
    assert_eq!(float_text(&first_of_array("[5E6]")).parse::<f64>().unwrap(), 5000000.0);
}

#[test]
fn integer_limits() {
    assert_eq!(
        first_of_array("[18446744073709551615]"),
        JsonVal::Number(Number::UnsignedInt(u64::MAX))
    );
    assert_eq!(err_of("[18446744073709551616]"), (ParsingErrorKind::InvalidToken, 1, 2));
    assert_eq!(
        first_of_array("[-9223372036854775808]"),
        JsonVal::Number(Number::SignedInt(i64::MIN))
    );
    assert_eq!(err_of("[-9223372036854775809]"), (ParsingErrorKind::InvalidToken, 1, 2));
    assert_eq!(first_of_array("[+5]"), JsonVal::Number(Number::UnsignedInt(5)));
    assert_eq!(err_of("[1-2]"), (ParsingErrorKind::InvalidToken, 1, 2));
}

#[test]
fn float_shapes() {
    assert_eq!(float_text(&first_of_array("[1.]")), "1.");
    assert_eq!(float_text(&first_of_array("[0.123e+1]")), "0.123e+1");
    assert_eq!(float_text(&first_of_array("[-1.5E-3]")), "-1.5E-3");
    assert_eq!(err_of("[1.2.3]"), (ParsingErrorKind::InvalidToken, 1, 2));
    assert_eq!(err_of("[1e]"), (ParsingErrorKind::InvalidToken, 1, 2));
    assert_eq!(err_of("[1e5.0]"), (ParsingErrorKind::InvalidToken, 1, 2));
}

#[test]
fn trailing_comma_at_comma() {
    assert_eq!(err_of("{\"a\":1,}"), (ParsingErrorKind::InvalidTrailingComma, 1, 7));
    assert_eq!(err_of("[1, 2 ,\n ]"), (ParsingErrorKind::InvalidTrailingComma, 1, 7));
}

#[test]
fn bare_scalar_document() {
    assert_eq!(err_of("\"hello\""), (ParsingErrorKind::InvalidStartingToken, 1, 1));
    assert_eq!(err_of("  42 ,"), (ParsingErrorKind::InvalidStartingToken, 1, 3));
}

#[test]
fn duplicate_keys_last_wins() {
    match parse_str("{\"a\":1,\"a\":2}").unwrap() {
        JsonVal::Object(m) => {
            assert_eq!(m.len(), 1);
            assert_eq!(m.get("a"), Some(&JsonVal::Number(Number::UnsignedInt(2))));
        }
        other => panic!("{:?}", other),
    }
}

#[test]
fn key_order_kept() {
    match parse_str("{\"b\":1,\"a\":2,\"b\":3}").unwrap() {
        JsonVal::Object(m) => {
            assert_eq!(m.keys(), vec!["b".to_string(), "a".to_string()]);
            let (k, v) = m.get_index(0).unwrap();
            assert_eq!(k, "b");
            assert_eq!(v, &JsonVal::Number(Number::UnsignedInt(3)));
            assert!(m.get_index(2).is_none());
        }
        other => panic!("{:?}", other),
    }
}

#[test]
fn error_kinds() {
    assert_eq!(err_of("[1 2]"), (ParsingErrorKind::MissingEndingComma, 1, 4));
    assert_eq!(err_of("[é]"), (ParsingErrorKind::UnsupportedToken, 1, 2));
    assert_eq!(err_of("{1}"), (ParsingErrorKind::UnexpectedToken, 1, 2));
    assert_eq!(err_of("{\"a\" 1}"), (ParsingErrorKind::UnexpectedToken, 1, 2));
    assert_eq!(err_of("[\"a\": 1]"), (ParsingErrorKind::InvalidIdentInArray, 1, 2));
    assert_eq!(err_of("[tru]"), (ParsingErrorKind::InvalidToken, 1, 2));
    assert_eq!(err_of("{\"a\":}"), (ParsingErrorKind::InvalidToken, 1, 6));
    assert_eq!(err_of("[\"abc"), (ParsingErrorKind::UnterminatedString, 1, 2));
    assert_eq!(err_of("{\"a\":1 \"b\":2}"), (ParsingErrorKind::MissingEndingComma, 1, 8));
}

#[test]
fn locations_follow_lines() {
    assert_eq!(err_of("[\n  tru]"), (ParsingErrorKind::InvalidToken, 2, 3));
    assert_eq!(err_of("[\n\t1,\n  x]"), (ParsingErrorKind::InvalidToken, 3, 3));
}

#[test]
fn strings_keep_escapes() {
    assert_eq!(
        first_of_array("[\"a\\\"b\"]"),
        JsonVal::String("a\\\"b".to_string())
    );
    assert_eq!(first_of_array("[\"x:y\"]"), JsonVal::String("x:y".to_string()));
    assert_eq!(first_of_array("[\"\"]"), JsonVal::String(String::new()));
}

#[test]
fn bare_words() {
    assert_eq!(first_of_array("[true]"), JsonVal::Boolean(true));
    assert_eq!(first_of_array("[false ]"), JsonVal::Boolean(false));
    assert_eq!(first_of_array("[tr ue]"), JsonVal::Boolean(true));
    assert_eq!(err_of("[nul]"), (ParsingErrorKind::InvalidToken, 1, 2));
    assert_eq!(err_of("[nullx]"), (ParsingErrorKind::InvalidToken, 1, 2));
}

#[test]
fn nested_shape() {
    let v = parse_str("{\"a\": [1, [2, {\"b\": null}], {}], \"c\": \"d\"}").unwrap();
    match v {
        JsonVal::Object(m) => {
            assert_eq!(m.len(), 2);
            match m.get("a").unwrap() {
                JsonVal::Array(items) => {
                    assert_eq!(items.len(), 3);
                    match &items[1] {
                        JsonVal::Array(inner) => assert_eq!(inner.len(), 2),
                        other => panic!("{:?}", other),
                    }
                }
                other => panic!("{:?}", other),
            }
            assert_eq!(m.get("c"), Some(&JsonVal::String("d".to_string())));
        }
        other => panic!("{:?}", other),
    }
}

#[test]
fn printed_text() {
    let v = parse_str("{\"a\":[1,true],\"b\":{},\"c\":-7}").unwrap();
    assert_eq!(
        v.to_string(),
        "{\n    \"a\": [\n        1,\n        true,\n    ],\n    \"b\": {    },\n    \"c\": -7\n}"
    );
    assert_eq!(parse_str("[]").unwrap().to_string(), "[]");
    assert_eq!(first_of_array("[\"s\"]").to_string(), "\"s\"");
    assert_eq!(first_of_array("[null]").to_string(), "null");
    assert_eq!(first_of_array("[false]").to_string(), "false");
    assert_eq!(first_of_array("[27.0E2]").to_string(), "27.0E2");
    assert_eq!(first_of_array("[-9223372036854775808]").to_string(), "-9223372036854775808");
    assert_eq!(first_of_array("[18446744073709551615]").to_string(), "18446744073709551615");
    assert_eq!(first_of_array("[0]").to_string(), "0");
}

#[test]
fn printing_twice_is_equal() {
    let v = parse_str("{\"x\": [1, 2.5, \"y\", null], \"z\": {\"w\": false}}").unwrap();
    assert_eq!(v.to_string(), v.to_string());
}

#[test]
fn print_then_parse_gives_same_value() {
    let v = parse_str("{\"x\": {\"n\": -2, \"f\": 2.5e3, \"s\": \"y\"}, \"z\": null, \"e\": [], \"o\": {}}")
        .unwrap();
    let again = parse_str(&v.to_string()).unwrap();
    assert_eq!(again, v);
    assert_eq!(again.to_string(), v.to_string());
}

#[test]
fn printed_array_elements_end_with_comma() {
    let v = parse_str("[1]").unwrap();
    assert_eq!(v.to_string(), "[\n    1,\n]");
    assert_eq!(err_of(&v.to_string()), (ParsingErrorKind::InvalidTrailingComma, 2, 6));
}

#[test]
fn tokens_with_locations() {
    let mut t = Tokenizer::from_str("{\"a\": [1]}");
    let tok = t.next_token().unwrap();
    assert!(matches!(tok.kind, TokenKind::OpenBracket));
    assert_eq!(tok.loc, Loc { col: 1, line: 1 });
    let tok = t.next_token().unwrap();
    match tok.kind {
        TokenKind::Ident(s) => assert_eq!(s, "a"),
        other => panic!("{:?}", other),
    }
    assert_eq!(tok.loc, Loc { col: 2, line: 1 });
    assert!(matches!(t.next_token().unwrap().kind, TokenKind::Colon));
    assert!(matches!(t.next_token().unwrap().kind, TokenKind::OpenSqBracket));
    match t.next_token().unwrap().kind {
        TokenKind::Val(s) => assert_eq!(s, "1"),
        other => panic!("{:?}", other),
    }
    assert!(matches!(t.next_token().unwrap().kind, TokenKind::ClosedSqBracket));
    assert!(matches!(t.next_token().unwrap().kind, TokenKind::ClosedBracket));
    let end = t.next_token().unwrap();
    assert!(matches!(end.kind, TokenKind::End));
    assert_eq!(end.loc, Loc { col: 10, line: 1 });
}

#[test]
fn string_value_keeps_quotes_as_token() {
    let mut t = Tokenizer::from_iter("[\"q\" ]".chars().collect());
    t.next_token().unwrap();
    match t.next_token().unwrap().kind {
        TokenKind::Val(s) => assert_eq!(s, "\"q\""),
        other => panic!("{:?}", other),
    }
}

#[test]
fn expect_token_checks_kind() {
    let mut t = Tokenizer::from_str("[:");
    let e = t.expect_token(TokenKind::Colon).unwrap_err();
    assert_eq!(e.kind, ParsingErrorKind::UnexpectedToken);
    assert_eq!(e.loc, Loc { col: 1, line: 1 });
    assert!(t.expect_token(TokenKind::Colon).is_ok());
}

#[test]
fn object_map_operations() {
    let mut m = ObjectMap::new();
    assert_eq!(m.len(), 0);
    assert!(m.get("k").is_none());
    m.insert("k".to_string(), JsonVal::Null);
    m.insert("j".to_string(), JsonVal::Boolean(true));
    m.insert("k".to_string(), JsonVal::Boolean(false));
    assert_eq!(m.len(), 2);
    assert_eq!(m.get("k"), Some(&JsonVal::Boolean(false)));
    assert_eq!(m.keys(), vec!["k".to_string(), "j".to_string()]);
    let (k, v) = m.get_index(1).unwrap();
    assert_eq!(k, "j");
    assert_eq!(v, &JsonVal::Boolean(true));
}

#[test]
fn num_char_predicate() {
    for c in ['0', '9', 'e', 'E', '.', '-', '+'] {
        assert!(is_num_char(&c));
    }
    for c in ['a', 'x', ' ', ',', 'é'] {
        assert!(!is_num_char(&c));
    }
}

#[test]
fn draining_tokens() {
    let mut t = Tokenizer::from_str(" [1, \"a\"]\n");
    let toks = t.tokens().unwrap();
    assert_eq!(toks.len(), 6);
    assert!(matches!(toks[0].kind, TokenKind::OpenSqBracket));
    assert_eq!(toks[0].loc, Loc { col: 2, line: 1 });
    assert!(matches!(toks[2].kind, TokenKind::Comma));
    match &toks[3].kind {
        TokenKind::Val(s) => assert_eq!(s, "\"a\""),
        other => panic!("{:?}", other),
    }
    assert!(matches!(toks[5].kind, TokenKind::End));
    assert_eq!(toks[5].loc, Loc { col: 0, line: 2 });
    let mut bad = Tokenizer::from_str("[1,]");
    let e = bad.tokens().unwrap_err();
    assert_eq!(e.kind, ParsingErrorKind::InvalidTrailingComma);
    assert_eq!(e.loc, Loc { col: 3, line: 1 });
}

#[test]
fn negative_zero_stays_signed_when_printed() {
    let v = first_of_array("[-0]");
    assert_eq!(v, JsonVal::Number(Number::SignedInt(0)));
    assert_eq!(v.to_string(), "-0");
    let obj = parse_str("{\"a\":-0}").unwrap();
    assert_eq!(obj.to_string(), "{\n    \"a\": -0\n}");
    assert_eq!(parse_str(&obj.to_string()).unwrap(), obj);
}

#[test]
fn missing_comma_points_at_the_offending_character() {
    assert_eq!(err_of("[1\n2]"), (ParsingErrorKind::MissingEndingComma, 2, 1));
    assert_eq!(err_of("[2.5 x]"), (ParsingErrorKind::MissingEndingComma, 1, 6));
    assert_eq!(err_of("[1"), (ParsingErrorKind::MissingEndingComma, 1, 3));
}
