//! Whole texts, from bytes to documents.
use libporte::ast::{parse, validate};
use libporte::err::TokenizeError;
use libporte::number::Digit::{D0, D1, D2, D3, D5};
use libporte::number::{Number, Sign};
use libporte::token::Token;
use libporte::value::Value;

fn whole(digits: Vec<libporte::number::Digit>) -> Value {
    Value::Number(Number::new(Sign::Positive, digits, None, None))
}

#[test]
fn array_of_numbers_and_an_object() {
    let expected = Value::Array(vec![
        whole(vec![D1]),
        whole(vec![D2]),
        whole(vec![D3]),
        Value::Object(vec![]),
    ]);
    assert_eq!(Ok(expected), parse(b"[1,2,3,{}]"));
}

#[test]
fn object_with_an_array() {
    let expected = Value::Object(vec![(
        "a".to_string(),
        Value::Array(vec![whole(vec![D1]), whole(vec![D2])]),
    )]);
    assert_eq!(Ok(expected), parse(b"{\"a\":[1,2]}"));
}

#[test]
fn leading_zero_is_rejected() {
    let rest = Number::new(Sign::Positive, vec![D1, D2, D3], None, None);
    assert_eq!(
        Err(TokenizeError::UnexpectedToken(Token::Number(rest))),
        parse(b"[0123]")
    );
    assert!(validate(b"[0123]").is_err());
    assert!(validate(b"-012").is_err());
    assert_eq!(Ok(whole(vec![D0])), parse(b"0"));
}

#[test]
fn trailing_comma_is_rejected() {
    assert_eq!(
        Err(TokenizeError::UnexpectedToken(Token::ArrayEnd)),
        parse(b"[1,2,]")
    );
    assert_eq!(
        Err(TokenizeError::UnexpectedToken(Token::ObjectEnd)),
        parse(b"{\"a\":1,}")
    );
    assert_eq!(
        Err(TokenizeError::UnexpectedToken(Token::ValueSeparator)),
        parse(b"[1,,2]")
    );
    assert_eq!(
        Err(TokenizeError::UnexpectedToken(Token::ValueSeparator)),
        parse(b"[,1]")
    );
}

#[test]
fn premature_end() {
    assert_eq!(Err(TokenizeError::InputEndedEarly), parse(b"{\"a\":"));
    assert_eq!(Err(TokenizeError::InputEndedEarly), parse(b""));
    assert_eq!(Err(TokenizeError::InputEndedEarly), parse(b"  \n "));
    assert_eq!(Err(TokenizeError::InputEndedEarly), parse(b"["));
    assert_eq!(Err(TokenizeError::InputEndedEarly), parse(b"[1"));
    assert_eq!(Err(TokenizeError::InputEndedEarly), parse(b"[1,"));
    assert_eq!(Err(TokenizeError::InputEndedEarly), parse(b"{"));
    assert_eq!(Err(TokenizeError::InputEndedEarly), parse(b"{\"a\""));
    assert_eq!(Err(TokenizeError::InputEndedEarly), parse(b"{\"a\":1"));
    assert_eq!(Err(TokenizeError::InputEndedEarly), parse(b"{\"a\":1,"));
    assert_eq!(Err(TokenizeError::InputEndedEarly), parse(b"[[]"));
    assert_eq!(Err(TokenizeError::InputEndedEarly), validate(b"{\"a\":"));
}

#[test]
fn trailing_garbage() {
    assert_eq!(Err(TokenizeError::InputTooLong), parse(b"1 2"));
    assert_eq!(Err(TokenizeError::InputTooLong), parse(b"[] []"));
    assert_eq!(Err(TokenizeError::InputTooLong), parse(b"{}]"));
    assert_eq!(Err(TokenizeError::InputTooLong), parse(b"null,"));
    assert_eq!(Err(TokenizeError::InputTooLong), validate(b"1 2"));
}

#[test]
fn white_space_around_a_document() {
    assert_eq!(Ok(whole(vec![D1])), parse(b"1 "));
    assert_eq!(Ok(whole(vec![D1])), parse(b" \t\r\n1\n\n"));
    assert_eq!(Ok(Value::Array(vec![])), parse(b" [ ] "));
    assert_eq!(Ok(Value::Object(vec![])), parse(b"{\n}"));
    assert_eq!(Ok(()), validate(b" [ 1 , 2 ] "));
}

#[test]
fn unicode_escapes() {
    assert_eq!(Ok(Value::String("A".to_string())), parse(b"\"\\u0041\""));
    assert_eq!(
        Ok(Value::String("\u{1F600}".to_string())),
        parse(b"\"\\uD83D\\uDE00\"")
    );
    assert_eq!(
        Ok(Value::String("\u{10000}".to_string())),
        parse(b"\"\\uD800\\uDC00\"")
    );
    assert_eq!(
        Ok(Value::String("\u{10FFFF}".to_string())),
        parse(b"\"\\uDBFF\\uDFFF\"")
    );
}

#[test]
fn broken_surrogates() {
    assert_eq!(
        Err(TokenizeError::BigMessWithSurrogatePairs),
        parse(b"\"\\uD83D\"")
    );
    assert_eq!(
        Err(TokenizeError::BigMessWithSurrogatePairs),
        parse(b"\"\\uD83Dabc\"")
    );
    assert_eq!(
        Err(TokenizeError::BigMessWithSurrogatePairs),
        parse(b"\"\\uD83D\\n\"")
    );
    assert_eq!(
        Err(TokenizeError::BigMessWithSurrogatePairs),
        parse(b"\"\\uD83D\\u0041\"")
    );
    assert_eq!(
        Err(TokenizeError::BigMessWithSurrogatePairs),
        parse(b"\"\\uD83D\\uD83D\"")
    );
    assert_eq!(Err(TokenizeError::BigMessWithSurrogatePairs), parse(b"\"\\uD83D"));
    assert_eq!(
        Err(TokenizeError::InvalidUnicodeCodePoint),
        parse(b"\"\\uDE00\"")
    );
    assert_eq!(
        Err(TokenizeError::ExpectedAHexdigit),
        parse(b"\"\\uD83D\\uDE0\"")
    );
    assert_eq!(Err(TokenizeError::InputEndedEarly), parse(b"\"\\uD83D\\uDE"));
}

#[test]
fn validating_twice_gives_the_same() {
    let texts: [&[u8]; 6] = [
        b"[1,2,3,{}]",
        b"{\"a\":[1,2]}",
        b"[1,2,]",
        b"{\"a\":",
        b"1 2",
        b"\"\\uD83D\"",
    ];
    for text in texts {
        let first = validate(text);
        let second = validate(text);
        assert_eq!(first, second);
        assert_eq!(first.is_ok(), second.is_ok());
    }
}

#[test]
fn validate_agrees_with_parse() {
    let texts: [&[u8]; 14] = [
        b"[1,2,3,{}]",
        b"{\"a\":[1,2]}",
        b"[0123]",
        b"[1,2,]",
        b"{\"a\":",
        b"1 2",
        b"\"\\u0041\"",
        b"\"\\uD83D\"",
        b"",
        b"nul",
        b"{\"a\":{\"b\":[true,false,null,-1.5e+3,\"x\"]},\"a\":[]}",
        b"[[[[[[[[]]]]]]]]",
        b"[@]",
        b"\xff",
    ];
    for text in texts {
        let parsed = parse(text);
        let validated = validate(text);
        assert_eq!(parsed.is_ok(), validated.is_ok());
        assert_eq!(parsed.err(), validated.err());
    }
}

#[test]
fn members_keep_their_order_and_their_doubles() {
    let expected = Value::Object(vec![
        ("b".to_string(), whole(vec![D1])),
        ("a".to_string(), whole(vec![D2])),
        ("b".to_string(), whole(vec![D3])),
    ]);
    assert_eq!(Ok(expected), parse(b"{\"b\":1,\"a\":2,\"b\":3}"));
}

#[test]
fn nested_values_go_where_they_belong() {
    let expected = Value::Object(vec![
        (
            "k".to_string(),
            Value::Array(vec![
                Value::Object(vec![("x".to_string(), Value::Null)]),
                Value::Array(vec![Value::True, Value::False]),
                Value::String("s".to_string()),
            ]),
        ),
        (
            "n".to_string(),
            Value::Number(Number::new(
                Sign::Negative,
                vec![D1],
                Some(vec![D5]),
                Some((Sign::Negative, vec![D2])),
            )),
        ),
    ]);
    assert_eq!(
        Ok(expected),
        parse(b"{\"k\":[{\"x\":null},[true,false],\"s\"],\"n\":-1.5E-2}")
    );
}

#[test]
fn scalars_are_documents() {
    assert_eq!(Ok(Value::True), parse(b"true"));
    assert_eq!(Ok(Value::False), parse(b"false"));
    assert_eq!(Ok(Value::Null), parse(b"null"));
    assert_eq!(Ok(Value::String("".to_string())), parse(b"\"\""));
    assert_eq!(Ok(Value::String("a\"b".to_string())), parse(b"\"a\\\"b\""));
}

#[test]
fn deep_nesting_is_no_problem() {
    let depth = 10_000;
    let mut text = Vec::new();
    for _ in 0..depth {
        text.push(b'[');
    }
    for _ in 0..depth {
        text.push(b']');
    }
    assert_eq!(Ok(()), validate(&text));
    text.pop();
    assert_eq!(Err(TokenizeError::InputEndedEarly), validate(&text));
}

#[test]
fn lexical_errors_end_the_parse() {
    assert_eq!(Err(TokenizeError::UnkownToken), parse(b"[1, @]"));
    assert_eq!(Err(TokenizeError::UnkownToken), parse(b"1@"));
    assert_eq!(Err(TokenizeError::UnkownToken), parse(b"1 @"));
    assert_eq!(Err(TokenizeError::UnkownToken), parse(b"+1"));
    assert_eq!(Err(TokenizeError::LitteralDidntMatch), parse(b"[tru]"));
    assert_eq!(Err(TokenizeError::LitteralDidntMatch), parse(b"nul"));
    assert_eq!(Err(TokenizeError::LitteralDidntMatch), parse(b"fals"));
    assert_eq!(Err(TokenizeError::ExpectedADigit), parse(b"[1.]"));
    assert_eq!(Err(TokenizeError::ExpectedADigit), parse(b"1."));
    assert_eq!(Err(TokenizeError::ExpectedADigit), parse(b"[1e]"));
    assert_eq!(Err(TokenizeError::ExpectedADigit), parse(b"-x"));
    assert_eq!(Err(TokenizeError::InputEndedEarly), parse(b"1e"));
    assert_eq!(Err(TokenizeError::InputEndedEarly), parse(b"1e+"));
    assert_eq!(Err(TokenizeError::InputEndedEarly), parse(b"-"));
    assert_eq!(Err(TokenizeError::InputEndedEarly), parse(b"\"abc"));
    assert_eq!(
        Err(TokenizeError::ControlCharacterUnescaped),
        parse(b"\"a\nb\"")
    );
    assert_eq!(Err(TokenizeError::UnkownEscapeSequence), parse(b"\"\\x\""));
    assert_eq!(Err(TokenizeError::ExpectedAHexdigit), parse(b"\"\\u00g0\""));
}

#[test]
fn bytes_must_be_utf8() {
    assert_eq!(Err(TokenizeError::InvalidUTF8), parse(b"\"\xff\""));
    assert_eq!(Err(TokenizeError::InvalidUTF8), validate(b"[1,2]\x80"));
    assert_eq!(Err(TokenizeError::InvalidUTF8), parse(b"\"\xed\xa0\x80\""));
    assert_eq!(Err(TokenizeError::InvalidUTF8), parse(b"\"\xc0\xaf\""));
    assert_eq!(
        Ok(Value::String("h\u{e9}llo \u{4e16}\u{754c} \u{1F600}".to_string())),
        parse("\"h\u{e9}llo \u{4e16}\u{754c} \u{1F600}\"".as_bytes())
    );
}
