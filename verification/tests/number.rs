//! The number model, the sources of characters and the error classes.
use libporte::ast::validate;
use libporte::chars::Chars;
use libporte::err::{ErrorClass, TokenizeError};
use libporte::idioms;
use libporte::idioms_slice::{self, read_one_or_more};
use libporte::lexer_slice::{
    read_alse, read_code_unit, read_digit, read_exp, read_frac, read_hexdigit, read_int,
    read_neg_sign, read_pn_sign, read_rue, read_token, read_ull, read_white_space,
};
use libporte::number::Digit::{D0, D1, D2, D3, D4, D5, D6, D7, D8, D9};
use libporte::number::{clear_leading_zeros, Number, Sign};
use libporte::token::Token;
use libporte::valider::{exit_code, EXIT_FAILURE, EXIT_INVALID, EXIT_VALID};

fn chars(text: &str) -> Vec<char> {
    text.chars().collect()
}

#[test]
fn leading_zeros_are_cleared() {
    let mut v = vec![D0, D0, D5, D0];
    assert_eq!(2, clear_leading_zeros(&mut v));
    assert_eq!(vec![D5, D0], v);

    let mut v = vec![D0, D0, D0];
    assert_eq!(2, clear_leading_zeros(&mut v));
    assert_eq!(vec![D0], v);

    let mut v = vec![D0];
    assert_eq!(0, clear_leading_zeros(&mut v));
    assert_eq!(vec![D0], v);

    let mut v = vec![D7, D0, D0];
    assert_eq!(0, clear_leading_zeros(&mut v));
    assert_eq!(vec![D7, D0, D0], v);

    let mut v = vec![D0, D9];
    assert_eq!(1, clear_leading_zeros(&mut v));
    assert_eq!(vec![D9], v);
}

#[test]
fn scientific_notation_normalises_the_integer_part() {
    let mut n = Number::new(
        Sign::Negative,
        vec![D0, D0, D4, D2],
        Some(vec![D0, D1]),
        Some((Sign::Positive, vec![D0, D3])),
    );
    n.scientific_notation();
    assert_eq!(
        Number::new(
            Sign::Negative,
            vec![D4, D2],
            Some(vec![D0, D1]),
            Some((Sign::Positive, vec![D0, D3])),
        ),
        n
    );

    let mut n = Number::new(Sign::Positive, vec![D0, D0], None, None);
    n.scientific_notation();
    assert_eq!(Number::new(Sign::Positive, vec![D0], None, None), n);

    let mut n = Number::new(Sign::Positive, vec![D1, D0], None, None);
    n.scientific_notation();
    assert_eq!(Number::new(Sign::Positive, vec![D1, D0], None, None), n);
}

#[test]
fn numbers_hold_their_parts() {
    let a = Number::new(Sign::Positive, vec![D1], Some(vec![D0]), None);
    let b = Number::new(Sign::Positive, vec![D1], None, None);
    let c = Number::new(Sign::Negative, vec![D1], None, None);
    let d = Number::new(Sign::Positive, vec![D1], None, Some((Sign::Positive, vec![D0])));
    let e = Number::new(Sign::Positive, vec![D1], None, Some((Sign::Negative, vec![D0])));
    assert_ne!(a, b);
    assert_ne!(b, c);
    assert_ne!(b, d);
    assert_ne!(d, e);
    assert_eq!(b.clone(), b);
}

#[test]
fn every_digit_is_read() {
    let text = chars("0123456789");
    let digits = [D0, D1, D2, D3, D4, D5, D6, D7, D8, D9];
    for (i, d) in digits.iter().enumerate() {
        assert_eq!(Ok((*d, i + 1)), read_digit(&text, i));
    }
    assert_eq!(Err(TokenizeError::InputEndedEarly), read_digit(&text, 10));
    assert_eq!(Err(TokenizeError::InputEndedEarly), read_digit(&text, 11));
    assert_eq!(Err(TokenizeError::ExpectedADigit), read_digit(&chars("a"), 0));
    assert_eq!(Err(TokenizeError::ExpectedADigit), read_digit(&chars("/"), 0));
    assert_eq!(Err(TokenizeError::ExpectedADigit), read_digit(&chars(":"), 0));
}

#[test]
fn integer_parts() {
    assert_eq!(Ok((vec![D0], 1)), read_int(&chars("0"), 0));
    assert_eq!(Ok((vec![D0], 1)), read_int(&chars("007"), 0));
    assert_eq!(Ok((vec![D7, D0, D0], 3)), read_int(&chars("700"), 0));
    assert_eq!(Ok((vec![D7, D0], 3)), read_int(&chars("x70.5"), 1));
    assert_eq!(Err(TokenizeError::ExpectedADigit), read_int(&chars(".5"), 0));
    assert_eq!(Err(TokenizeError::InputEndedEarly), read_int(&chars("12"), 2));
}

#[test]
fn fractional_parts() {
    assert_eq!(Ok((None, 0)), read_frac(&chars("5"), 0));
    assert_eq!(Ok((None, 3)), read_frac(&chars("5"), 3));
    assert_eq!(Ok((Some(vec![D0, D0, D5]), 4)), read_frac(&chars(".005e1"), 0));
    assert_eq!(Err(TokenizeError::ExpectedADigit), read_frac(&chars(".e1"), 0));
    assert_eq!(Err(TokenizeError::ExpectedADigit), read_frac(&chars("."), 0));
}

#[test]
fn exponents() {
    assert_eq!(Ok((None, 0)), read_exp(&chars("5"), 0));
    assert_eq!(Ok((None, 9)), read_exp(&chars("e5"), 9));
    assert_eq!(
        Ok((Some((Sign::Positive, vec![D0, D5])), 3)),
        read_exp(&chars("e05,"), 0)
    );
    assert_eq!(
        Ok((Some((Sign::Positive, vec![D5])), 3)),
        read_exp(&chars("E+5"), 0)
    );
    assert_eq!(
        Ok((Some((Sign::Negative, vec![D5])), 3)),
        read_exp(&chars("e-5"), 0)
    );
    assert_eq!(Err(TokenizeError::ExpectedADigit), read_exp(&chars("e+-5"), 0));
    assert_eq!(Err(TokenizeError::ExpectedADigit), read_exp(&chars("ex"), 0));
    assert_eq!(Err(TokenizeError::InputEndedEarly), read_exp(&chars("e"), 0));
    assert_eq!(Err(TokenizeError::InputEndedEarly), read_exp(&chars("E-"), 0));
}

#[test]
fn signs() {
    assert_eq!(Ok((Sign::Negative, 1)), read_neg_sign(&chars("-1"), 0));
    assert_eq!(Ok((Sign::Positive, 0)), read_neg_sign(&chars("+1"), 0));
    assert_eq!(Ok((Sign::Positive, 0)), read_neg_sign(&chars("1"), 0));
    assert_eq!(Ok((Sign::Positive, 5)), read_neg_sign(&chars("-"), 5));
    assert_eq!(Ok((Sign::Negative, 1)), read_pn_sign(&chars("-1"), 0));
    assert_eq!(Ok((Sign::Positive, 1)), read_pn_sign(&chars("+1"), 0));
    assert_eq!(Ok((Sign::Positive, 0)), read_pn_sign(&chars("1"), 0));
    assert_eq!(Ok((Sign::Positive, 5)), read_pn_sign(&chars("+"), 5));
}

#[test]
fn white_space_is_read_to_its_end() {
    assert_eq!(Ok(((), 4)), read_white_space(&chars(" \t\n\rx "), 0));
    assert_eq!(Ok(((), 0)), read_white_space(&chars("x "), 0));
    assert_eq!(Ok(((), 2)), read_white_space(&chars("x "), 1));
    assert_eq!(Ok(((), 7)), read_white_space(&chars("x "), 7));
    assert_eq!(Ok(((), 0)), read_white_space(&chars("\u{0B}"), 0));
    assert_eq!(Ok(((), 0)), read_white_space(&chars("\u{A0}"), 0));
}

#[test]
fn literals() {
    assert_eq!(Ok(((), 4)), read_rue(&chars("true"), 1));
    assert_eq!(Ok(((), 5)), read_alse(&chars("false"), 1));
    assert_eq!(Ok(((), 4)), read_ull(&chars("null"), 1));
    assert_eq!(Err(TokenizeError::LitteralDidntMatch), read_rue(&chars("tru"), 1));
    assert_eq!(Err(TokenizeError::LitteralDidntMatch), read_rue(&chars("trUe"), 1));
    assert_eq!(Err(TokenizeError::LitteralDidntMatch), read_alse(&chars("fals"), 1));
    assert_eq!(Err(TokenizeError::LitteralDidntMatch), read_ull(&chars("nul"), 1));
    assert_eq!(Err(TokenizeError::LitteralDidntMatch), read_ull(&chars("null"), 9));
    assert_eq!(
        Ok(((), 4)),
        idioms_slice::read_string(&chars("POST / HTTP/1.1"), 0, "POST")
    );
    assert_eq!(
        Err(TokenizeError::LitteralDidntMatch),
        idioms_slice::read_string(&chars("HEAD / HTTP/1.1"), 0, "POST")
    );
    assert_eq!(Ok(((), 2)), idioms_slice::read_string(&chars("ab"), 2, ""));
    assert_eq!(Ok(((), 7)), idioms_slice::read_string(&chars("ab"), 7, ""));
}

#[test]
fn one_or_more_hexdigits() {
    let text = chars("deadbeef");
    assert_eq!(
        Ok((vec![13, 14, 10, 13, 11, 14, 14, 15], 8usize)),
        read_one_or_more(&text, 0usize, read_hexdigit)
    );
    let text = chars("12x");
    assert_eq!(Ok((vec![D1, D2], 2)), read_one_or_more(&text, 0, read_digit));
    assert_eq!(Ok((vec![D2], 2)), read_one_or_more(&text, 1, read_digit));
    assert_eq!(
        Err(TokenizeError::ExpectedADigit),
        read_one_or_more(&text, 2, read_digit)
    );
    assert_eq!(
        Err(TokenizeError::InputEndedEarly),
        read_one_or_more(&text, 3, read_digit)
    );
}

#[test]
fn code_units() {
    assert_eq!(Ok((0xABCD, 4)), read_code_unit(&chars("abCD"), 0));
    assert_eq!(Ok((0x0041, 5)), read_code_unit(&chars("u00411"), 1));
    assert_eq!(Ok((0xFFFF, 4)), read_code_unit(&chars("ffff"), 0));
    assert_eq!(Err(TokenizeError::ExpectedAHexdigit), read_code_unit(&chars("00g0"), 0));
    assert_eq!(Err(TokenizeError::InputEndedEarly), read_code_unit(&chars("000"), 0));
}

#[test]
fn tokens_one_by_one() {
    let text = chars("[]{},: \n-1.5e3\"a\"truefalsenull");
    let mut pos = 0;
    let mut tokens = Vec::new();
    while let Ok((Some(t), new_pos)) = read_token(&text, pos) {
        assert!(new_pos > pos);
        pos = new_pos;
        tokens.push(t);
    }
    assert_eq!(text.len(), pos);
    assert_eq!(
        vec![
            Token::ArrayBegin,
            Token::ArrayEnd,
            Token::ObjectBegin,
            Token::ObjectEnd,
            Token::ValueSeparator,
            Token::NameSeparator,
            Token::WhiteSpace,
            Token::Number(Number::new(
                Sign::Negative,
                vec![D1],
                Some(vec![D5]),
                Some((Sign::Positive, vec![D3])),
            )),
            Token::String("a".to_string()),
            Token::True,
            Token::False,
            Token::Null,
        ],
        tokens
    );
    assert_eq!(Ok((None, pos)), read_token(&text, pos));
    assert_eq!(Ok((None, pos + 3)), read_token(&text, pos + 3));
    assert_eq!(Err(TokenizeError::UnkownToken), read_token(&chars("'a'"), 0));
}

#[test]
fn characters_from_bytes() {
    let mut source = Chars::new("a\u{e9}\u{1F600}".as_bytes());
    assert_eq!(Some(Ok('a')), source.next());
    assert_eq!(Some(Ok('\u{e9}')), source.next());
    assert_eq!(Some(Ok('\u{1F600}')), source.next());
    assert_eq!(None, source.next());
    assert_eq!(None, source.next());

    let mut source = Chars::new("a\u{e9}\u{1F600}".as_bytes());
    assert_eq!(Some(Ok('a')), source.next());
    assert_eq!(Ok(vec!['\u{e9}', '\u{1F600}']), source.read_all());
    assert_eq!(Ok(vec![]), source.read_all());

    let mut source = Chars::new(b"ab\xffcd");
    assert_eq!(Some(Err(TokenizeError::InvalidUTF8)), source.next());
    assert_eq!(Some(Err(TokenizeError::InvalidUTF8)), source.next());
    assert_eq!(Err(TokenizeError::InvalidUTF8), source.read_all());

    let mut source = Chars::new(b"");
    assert_eq!(None, source.next());
}

#[test]
fn literals_from_a_source() {
    let mut source = Chars::new(b"POST / HTTP/1.1");
    assert_eq!(Ok(()), idioms::read_string(&mut source, "POST"));
    assert_eq!(Some(Ok(' ')), source.next());

    let mut source = Chars::new(b"HEAD / HTTP/1.1");
    assert_eq!(
        Err(TokenizeError::LitteralDidntMatch),
        idioms::read_string(&mut source, "POST")
    );
    assert_eq!(Some(Ok('E')), source.next());

    let mut source = Chars::new(b"POTS");
    assert_eq!(
        Err(TokenizeError::LitteralDidntMatch),
        idioms::read_string(&mut source, "POST")
    );
    assert_eq!(Some(Ok('S')), source.next());

    let mut source = Chars::new(b"PO");
    assert_eq!(
        Err(TokenizeError::LitteralDidntMatch),
        idioms::read_string(&mut source, "POST")
    );
    assert_eq!(None, source.next());

    let mut source = Chars::new(b"PO");
    assert_eq!(Ok(()), idioms::read_string(&mut source, ""));
    assert_eq!(Some(Ok('P')), source.next());

    let mut source = Chars::new(b"\xff");
    assert_eq!(
        Err(TokenizeError::InvalidUTF8),
        idioms::read_string(&mut source, "POST")
    );
    assert_eq!(Ok(()), idioms::read_string(&mut source, ""));
}

#[test]
fn error_classes() {
    for e in [
        TokenizeError::ExpectedADigit,
        TokenizeError::ExpectedAHexdigit,
        TokenizeError::LitteralDidntMatch,
        TokenizeError::ControlCharacterUnescaped,
        TokenizeError::UnkownEscapeSequence,
        TokenizeError::InvalidUnicodeCodePoint,
        TokenizeError::UnkownToken,
        TokenizeError::BigMessWithSurrogatePairs,
        TokenizeError::InvalidSurrogatePairs,
        TokenizeError::InvalidUTF8,
    ] {
        assert_eq!(ErrorClass::Lexical, e.class());
        assert_eq!(EXIT_INVALID, exit_code(&Err(e)));
    }
    for e in [
        TokenizeError::UnexpectedToken(Token::ArrayEnd),
        TokenizeError::InputEndedEarly,
        TokenizeError::InputTooLong,
    ] {
        assert_eq!(ErrorClass::Grammar, e.class());
        assert_eq!(EXIT_INVALID, exit_code(&Err(e)));
    }
}

#[test]
fn exit_codes() {
    assert_eq!(0, EXIT_VALID);
    assert_eq!(1, EXIT_INVALID);
    assert_eq!(2, EXIT_FAILURE);
    assert_eq!(0, exit_code(&validate(b"[1,2,3,{}]")));
    assert_eq!(1, exit_code(&validate(b"[1,2,]")));
    assert_eq!(1, exit_code(&validate(b"\"\\uD83D\"")));
    assert_eq!(1, exit_code(&validate(b"\xff")));
    assert_eq!(0, exit_code(&Ok(())));
}
