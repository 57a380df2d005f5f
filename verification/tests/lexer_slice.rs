//! The readers of the tokenizer, one by one.
use libporte::err::TokenizeError;
use libporte::lexer_slice::{
    read_escape_sequence, read_hexdigit, read_number, read_string, read_token,
};
use libporte::number::Digit::{D0, D1, D2, D3, D4, D5, D6, D7, D8, D9};
use libporte::number::{Number, Sign};
use libporte::token::Token;

#[test]
fn digits() {
    let s: Vec<char> = "0".chars().collect();
    let r = read_hexdigit(&s, 0_usize);
    assert_eq!(Ok((0_u8, 1)), r);
    let s: Vec<char> = "1".chars().collect();
    let r = read_hexdigit(&s, 0_usize);
    assert_eq!(Ok((1_u8, 1)), r);
    let s: Vec<char> = "2".chars().collect();
    let r = read_hexdigit(&s, 0_usize);
    assert_eq!(Ok((2_u8, 1)), r);
    let s: Vec<char> = "3".chars().collect();
    let r = read_hexdigit(&s, 0_usize);
    assert_eq!(Ok((3_u8, 1)), r);
    let s: Vec<char> = "4".chars().collect();
    let r = read_hexdigit(&s, 0_usize);
    assert_eq!(Ok((4_u8, 1)), r);
    let s: Vec<char> = "5".chars().collect();
    let r = read_hexdigit(&s, 0_usize);
    assert_eq!(Ok((5_u8, 1)), r);
    let s: Vec<char> = "6".chars().collect();
    let r = read_hexdigit(&s, 0_usize);
    assert_eq!(Ok((6_u8, 1)), r);
    let s: Vec<char> = "7".chars().collect();
    let r = read_hexdigit(&s, 0_usize);
    assert_eq!(Ok((7_u8, 1)), r);
    let s: Vec<char> = "8".chars().collect();
    let r = read_hexdigit(&s, 0_usize);
    assert_eq!(Ok((8_u8, 1)), r);
    let s: Vec<char> = "9".chars().collect();
    let r = read_hexdigit(&s, 0_usize);
    assert_eq!(Ok((9_u8, 1)), r);
}

#[test]
fn lower_case() {
    let s: Vec<char> = "a".chars().collect();
    let r = read_hexdigit(&s, 0_usize);
    assert_eq!(Ok((10_u8, 1)), r);
    let s: Vec<char> = "b".chars().collect();
    let r = read_hexdigit(&s, 0_usize);
    assert_eq!(Ok((11_u8, 1)), r);
    let s: Vec<char> = "c".chars().collect();
    let r = read_hexdigit(&s, 0_usize);
    assert_eq!(Ok((12_u8, 1)), r);
    let s: Vec<char> = "d".chars().collect();
    let r = read_hexdigit(&s, 0_usize);
    assert_eq!(Ok((13_u8, 1)), r);
    let s: Vec<char> = "e".chars().collect();
    let r = read_hexdigit(&s, 0_usize);
    assert_eq!(Ok((14_u8, 1)), r);
    let s: Vec<char> = "f".chars().collect();
    let r = read_hexdigit(&s, 0_usize);
    assert_eq!(Ok((15_u8, 1)), r);
}

#[test]
fn upper_case() {
    let s: Vec<char> = "A".chars().collect();
    let r = read_hexdigit(&s, 0_usize);
    assert_eq!(Ok((10_u8, 1)), r);
    let s: Vec<char> = "B".chars().collect();
    let r = read_hexdigit(&s, 0_usize);
    assert_eq!(Ok((11_u8, 1)), r);
    let s: Vec<char> = "C".chars().collect();
    let r = read_hexdigit(&s, 0_usize);
    assert_eq!(Ok((12_u8, 1)), r);
    let s: Vec<char> = "D".chars().collect();
    let r = read_hexdigit(&s, 0_usize);
    assert_eq!(Ok((13_u8, 1)), r);
    let s: Vec<char> = "E".chars().collect();
    let r = read_hexdigit(&s, 0_usize);
    assert_eq!(Ok((14_u8, 1)), r);
    let s: Vec<char> = "F".chars().collect();
    let r = read_hexdigit(&s, 0_usize);
    assert_eq!(Ok((15_u8, 1)), r);
}

#[test]
fn invalid() {
    let s: Vec<char> = "z".chars().collect();
    let r = read_hexdigit(&s, 0_usize);
    assert_eq!(Err(TokenizeError::ExpectedAHexdigit), r);
    let s: Vec<char> = "@".chars().collect();
    let r = read_hexdigit(&s, 0_usize);
    assert_eq!(Err(TokenizeError::ExpectedAHexdigit), r);
    let s: Vec<char> = "One".chars().collect();
    let r = read_hexdigit(&s, 0_usize);
    assert_eq!(Err(TokenizeError::ExpectedAHexdigit), r);
    let s: Vec<char> = "|ab".chars().collect();
    let r = read_hexdigit(&s, 0_usize);
    assert_eq!(Err(TokenizeError::ExpectedAHexdigit), r);
    let s: Vec<char> = "\0".chars().collect();
    let r = read_hexdigit(&s, 0_usize);
    assert_eq!(Err(TokenizeError::ExpectedAHexdigit), r);
    let s: Vec<char> = "\t".chars().collect();
    let r = read_hexdigit(&s, 0_usize);
    assert_eq!(Err(TokenizeError::ExpectedAHexdigit), r);
}

#[test]
fn update_position() {
    let s: Vec<char> = "0123456789aBcDeF".chars().collect();
    let r = read_hexdigit(&s, 0_usize);
    assert_eq!(Ok((0_u8, 1_usize)), r);
    let r = read_hexdigit(&s, 1_usize);
    assert_eq!(Ok((1_u8, 2_usize)), r);
    let r = read_hexdigit(&s, 2_usize);
    assert_eq!(Ok((2_u8, 3_usize)), r);
    let r = read_hexdigit(&s, 3_usize);
    assert_eq!(Ok((3_u8, 4_usize)), r);
    let r = read_hexdigit(&s, 4_usize);
    assert_eq!(Ok((4_u8, 5_usize)), r);
    let r = read_hexdigit(&s, 5_usize);
    assert_eq!(Ok((5_u8, 6_usize)), r);
    let r = read_hexdigit(&s, 6_usize);
    assert_eq!(Ok((6_u8, 7_usize)), r);
    let r = read_hexdigit(&s, 7_usize);
    assert_eq!(Ok((7_u8, 8_usize)), r);
    let r = read_hexdigit(&s, 8_usize);
    assert_eq!(Ok((8_u8, 9_usize)), r);
    let r = read_hexdigit(&s, 9_usize);
    assert_eq!(Ok((9_u8, 10_usize)), r);
    let r = read_hexdigit(&s, 10_usize);
    assert_eq!(Ok((10_u8, 11_usize)), r);
    let r = read_hexdigit(&s, 11_usize);
    assert_eq!(Ok((11_u8, 12_usize)), r);
    let r = read_hexdigit(&s, 12_usize);
    assert_eq!(Ok((12_u8, 13_usize)), r);
    let r = read_hexdigit(&s, 13_usize);
    assert_eq!(Ok((13_u8, 14_usize)), r);
    let r = read_hexdigit(&s, 14_usize);
    assert_eq!(Ok((14_u8, 15_usize)), r);
    let r = read_hexdigit(&s, 15_usize);
    assert_eq!(Ok((15_u8, 16_usize)), r);
}

#[test]
fn valid_single_chars() {
    let s: Vec<char> = "\"".chars().collect();
    let r = read_escape_sequence(&s, 0_usize);
    assert_eq!(Ok(('"', 1_usize)), r);
    let s: Vec<char> = "\\".chars().collect();
    let r = read_escape_sequence(&s, 0_usize);
    assert_eq!(Ok(('\\', 1_usize)), r);
    let s: Vec<char> = "/".chars().collect();
    let r = read_escape_sequence(&s, 0_usize);
    assert_eq!(Ok(('/', 1_usize)), r);
    let s: Vec<char> = "b".chars().collect();
    let r = read_escape_sequence(&s, 0_usize);
    assert_eq!(Ok(('\u{0008}', 1_usize)), r);
    let s: Vec<char> = "f".chars().collect();
    let r = read_escape_sequence(&s, 0_usize);
    assert_eq!(Ok(('\u{000C}', 1_usize)), r);
    let s: Vec<char> = "n".chars().collect();
    let r = read_escape_sequence(&s, 0_usize);
    assert_eq!(Ok(('\n', 1_usize)), r);
    let s: Vec<char> = "r".chars().collect();
    let r = read_escape_sequence(&s, 0_usize);
    assert_eq!(Ok(('\r', 1_usize)), r);
    let s: Vec<char> = "t".chars().collect();
    let r = read_escape_sequence(&s, 0_usize);
    assert_eq!(Ok(('\t', 1_usize)), r);
}

#[test]
fn invalid_single_chars() {
    let s: Vec<char> = " ".chars().collect();
    let r = read_escape_sequence(&s, 0_usize);
    assert_eq!(Err(TokenizeError::UnkownEscapeSequence), r);
    let s: Vec<char> = "1".chars().collect();
    let r = read_escape_sequence(&s, 0_usize);
    assert_eq!(Err(TokenizeError::UnkownEscapeSequence), r);
    let s: Vec<char> = "a".chars().collect();
    let r = read_escape_sequence(&s, 0_usize);
    assert_eq!(Err(TokenizeError::UnkownEscapeSequence), r);
    let s: Vec<char> = "\n".chars().collect();
    let r = read_escape_sequence(&s, 0_usize);
    assert_eq!(Err(TokenizeError::UnkownEscapeSequence), r);
}

#[test]
fn valid_unicode_escape() {
    let s: Vec<char> = "u0020".chars().collect();
    let r = read_escape_sequence(&s, 0_usize);
    assert_eq!(Ok((' ', s.len())), r);
    let s: Vec<char> = "u0061".chars().collect();
    let r = read_escape_sequence(&s, 0_usize);
    assert_eq!(Ok(('a', s.len())), r);
    let s: Vec<char> = "uABCD".chars().collect();
    let r = read_escape_sequence(&s, 0_usize);
    assert_eq!(Ok(('\u{ABCD}', s.len())), r);
    let s: Vec<char> = "uD057".chars().collect();
    let r = read_escape_sequence(&s, 0_usize);
    assert_eq!(Ok(('\u{D057}', s.len())), r);
}

#[test]
fn unicode_invalid_too_short() {
    let s: Vec<char> = "u0".chars().collect();
    let r = read_escape_sequence(&s, 0_usize);
    assert_eq!(Err(TokenizeError::InputEndedEarly), r);
    let s: Vec<char> = "u0 some garbage after the escape".chars().collect();
    let r = read_escape_sequence(&s, 0_usize);
    assert_eq!(Err(TokenizeError::ExpectedAHexdigit), r);
    let s: Vec<char> = "u".chars().collect();
    let r = read_escape_sequence(&s, 0_usize);
    assert_eq!(Err(TokenizeError::InputEndedEarly), r);
    let s: Vec<char> = "uFF".chars().collect();
    let r = read_escape_sequence(&s, 0_usize);
    assert_eq!(Err(TokenizeError::InputEndedEarly), r);
}

#[test]
fn unicode_is_exactly_4hexdigits() {
    let s: Vec<char> = "u00001".chars().collect();
    let r = read_escape_sequence(&s, 0_usize);
    assert_eq!(Ok(('\0', 5_usize)), r);
    let s: Vec<char> = "u000AFE".chars().collect();
    let r = read_escape_sequence(&s, 0_usize);
    assert_eq!(Ok(('\u{000A}', 5_usize)), r);
}

#[test]
fn lexer_slice_update_position() {
    let s: Vec<char> = "u0000\"\\bfnrtu0000".chars().collect();
    let r = read_escape_sequence(&s, 18_usize);
    assert_eq!(Err(TokenizeError::InputEndedEarly), r);
    let r = read_escape_sequence(&s, 0_usize);
    assert_eq!(Ok(('\0', 5_usize)), r);
    let r = read_escape_sequence(&s, 5_usize);
    assert_eq!(Ok(('"', 6_usize)), r);
    let r = read_escape_sequence(&s, 6_usize);
    assert_eq!(Ok(('\\', 7_usize)), r);
    let r = read_escape_sequence(&s, 7_usize);
    assert_eq!(Ok(('\u{0008}', 8_usize)), r);
    let r = read_escape_sequence(&s, 8_usize);
    assert_eq!(Ok(('\u{000C}', 9_usize)), r);
    let r = read_escape_sequence(&s, 9_usize);
    assert_eq!(Ok(('\n', 10_usize)), r);
    let r = read_escape_sequence(&s, 10_usize);
    assert_eq!(Ok(('\r', 11_usize)), r);
    let r = read_escape_sequence(&s, 11_usize);
    assert_eq!(Ok(('\t', 12_usize)), r);
    let r = read_escape_sequence(&s, 12_usize);
    assert_eq!(Ok(('\0', 17_usize)), r);
}

#[test]
fn empty_string() {
    let s: Vec<char> = "\"".chars().collect();
    let r = read_string(&s, 0_usize);
    assert_eq!(Ok(("".to_owned(), 1_usize)), r);
    let s: Vec<char> = "\"should have already stopped".chars().collect();
    let r = read_string(&s, 0_usize);
    assert_eq!(Ok(("".to_owned(), 1_usize)), r);
}

#[test]
fn simple_strings() {
    let a = "Hey I'm James, how are you ?".to_string();
    let s: Vec<char> = (a.clone() + "\"").chars().collect();
    let r = read_string(&s, 0_usize);
    assert_eq!(Ok((a.clone(), a.chars().count() + 1_usize)), r);
    let a = "I'm quite bored writing tests. &\u{e9}'(-\u{e8}__\u{e7})=$\u{f9}*".to_string();
    let s: Vec<char> = (a.clone() + "\"").chars().collect();
    let r = read_string(&s, 0_usize);
    assert_eq!(Ok((a.clone(), a.chars().count() + 1_usize)), r);
}

#[test]
fn u0000_through_u001f_are_invalid() {
    let a = "Hey I'm James, how are you ?\0".to_string();
    let s: Vec<char> = (a + "\"").chars().collect();
    let r = read_string(&s, 0_usize);
    assert_eq!(Err(TokenizeError::ControlCharacterUnescaped), r);
    let a = "Hey I'm James,\u{1} how are you ?".to_string();
    let s: Vec<char> = (a + "\"").chars().collect();
    let r = read_string(&s, 0_usize);
    assert_eq!(Err(TokenizeError::ControlCharacterUnescaped), r);
    let a = "\u{17}Hey I'm James, how are you ?".to_string();
    let s: Vec<char> = (a + "\"").chars().collect();
    let r = read_string(&s, 0_usize);
    assert_eq!(Err(TokenizeError::ControlCharacterUnescaped), r);
    let a = "\tHey I'm James, how are you ?".to_string();
    let s: Vec<char> = (a + "\"").chars().collect();
    let r = read_string(&s, 0_usize);
    assert_eq!(Err(TokenizeError::ControlCharacterUnescaped), r);
    // Other control characters (such as DEL) are valid according to RFC8259
    let a = "\u{7F}Hey I'm James, how are you ?".to_string();
    let s: Vec<char> = (a.clone() + "\"").chars().collect();
    let r = read_string(&s, 0_usize);
    assert_eq!(Ok((a.clone(), a.chars().count() + 1_usize)), r);
}

#[test]
fn some_characters_must_escaped() {
    let a = "Hey I'm \"James\", how are you ?".to_string();
    let s: Vec<char> = (a + "\"").chars().collect();
    let r = read_string(&s, 0_usize);
    assert_eq!(Ok(("Hey I'm ".to_string(), 9_usize)), r);
    let a = "Hey I'm \\\"James\\\", how are you ?".to_string();
    let s: Vec<char> = (a.clone() + "\"").chars().collect();
    let r = read_string(&s, 0_usize);
    assert_eq!(
        Ok((
            "Hey I'm \"James\", how are you ?".to_string(),
            a.chars().count() + 1_usize
        )),
        r
    );
    let a = "Hey I'm \\/James/\\, how are you ?".to_string();
    let s: Vec<char> = (a + "\"").chars().collect();
    let r = read_string(&s, 0_usize);
    assert_eq!(Err(TokenizeError::UnkownEscapeSequence), r);
    let a = "Hey I'm \\\\/James/\\\\, how are you ?".to_string();
    let s: Vec<char> = (a.clone() + "\"").chars().collect();
    let r = read_string(&s, 0_usize);
    assert_eq!(
        Ok((
            "Hey I'm \\/James/\\, how are you ?".to_string(),
            a.chars().count() + 1_usize
        )),
        r
    );
}

#[test]
fn string_must_be_closed_by_quote() {
    let a = "Hey I'm James, how are you ?".to_string();
    let s: Vec<char> = a.chars().collect();
    let r = read_string(&s, 0_usize);
    assert_eq!(Err(TokenizeError::InputEndedEarly), r);
}

#[test]
fn string_with_escape_sequence() {
    let a = "\\t\\tSome \\\"centered\\\" line\\t\\t\\r\\n".to_string();
    let s: Vec<char> = (a.clone() + "\"").chars().collect();
    let r = read_string(&s, 0_usize);
    assert_eq!(
        Ok((
            "\t\tSome \"centered\" line\t\t\r\n".to_string(),
            a.chars().count() + 1_usize
        )),
        r
    );
}

#[test]
fn string_in_context() {
    let pre = "{\"".to_string();
    let post = "\": 3}";
    let a = "\\t\\tSome \\\"centered\\\" line\\t\\t\\r\\n".to_string();
    let s: Vec<char> = (pre.clone() + &a + post).chars().collect();
    let r = read_string(&s, pre.chars().count());
    assert_eq!(
        Ok((
            "\t\tSome \"centered\" line\t\t\r\n".to_string(),
            pre.chars().count() + a.chars().count() + 1_usize
        )),
        r
    );
}

#[test]
fn some_positive_int() {
    let a: Vec<char> = "123".chars().collect();
    let n = Number::new(Sign::Positive, vec![D1, D2, D3], None, None);
    assert_eq!(Ok((n, 3_usize)), read_number(&a, 0_usize));
    let a: Vec<char> = "1789654320".chars().collect();
    let n = Number::new(Sign::Positive, vec![D1, D7, D8, D9, D6, D5, D4, D3, D2, D0], None, None);
    assert_eq!(Ok((n, 10_usize)), read_number(&a, 0_usize));
}

#[test]
fn some_negative_int() {
    let a: Vec<char> = "-103".chars().collect();
    let n = Number::new(Sign::Negative, vec![D1, D0, D3], None, None);
    assert_eq!(Ok((n, 4_usize)), read_number(&a, 0_usize));
    let a: Vec<char> = "-1789654320".chars().collect();
    let n = Number::new(Sign::Negative, vec![D1, D7, D8, D9, D6, D5, D4, D3, D2, D0], None, None);
    assert_eq!(Ok((n, 11_usize)), read_number(&a, 0_usize));
}

#[test]
fn some_invalid_positive_int() {
    let a: Vec<char> = "+123".chars().collect();
    assert_eq!(Err(TokenizeError::ExpectedADigit), read_number(&a, 0_usize));
    let a: Vec<char> = "+1789654320".chars().collect();
    assert_eq!(Err(TokenizeError::ExpectedADigit), read_number(&a, 0_usize));
}

#[test]
fn leading_zero() {
    let a: Vec<char> = "0123".chars().collect();
    let n = Number::new(Sign::Positive, vec![D0], None, None);
    assert_eq!(Ok((n, 1_usize)), read_number(&a, 0_usize));
    let a: Vec<char> = "-01789654320".chars().collect();
    let n = Number::new(Sign::Negative, vec![D0], None, None);
    assert_eq!(Ok((n, 2_usize)), read_number(&a, 0_usize));
}

#[test]
fn with_fraction() {
    let a: Vec<char> = "3.141592653589793".chars().collect();
    let n = Number::new(Sign::Positive, vec![D3], Some(vec![D1, D4, D1, D5, D9, D2, D6, D5, D3, D5, D8, D9, D7, D9, D3]), None);
    assert_eq!(Ok((n, a.len())), read_number(&a, 0_usize));
    let a: Vec<char> = "-0.5".chars().collect();
    let n = Number::new(Sign::Negative, vec![D0], Some(vec![D5]), None);
    assert_eq!(Ok((n, a.len())), read_number(&a, 0_usize));
}

#[test]
fn with_lower_case_exp() {
    let a: Vec<char> = "6022E20".chars().collect();
    let n = Number::new(Sign::Positive, vec![D6, D0, D2, D2], None, Some((Sign::Positive, vec![D2, D0])));
    assert_eq!(Ok((n, a.len())), read_number(&a, 0_usize));
}

#[test]
fn with_upper_case_exp() {
    let a: Vec<char> = "1602e-22".chars().collect();
    let n = Number::new(Sign::Positive, vec![D1, D6, D0, D2], None, Some((Sign::Negative, vec![D2, D2])));
    assert_eq!(Ok((n, a.len())), read_number(&a, 0_usize));
}

#[test]
fn sign_frac_exp() {
    let a: Vec<char> = "6.022E+22".chars().collect();
    let n = Number::new(Sign::Positive, vec![D6], Some(vec![D0, D2, D2]), Some((Sign::Positive, vec![D2, D2])));
    assert_eq!(Ok((n, a.len())), read_number(&a, 0_usize));
    let a: Vec<char> = "-1.602e-19".chars().collect();
    let n = Number::new(Sign::Negative, vec![D1], Some(vec![D6, D0, D2]), Some((Sign::Negative, vec![D1, D9])));
    assert_eq!(Ok((n, a.len())), read_number(&a, 0_usize));
}

#[test]
fn invalid_inputs() {
    let a: Vec<char> = "d23f".chars().collect();
    assert_eq!(Err(TokenizeError::ExpectedADigit), read_number(&a, 0_usize));
    let a: Vec<char> = "NaN".chars().collect();
    assert_eq!(Err(TokenizeError::ExpectedADigit), read_number(&a, 0_usize));
    let a: Vec<char> = "Infinity".chars().collect();
    assert_eq!(Err(TokenizeError::ExpectedADigit), read_number(&a, 0_usize));
    let a: Vec<char> = "three".chars().collect();
    assert_eq!(Err(TokenizeError::ExpectedADigit), read_number(&a, 0_usize));
    let a: Vec<char> = "e".chars().collect();
    assert_eq!(Err(TokenizeError::ExpectedADigit), read_number(&a, 0_usize));
    let a: Vec<char> = "MDCCLXXXIX".chars().collect();
    assert_eq!(Err(TokenizeError::ExpectedADigit), read_number(&a, 0_usize));
}

#[should_panic]
#[test]
fn complete_test() {
    let s: Vec<char> = "{\"asd\": { \"sdf\" : [123, 3.14]}}".chars().collect();
    let mut pos = 0_usize;
    let mut r = Vec::<Token>::new();
    while let Ok((Some(t), new_pos)) = read_token(&s, pos) {
        pos = new_pos;
        r.push(t);
    }

    assert_eq!(Vec::<Token>::new(), r)
}

#[test]
fn empty_input_for_read_hexdigit() {
    let s: Vec<char> = "".chars().collect();
    let r = read_hexdigit(&s, 0_usize);
    assert_eq!(Err(TokenizeError::InputEndedEarly), r);
    let s: Vec<char> = "".chars().collect();
    let r = read_hexdigit(&s, 1_usize);
    assert_eq!(Err(TokenizeError::InputEndedEarly), r);
    let s: Vec<char> = "01234".chars().collect();
    let r = read_hexdigit(&s, 5_usize);
    assert_eq!(Err(TokenizeError::InputEndedEarly), r);
}

#[test]
fn empty_input_for_read_escape_sequence() {
    let s: Vec<char> = "".chars().collect();
    let r = read_escape_sequence(&s, 0_usize);
    assert_eq!(Err(TokenizeError::InputEndedEarly), r);
    let s: Vec<char> = "".chars().collect();
    let r = read_escape_sequence(&s, 1_usize);
    assert_eq!(Err(TokenizeError::InputEndedEarly), r);
    let s: Vec<char> = "01234".chars().collect();
    let r = read_escape_sequence(&s, 5_usize);
    assert_eq!(Err(TokenizeError::InputEndedEarly), r);
}

#[test]
fn empty_input_for_read_string() {
    let s: Vec<char> = "".chars().collect();
    let r = read_string(&s, 0_usize);
    assert_eq!(Err(TokenizeError::InputEndedEarly), r);
    let s: Vec<char> = "".chars().collect();
    let r = read_string(&s, 1_usize);
    assert_eq!(Err(TokenizeError::InputEndedEarly), r);
    let s: Vec<char> = "01234".chars().collect();
    let r = read_string(&s, 5_usize);
    assert_eq!(Err(TokenizeError::InputEndedEarly), r);
}
