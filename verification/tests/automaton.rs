//! The automaton, action by action, and the tree builder.
use libporte::ast::TreeBuilder;
use libporte::automaton::{Action, Automaton};
use libporte::err::{ErrorClass, TokenizeError};
use libporte::lexer::Lexer;
use libporte::lexer_slice::LexerSlice;
use libporte::number::Digit::D1;
use libporte::number::{Number, Sign};
use libporte::token::Token;
use libporte::value::Value;

fn actions(text: &str) -> Vec<Result<Action, TokenizeError>> {
    let text: Vec<char> = text.chars().collect();
    let mut automaton = Automaton::new(LexerSlice::new(&text));
    let mut all = Vec::new();
    while let Some(item) = automaton.next() {
        all.push(item);
    }
    assert_eq!(None, automaton.next());
    all
}

fn one() -> Value {
    Value::Number(Number::new(Sign::Positive, vec![D1], None, None))
}

#[test]
fn actions_of_an_array() {
    assert_eq!(
        vec![
            Ok(Action::NewArray),
            Ok(Action::Push(one())),
            Ok(Action::Nothing),
            Ok(Action::Nothing),
            Ok(Action::NewArray),
            Ok(Action::Close),
            Ok(Action::Close),
            Ok(Action::TheEnd),
        ],
        actions("[1, []]")
    );
}

#[test]
fn actions_of_an_object() {
    assert_eq!(
        vec![
            Ok(Action::NewObject),
            Ok(Action::NewKey("a".to_string())),
            Ok(Action::Nothing),
            Ok(Action::NewObject),
            Ok(Action::Close),
            Ok(Action::Nothing),
            Ok(Action::NewKey("b".to_string())),
            Ok(Action::Nothing),
            Ok(Action::Push(Value::Null)),
            Ok(Action::Close),
            Ok(Action::TheEnd),
        ],
        actions("{\"a\":{},\"b\":null}")
    );
}

#[test]
fn actions_of_a_scalar_with_white_space() {
    assert_eq!(
        vec![
            Ok(Action::Nothing),
            Ok(Action::Push(Value::True)),
            Ok(Action::Nothing),
            Ok(Action::TheEnd),
        ],
        actions(" true\n")
    );
}

#[test]
fn nothing_follows_a_failure() {
    assert_eq!(
        vec![
            Ok(Action::NewArray),
            Ok(Action::Push(one())),
            Err(TokenizeError::UnexpectedToken(Token::ObjectEnd)),
        ],
        actions("[1}, 2]")
    );
    assert_eq!(
        vec![Ok(Action::Push(one())), Err(TokenizeError::InputTooLong)],
        actions("1[")
    );
    assert_eq!(
        vec![Ok(Action::NewObject), Err(TokenizeError::UnkownToken)],
        actions("{?")
    );
    assert_eq!(vec![Err(TokenizeError::InputEndedEarly)], actions(""));
}

#[test]
fn every_state_rejects_what_the_grammar_forbids() {
    let cases = [
        ("]", Token::ArrayEnd),
        ("}", Token::ObjectEnd),
        (":", Token::NameSeparator),
        (",", Token::ValueSeparator),
        ("[}", Token::ObjectEnd),
        ("[:", Token::NameSeparator),
        ("[1:", Token::NameSeparator),
        ("[1 1", Token::Number(Number::new(Sign::Positive, vec![D1], None, None))),
        ("[1[", Token::ArrayBegin),
        ("[1,]", Token::ArrayEnd),
        ("{1", Token::Number(Number::new(Sign::Positive, vec![D1], None, None))),
        ("{[", Token::ArrayBegin),
        ("{,", Token::ValueSeparator),
        ("{\"a\",", Token::ValueSeparator),
        ("{\"a\"}", Token::ObjectEnd),
        ("{\"a\" \"b\"", Token::String("b".to_string())),
        ("{\"a\":}", Token::ObjectEnd),
        ("{\"a\":,", Token::ValueSeparator),
        ("{\"a\"::", Token::NameSeparator),
        ("{\"a\":1:", Token::NameSeparator),
        ("{\"a\":1]", Token::ArrayEnd),
        ("{\"a\":1 \"b\"", Token::String("b".to_string())),
        ("{\"a\":1,}", Token::ObjectEnd),
        ("{\"a\":1,1", Token::Number(Number::new(Sign::Positive, vec![D1], None, None))),
        ("{\"a\":1,{", Token::ObjectBegin),
        ("{\"a\":[}", Token::ObjectEnd),
        ("[{]", Token::ArrayEnd),
    ];
    for (text, token) in cases {
        let all = actions(text);
        assert_eq!(
            Some(&Err(TokenizeError::UnexpectedToken(token))),
            all.last(),
            "{}",
            text
        );
    }
}

#[test]
fn the_lexer_repeats_its_error() {
    let text: Vec<char> = "[ tru".chars().collect();
    let mut lexer = LexerSlice::new(&text);
    assert_eq!(Some(Ok(Token::ArrayBegin)), lexer.next());
    assert_eq!(Some(Ok(Token::WhiteSpace)), lexer.next());
    assert_eq!(Some(Err(TokenizeError::LitteralDidntMatch)), lexer.next());
    assert_eq!(Some(Err(TokenizeError::LitteralDidntMatch)), lexer.next());
}

#[test]
fn the_lexer_ends_with_its_input() {
    let text: Vec<char> = "  \t\n,:".chars().collect();
    let mut lexer = LexerSlice::new(&text);
    assert_eq!(Some(Ok(Token::WhiteSpace)), lexer.next());
    assert_eq!(Some(Ok(Token::ValueSeparator)), lexer.next());
    assert_eq!(Some(Ok(Token::NameSeparator)), lexer.next());
    assert_eq!(None, lexer.next());
    assert_eq!(None, lexer.next());
}

#[test]
fn the_builder_follows_the_actions() {
    let mut builder = TreeBuilder::new();
    for action in [
        Action::NewObject,
        Action::NewKey("a".to_string()),
        Action::Nothing,
        Action::NewArray,
        Action::Push(one()),
        Action::Push(Value::Null),
        Action::Close,
        Action::NewKey("b".to_string()),
        Action::Push(Value::True),
        Action::Close,
        Action::TheEnd,
    ] {
        assert_eq!(Ok(()), builder.apply(action));
    }
    assert_eq!(
        Ok(Value::Object(vec![
            ("a".to_string(), Value::Array(vec![one(), Value::Null])),
            ("b".to_string(), Value::True),
        ])),
        builder.finish()
    );
}

fn is_internal(r: Result<(), TokenizeError>) -> bool {
    match r {
        Err(e) => matches!(e, TokenizeError::InternalError(_)) && e.class() == ErrorClass::Internal,
        Ok(()) => false,
    }
}

#[test]
fn the_builder_reports_actions_that_do_not_fit() {
    let mut builder = TreeBuilder::new();
    assert!(is_internal(builder.apply(Action::Close)));

    let mut builder = TreeBuilder::new();
    assert_eq!(Ok(()), builder.apply(Action::NewObject));
    assert!(is_internal(builder.apply(Action::Push(Value::Null))));

    let mut builder = TreeBuilder::new();
    assert_eq!(Ok(()), builder.apply(Action::NewObject));
    assert_eq!(Ok(()), builder.apply(Action::NewObject));
    assert!(is_internal(builder.apply(Action::Close)));

    let builder = TreeBuilder::new();
    assert!(matches!(
        builder.finish(),
        Err(TokenizeError::InternalError(_))
    ));

    let mut builder = TreeBuilder::new();
    assert_eq!(Ok(()), builder.apply(Action::NewArray));
    assert_eq!(Ok(()), builder.apply(Action::TheEnd));
    assert!(matches!(
        builder.finish(),
        Err(TokenizeError::InternalError(_))
    ));
}

#[test]
fn the_last_document_wins() {
    let mut builder = TreeBuilder::new();
    assert_eq!(Ok(()), builder.apply(Action::Push(Value::Null)));
    assert_eq!(Ok(()), builder.apply(Action::Push(Value::True)));
    assert_eq!(Ok(Value::True), builder.finish());
}
