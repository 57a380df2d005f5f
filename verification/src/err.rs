//! Common error types.
//!
//! There are three classes. A lexical error is a malformed token; a grammar
//! error is a sequence of well-formed tokens that is no JSON text; an
//! internal error is a defect of the parser itself and never a property of
//! the input.
use vstd::prelude::*;
use crate::token::{Token, TokenView};

verus! {

/// A common error type.
#[derive(Debug, PartialEq, Eq, Clone)]
pub enum TokenizeError {
    /// The input ended too early
    InputEndedEarly,
    /// Expected a digit but didn't get one
    ExpectedADigit,
    /// Expected an hexdigit but didn't get one
    ExpectedAHexdigit,
    /// A literal wasn't found
    LitteralDidntMatch,
    /// A control character wasn't escaped
    ControlCharacterUnescaped,
    /// An unknown escape sequence was read
    UnkownEscapeSequence,
    /// A code point is not a Unicode valid one
    InvalidUnicodeCodePoint,
    /// Something that wasn't a valid token was found.
    UnkownToken,
    /// An incomplete surrogate pair occurred
    BigMessWithSurrogatePairs,
    /// The result of reading a surrogate pair is no Unicode scalar value
    InvalidSurrogatePairs,
    /// An unexpected token occurred
    UnexpectedToken(Token),
    /// The given input is too long and should already have ended
    InputTooLong,
    /// Occurs when there is a bug
    InternalError(ErrorLoc),
    /// A byte sequence was invalid UTF8
    InvalidUTF8,
}

/// Represents the location in the source code where an error occurred.
#[derive(Debug, PartialEq, Eq, Clone)]
pub struct ErrorLoc {
    file: &'static str,
    line: u32,
    column: u32,
}

/// An [`ErrorLoc`], as mathematics.
pub struct ErrorLocView {
    pub file: Seq<char>,
    pub line: u32,
    pub column: u32,
}

impl View for ErrorLoc {
    type V = ErrorLocView;

    closed spec fn view(&self) -> ErrorLocView {
        ErrorLocView { file: self.file@, line: self.line, column: self.column }
    }
}

impl ErrorLoc {
    /// Creates a new `ErrorLoc`.
    #[must_use]
    pub fn new(file: &'static str, line: u32, column: u32) -> (loc: Self)
        ensures
            loc@ == (ErrorLocView { file: file@, line, column }),
    {
        Self { file, line, column }
    }
}

/// A [`TokenizeError`], as mathematics. The place in the source code that an
/// internal error carries serves the diagnosis only, and is left out.
pub enum TokenizeErrorView {
    InputEndedEarly,
    ExpectedADigit,
    ExpectedAHexdigit,
    LitteralDidntMatch,
    ControlCharacterUnescaped,
    UnkownEscapeSequence,
    InvalidUnicodeCodePoint,
    UnkownToken,
    BigMessWithSurrogatePairs,
    InvalidSurrogatePairs,
    UnexpectedToken(TokenView),
    InputTooLong,
    InternalError,
    InvalidUTF8,
}

impl View for TokenizeError {
    type V = TokenizeErrorView;

    open spec fn view(&self) -> TokenizeErrorView {
        match self {
            TokenizeError::InputEndedEarly => TokenizeErrorView::InputEndedEarly,
            TokenizeError::ExpectedADigit => TokenizeErrorView::ExpectedADigit,
            TokenizeError::ExpectedAHexdigit => TokenizeErrorView::ExpectedAHexdigit,
            TokenizeError::LitteralDidntMatch => TokenizeErrorView::LitteralDidntMatch,
            TokenizeError::ControlCharacterUnescaped => TokenizeErrorView::ControlCharacterUnescaped,
            TokenizeError::UnkownEscapeSequence => TokenizeErrorView::UnkownEscapeSequence,
            TokenizeError::InvalidUnicodeCodePoint => TokenizeErrorView::InvalidUnicodeCodePoint,
            TokenizeError::UnkownToken => TokenizeErrorView::UnkownToken,
            TokenizeError::BigMessWithSurrogatePairs => TokenizeErrorView::BigMessWithSurrogatePairs,
            TokenizeError::InvalidSurrogatePairs => TokenizeErrorView::InvalidSurrogatePairs,
            TokenizeError::UnexpectedToken(t) => TokenizeErrorView::UnexpectedToken(t@),
            TokenizeError::InputTooLong => TokenizeErrorView::InputTooLong,
            TokenizeError::InternalError(_) => TokenizeErrorView::InternalError,
            TokenizeError::InvalidUTF8 => TokenizeErrorView::InvalidUTF8,
        }
    }
}

/// The three classes of errors.
#[derive(Debug, PartialEq, Eq, Clone, Copy, Structural)]
pub enum ErrorClass {
    /// A malformed token, or bytes that are no text at all.
    Lexical,
    /// Well-formed tokens that do not make a JSON text.
    Grammar,
    /// A defect of the parser.
    Internal,
}

impl TokenizeErrorView {
    /// The class to which the error belongs.
    pub open spec fn class(self) -> ErrorClass {
        match self {
            TokenizeErrorView::UnexpectedToken(_) => ErrorClass::Grammar,
            TokenizeErrorView::InputEndedEarly => ErrorClass::Grammar,
            TokenizeErrorView::InputTooLong => ErrorClass::Grammar,
            TokenizeErrorView::InternalError => ErrorClass::Internal,
            _ => ErrorClass::Lexical,
        }
    }
}

impl TokenizeError {
    /// The class to which the error belongs: the input was rejected (a
    /// lexical or a grammar error), or the parser is broken.
    pub fn class(&self) -> (class: ErrorClass)
        ensures
            class == self@.class(),
    {
        match self {
            TokenizeError::UnexpectedToken(_) => ErrorClass::Grammar,
            TokenizeError::InputEndedEarly => ErrorClass::Grammar,
            TokenizeError::InputTooLong => ErrorClass::Grammar,
            TokenizeError::InternalError(_) => ErrorClass::Internal,
            _ => ErrorClass::Lexical,
        }
    }
}

} // verus!
