//! Module for the representation of the tokens.
use vstd::prelude::*;
use crate::number::{Number, NumberView};

verus! {

/// Representation of the RFC8259 JSON tokens. One token is one terminal of
/// the grammar, and holds all it needs: nothing points back into the input.
#[derive(PartialEq, Eq, Debug, Clone)]
pub enum Token {
    ArrayBegin,
    ArrayEnd,
    ObjectBegin,
    ObjectEnd,
    NameSeparator,
    ValueSeparator,
    Number(Number),
    String(String),
    True,
    False,
    Null,
    WhiteSpace,
}

/// A [`Token`], as mathematics.
pub enum TokenView {
    ArrayBegin,
    ArrayEnd,
    ObjectBegin,
    ObjectEnd,
    NameSeparator,
    ValueSeparator,
    Number(NumberView),
    String(Seq<char>),
    True,
    False,
    Null,
    WhiteSpace,
}

impl View for Token {
    type V = TokenView;

    open spec fn view(&self) -> TokenView {
        match self {
            Token::ArrayBegin => TokenView::ArrayBegin,
            Token::ArrayEnd => TokenView::ArrayEnd,
            Token::ObjectBegin => TokenView::ObjectBegin,
            Token::ObjectEnd => TokenView::ObjectEnd,
            Token::NameSeparator => TokenView::NameSeparator,
            Token::ValueSeparator => TokenView::ValueSeparator,
            Token::Number(n) => TokenView::Number(n@),
            Token::String(s) => TokenView::String(s@),
            Token::True => TokenView::True,
            Token::False => TokenView::False,
            Token::Null => TokenView::Null,
            Token::WhiteSpace => TokenView::WhiteSpace,
        }
    }
}

} // verus!
