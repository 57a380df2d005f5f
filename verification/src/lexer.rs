//! What the automaton asks of a tokenizer.
use vstd::prelude::*;
use crate::err::{TokenizeError, TokenizeErrorView};
use crate::token::{Token, TokenView};

verus! {

/// What one request to a tokenizer, or to a stage above it, can hand back:
/// an item, a failure, or nothing once the input is used up.
pub open spec fn item_view<T: View>(item: Option<Result<T, TokenizeError>>) -> Option<
    Result<T::V, TokenizeErrorView>,
> {
    match item {
        Some(Ok(t)) => Some(Ok(t@)),
        Some(Err(e)) => Some(Err(e@)),
        None => None,
    }
}

/// What the next request to a tokenizer hands back, if the tokens in
/// `pending` are still to come and `fault` is how its input ends: the first
/// pending token; once there is none, the fault; and nothing at a true end
/// of input.
pub open spec fn upcoming(pending: Seq<TokenView>, fault: Option<TokenizeErrorView>) -> Option<
    Result<TokenView, TokenizeErrorView>,
> {
    if pending.len() > 0 {
        Some(Ok(pending[0]))
    } else {
        match fault {
            Some(e) => Some(Err(e)),
            None => None,
        }
    }
}

/// `pending` after one request: the first token is gone.
pub open spec fn advanced(pending: Seq<TokenView>) -> Seq<TokenView> {
    if pending.len() > 0 {
        pending.drop_first()
    } else {
        pending
    }
}

/// A tokenizer: a forward-only source of tokens, pulled one at a time.
///
/// Its input holds finitely many well-formed tokens, `pending`, and then
/// either ends or goes on with something that is no token, the `fault`. A
/// fault is terminal: the tokenizer does not move past it, and answers every
/// later request with it.
pub trait Lexer {
    /// The tokens that are still to come, in order.
    spec fn pending(&self) -> Seq<TokenView>;

    /// The lexical error that follows the pending tokens, if one does.
    spec fn fault(&self) -> Option<TokenizeErrorView>;

    /// Hands out the next token. It returns `None` only at a true end of
    /// input.
    fn next(&mut self) -> (item: Option<Result<Token, TokenizeError>>)
        ensures
            item_view(item) == upcoming(old(self).pending(), old(self).fault()),
            final(self).pending() == advanced(old(self).pending()),
            final(self).fault() == old(self).fault(),
    ;
}

} // verus!
