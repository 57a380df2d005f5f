//! Common tasks in parsing, on a source of characters.
use vstd::prelude::*;
use vstd::std_specs::iter::IteratorSpec;
use crate::chars::Chars;
use crate::err::{TokenizeError, TokenizeErrorView};

verus! {

/// What a reader on a source of characters hands back.
pub type ReaderResult<T> = Result<T, TokenizeError>;

/// The number of characters at their start in which `text` and `literal`
/// agree.
pub open spec fn agreement(text: Seq<char>, literal: Seq<char>) -> nat
    decreases literal.len(),
{
    if text.len() > 0 && literal.len() > 0 && text[0] == literal[0] {
        1 + agreement(text.drop_first(), literal.drop_first())
    } else {
        0
    }
}

/// The number of characters of `text` that are used up by reading
/// `literal` from it: all of the literal if the text starts with it, and
/// else the characters in which they agree and the one after them, if
/// there is one.
pub open spec fn used_up(text: Seq<char>, literal: Seq<char>) -> nat {
    let same = agreement(text, literal);
    if same == literal.len() || same == text.len() {
        same
    } else {
        same + 1
    }
}

/// A `Reader` with one more argument. Used to parse a constant string.
///
/// The characters of `s` are read from `input` one by one, up to the first
/// that `input` does not hold, which is read too. From a source of bytes
/// that were no valid UTF-8 nothing is read, and asking for a character is
/// answered with that error.
pub fn read_string(input: &mut Chars, s: &str) -> (r: ReaderResult<()>)
    ensures
        final(input).malformed() == old(input).malformed(),
        match r {
            Ok(()) => agreement(old(input).remaining(), s@) == s@.len(),
            Err(e) => {
                &&& agreement(old(input).remaining(), s@) < s@.len()
                &&& e@ == (if old(input).malformed() {
                    TokenizeErrorView::InvalidUTF8
                } else {
                    TokenizeErrorView::LitteralDidntMatch
                })
            },
        },
        final(input).remaining() == old(input).remaining().skip(
            used_up(old(input).remaining(), s@) as int,
        ),
{
    broadcast use vstd::string::group_string_axioms;

    let mut it = s.chars();
    let ghost mut done: nat = 0;
    proof {
        input.malformed_holds_nothing();
        assert(old(input).remaining().skip(0) =~= old(input).remaining());
        assert(s@.skip(0) =~= s@);
    }
    loop
        invariant
            it.obeys_prophetic_iter_laws(),
            it.decrease() is Some,
            input.malformed() == old(input).malformed(),
            input.malformed() ==> old(input).remaining().len() == 0,
            done <= s@.len(),
            done <= old(input).remaining().len(),
            it.remaining() == s@.skip(done as int),
            input.remaining() == old(input).remaining().skip(done as int),
            agreement(old(input).remaining(), s@) == done + agreement(
                input.remaining(),
                it.remaining(),
            ),
        decreases it.decrease()->0,
    {
        let ghost text = input.remaining();
        let ghost literal = it.remaining();
        match it.next() {
            Some(sc) => match input.next() {
                Some(Ok(ic)) => {
                    proof {
                        assert(text.drop_first() =~= old(input).remaining().skip(done as int + 1));
                        assert(literal.drop_first() =~= s@.skip(done as int + 1));
                    }
                    if ic != sc {
                        return Err(TokenizeError::LitteralDidntMatch);
                    }
                    proof {
                        done = done + 1;
                    }
                },
                Some(Err(e)) => {
                    return Err(e);
                },
                None => {
                    return Err(TokenizeError::LitteralDidntMatch);
                },
            },
            None => {
                return Ok(());
            },
        }
    }
}

} // verus!
