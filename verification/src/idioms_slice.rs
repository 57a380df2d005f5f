//! Common tasks in parsing, on a slice of characters.
//!
//! A reader is a function which receives an `input` and the `pos` of the
//! next character to be read. It returns `Ok((t, new_pos))` where `t` is
//! the information processed and `new_pos` the new position if all went
//! well, and an error otherwise. A reader copes with any `pos`, also one
//! beyond the end of the input.
use vstd::prelude::*;
use vstd::std_specs::iter::IteratorSpec;
use crate::err::{TokenizeError, TokenizeErrorView};

verus! {

/// What a reader hands back.
pub type ReaderResult<T> = Result<(T, usize), TokenizeError>;

/// What a reader hands back, as mathematics.
pub type Reading<T> = Result<(T, int), TokenizeErrorView>;

/// The view of what a reader handed back.
pub open spec fn reading<T: View>(r: ReaderResult<T>) -> Reading<T::V> {
    match r {
        Ok((t, new_pos)) => Ok((t@, new_pos as int)),
        Err(e) => Err(e@),
    }
}

/// The input holds `literal` at `pos`: the literal fits into what is left
/// of the input there, and the input has the characters of the literal.
pub open spec fn holds_at(input: Seq<char>, pos: int, literal: Seq<char>) -> bool {
    &&& literal.len() > 0 ==> pos + literal.len() <= input.len()
    &&& forall|i: int| 0 <= i < literal.len() ==> input[pos + i] == #[trigger] literal[i]
}

/// Reading the constant `literal` at `pos`: the position after it if the
/// input holds it there.
pub open spec fn literal_at(input: Seq<char>, pos: int, literal: Seq<char>) -> Reading<()> {
    if holds_at(input, pos, literal) {
        Ok(((), pos + literal.len()))
    } else {
        Err(TokenizeErrorView::LitteralDidntMatch)
    }
}

/// A `Reader` with one more argument. Used to parse a constant string.
pub fn read_string(input: &[char], pos: usize, s: &str) -> (r: ReaderResult<()>)
    ensures
        reading(r) == literal_at(input@, pos as int, s@),
{
    broadcast use vstd::string::group_string_axioms;

    let mut at = pos;
    let mut it = s.chars();
    loop
        invariant
            it.obeys_prophetic_iter_laws(),
            it.decrease() is Some,
            s@.len() >= it.remaining().len(),
            s@.skip(s@.len() - it.remaining().len()) == it.remaining(),
            at == pos + s@.len() - it.remaining().len(),
            holds_at(input@, pos as int, s@.take(s@.len() - it.remaining().len())),
        decreases it.decrease()->0,
    {
        let ghost done = s@.len() - it.remaining().len();
        match it.next() {
            Some(c) => {
                assert(s@[done] == s@.skip(done)[0]);
                if at < input.len() && input[at] == c {
                    at += 1;
                    proof {
                        assert(s@.skip(done).drop_first() =~= s@.skip(done + 1));
                        assert forall|i: int| 0 <= i < done + 1 implies input@[pos + i]
                            == #[trigger] s@.take(done + 1)[i] by {
                            if i < done {
                                assert(s@.take(done)[i] == s@.take(done + 1)[i]);
                            }
                        }
                    }
                } else {
                    return Err(TokenizeError::LitteralDidntMatch);
                }
            },
            None => {
                assert(s@.take(s@.len() as int) =~= s@);
                return Ok(((), at));
            },
        }
    }
}

/// `reader` reads the `items` one after the other: `cuts` holds the
/// position before the first item and the position after each.
pub open spec fn reads_in_a_row<T, F: Fn(&[char], usize) -> ReaderResult<T>>(
    reader: F,
    input: &[char],
    cuts: Seq<usize>,
    items: Seq<T>,
) -> bool {
    &&& cuts.len() == items.len() + 1
    &&& forall|i: int|
        0 <= i < items.len() ==> call_ensures(
            reader,
            (input, cuts[i]),
            Ok::<(T, usize), TokenizeError>((#[trigger] items[i], cuts[i + 1])),
        )
}

/// `reader` fails at `pos`.
pub open spec fn fails_at<T, F: Fn(&[char], usize) -> ReaderResult<T>>(
    reader: F,
    input: &[char],
    pos: usize,
) -> bool {
    exists|e: TokenizeError| call_ensures(reader, (input, pos), Err::<(T, usize), TokenizeError>(e))
}

/// A `Reader` to read one or more times with the same `reader`.
///
/// Returns a `Vec<T>` of each of the results of the sub-reader, and the
/// position at which the sub-reader first failed. If it fails at `pos`
/// already, that failure is returned.
///
/// The sub-reader must cope with every position, and must move forward
/// whenever it succeeds: this is what makes the reading end.
pub fn read_one_or_more<T, F: Fn(&[char], usize) -> ReaderResult<T>>(
    input: &[char],
    pos: usize,
    reader: F,
) -> (r: ReaderResult<Vec<T>>)
    requires
        forall|p: usize| call_requires(reader, (input, p)),
        forall|p: usize, t: T, q: usize| #[trigger]
            call_ensures(reader, (input, p), Ok::<(T, usize), TokenizeError>((t, q))) ==> p < q
                <= input@.len(),
    ensures
        match r {
            Ok((items, end)) => {
                &&& items@.len() > 0
                &&& fails_at(reader, input, end)
                &&& exists|cuts: Seq<usize>| #[trigger]
                    reads_in_a_row(reader, input, cuts, items@) && cuts[0] == pos && cuts.last()
                        == end
            },
            Err(e) => call_ensures(reader, (input, pos), Err::<(T, usize), TokenizeError>(e)),
        },
{
    match reader(input, pos) {
        Ok((t, new_pos)) => {
            let mut at = new_pos;
            let mut r = vec![t];
            let ghost mut cuts = seq![pos, new_pos];
            loop
                invariant
                    forall|p: usize| call_requires(reader, (input, p)),
                    forall|p: usize, t: T, q: usize| #[trigger]
                        call_ensures(reader, (input, p), Ok::<(T, usize), TokenizeError>((t, q)))
                            ==> p < q <= input@.len(),
                    r@.len() > 0,
                    reads_in_a_row(reader, input, cuts, r@),
                    cuts[0] == pos,
                    cuts.last() == at,
                    at <= input@.len(),
                decreases input@.len() - at,
            {
                match reader(input, at) {
                    Ok((t, new_pos)) => {
                        proof {
                            let longer = cuts.push(new_pos);
                            assert forall|i: int| 0 <= i < r@.len() + 1 implies call_ensures(
                                reader,
                                (input, longer[i]),
                                Ok::<(T, usize), TokenizeError>(
                                    (#[trigger] r@.push(t)[i], longer[i + 1]),
                                ),
                            ) by {
                                if i < r@.len() {
                                    assert(r@.push(t)[i] == r@[i]);
                                }
                            }
                            cuts = longer;
                        }
                        at = new_pos;
                        r.push(t);
                    },
                    Err(e) => {
                        return Ok((r, at));
                    },
                }
            }
        },
        Err(e) => Err(e),
    }
}

} // verus!
