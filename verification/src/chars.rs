//! A source of code points: the characters that a sequence of bytes
//! encodes in UTF-8.
//!
//! The decoding is strict. Bytes that are no valid UTF-8 yield no
//! character at all, and the failure is told apart from the end of the
//! text.
use vstd::prelude::*;
use vstd::std_specs::iter::IteratorSpec;
use vstd::utf8::{decode_utf8, encode_utf8_decode_utf8, valid_utf8};
use crate::err::{TokenizeError, TokenizeErrorView};
use crate::lexer::item_view;
use crate::text::utf8_text;

verus! {

/// The characters that `bytes` encode, or nothing if they are no valid
/// UTF-8.
pub open spec fn decoded(bytes: Seq<u8>) -> Option<Seq<char>> {
    if valid_utf8(bytes) {
        Some(decode_utf8(bytes))
    } else {
        None
    }
}

/// A forward-only source of the characters of a text, read once.
pub struct Chars {
    text: Vec<char>,
    cursor: usize,
    malformed: bool,
}

impl Chars {
    /// The characters that are still to come.
    pub closed spec fn remaining(&self) -> Seq<char> {
        if !self.malformed && self.cursor <= self.text@.len() {
            self.text@.skip(self.cursor as int)
        } else {
            Seq::empty()
        }
    }

    /// Whether the bytes were no valid UTF-8.
    pub closed spec fn malformed(&self) -> bool {
        self.malformed
    }

    /// A source of bytes that were no valid UTF-8 holds no character.
    pub proof fn malformed_holds_nothing(&self)
        ensures
            self.malformed() ==> self.remaining() == Seq::<char>::empty(),
    {
    }

    /// The source of the characters that `bytes` encode.
    pub fn new(bytes: &[u8]) -> (source: Self)
        ensures
            match decoded(bytes@) {
                Some(text) => !source.malformed() && source.remaining() == text,
                None => source.malformed() && source.remaining() == Seq::<char>::empty(),
            },
    {
        broadcast use vstd::string::group_string_axioms;

        let mut text: Vec<char> = Vec::new();
        let malformed = match utf8_text(bytes) {
            Some(s) => {
                proof {
                    encode_utf8_decode_utf8(s@);
                }
                let mut it = s.chars();
                loop
                    invariant
                        it.obeys_prophetic_iter_laws(),
                        it.decrease() is Some,
                        text@ + it.remaining() == s@,
                    ensures
                        text@ == s@,
                    decreases it.decrease()->0,
                {
                    match it.next() {
                        Some(c) => {
                            text.push(c);
                        },
                        None => {
                            break ;
                        },
                    }
                }
                false
            },
            None => true,
        };
        assert(text@.skip(0) =~= text@);
        Self { text, cursor: 0, malformed }
    }

    /// Hands out the next character, and `None` at the end of the text.
    /// Where the bytes were no valid UTF-8, every request is answered with
    /// that error.
    pub fn next(&mut self) -> (item: Option<Result<char, TokenizeError>>)
        ensures
            final(self).malformed() == old(self).malformed(),
            item_view(item) == (if old(self).malformed() {
                Some(Err::<char, _>(TokenizeErrorView::InvalidUTF8))
            } else if old(self).remaining().len() > 0 {
                Some(Ok(old(self).remaining()[0]))
            } else {
                None
            }),
            final(self).remaining() == (if !old(self).malformed() && old(self).remaining().len()
                > 0 {
                old(self).remaining().drop_first()
            } else {
                old(self).remaining()
            }),
    {
        if self.malformed {
            Some(Err(TokenizeError::InvalidUTF8))
        } else if self.cursor < self.text.len() {
            let c = self.text[self.cursor];
            self.cursor = self.cursor + 1;
            assert(final(self).remaining() =~= old(self).remaining().drop_first());
            Some(Ok(c))
        } else {
            None
        }
    }

    /// All the characters that are still to come, at once.
    pub fn read_all(&mut self) -> (r: Result<Vec<char>, TokenizeError>)
        ensures
            final(self).malformed() == old(self).malformed(),
            match r {
                Ok(text) => {
                    &&& !old(self).malformed()
                    &&& text@ == old(self).remaining()
                    &&& final(self).remaining().len() == 0
                },
                Err(e) => {
                    &&& old(self).malformed()
                    &&& e@ is InvalidUTF8
                    &&& final(self).remaining() == old(self).remaining()
                },
            },
    {
        let mut text: Vec<char> = Vec::new();
        loop
            invariant
                self.malformed() == old(self).malformed(),
                text@ + self.remaining() == old(self).remaining(),
                self.malformed() ==> text@.len() == 0,
            decreases self.remaining().len(),
        {
            match self.next() {
                Some(Ok(c)) => {
                    proof {
                        let before = text@;
                        assert(before.push(c) + self.remaining() =~= old(self).remaining());
                    }
                    text.push(c);
                },
                Some(Err(e)) => {
                    assert(self.remaining() =~= old(self).remaining());
                    return Err(e);
                },
                None => {
                    assert(text@ =~= old(self).remaining());
                    return Ok(text);
                },
            }
        }
    }
}

} // verus!
