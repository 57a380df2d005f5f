//! A representation for the JSON numbers (that could be arbitrarily large).
//!
//! A number is kept as the decimal digits that were written: nothing is
//! rounded and nothing is converted to a machine number.
use vstd::prelude::*;

verus! {

/// Enum representation of a sign (either positive or negative).
#[derive(PartialEq, Eq, Debug, Clone, Copy, Structural)]
pub enum Sign {
    Positive,
    Negative,
}

/// Representation of a decimal digit.
#[derive(PartialEq, Eq, Debug, Clone, Copy, Structural)]
pub enum Digit {
    D0,
    D1,
    D2,
    D3,
    D4,
    D5,
    D6,
    D7,
    D8,
    D9,
}

impl View for Sign {
    type V = Sign;

    open spec fn view(&self) -> Sign {
        *self
    }
}

impl View for Digit {
    type V = Digit;

    open spec fn view(&self) -> Digit {
        *self
    }
}

impl Digit {
    /// The natural number that the digit stands for.
    pub open spec fn value(self) -> nat {
        match self {
            Digit::D0 => 0,
            Digit::D1 => 1,
            Digit::D2 => 2,
            Digit::D3 => 3,
            Digit::D4 => 4,
            Digit::D5 => 5,
            Digit::D6 => 6,
            Digit::D7 => 7,
            Digit::D8 => 8,
            Digit::D9 => 9,
        }
    }
}

/// The natural number that a sequence of digits denotes, most significant
/// digit first. The empty sequence denotes zero.
pub open spec fn digits_value(digits: Seq<Digit>) -> nat
    decreases digits.len(),
{
    if digits.len() == 0 {
        0
    } else {
        10 * digits_value(digits.drop_last()) + digits.last().value()
    }
}

/// `count` zeros in a row.
pub open spec fn zeros(count: nat) -> Seq<Digit> {
    Seq::new(count, |i: int| Digit::D0)
}

/// An integer part as RFC 8259 writes it: not empty, and with no leading
/// zero unless it is the single digit zero.
pub open spec fn is_canonical(digits: Seq<Digit>) -> bool {
    digits.len() > 0 && (digits.len() > 1 ==> digits[0] != Digit::D0)
}

/// How many leading zeros can be dropped from `digits` without changing the
/// number and without dropping the last digit.
pub open spec fn superfluous_zeros(digits: Seq<Digit>) -> nat
    decreases digits.len(),
{
    if digits.len() > 1 && digits[0] == Digit::D0 {
        1 + superfluous_zeros(digits.drop_first())
    } else {
        0
    }
}

/// `digits` without its superfluous leading zeros.
pub open spec fn canonical_form(digits: Seq<Digit>) -> Seq<Digit> {
    digits.skip(superfluous_zeros(digits) as int)
}

/// Representation of an exponent: its sign and its digits.
#[derive(PartialEq, Eq, Debug, Clone)]
pub struct Exp {
    s: Sign,
    v: Vec<Digit>,
}

/// Representation of a decimal number.
/// It has a `sign` and an `integer` part. It can have a `frac`tional part and an
/// exponent.
#[derive(PartialEq, Eq, Debug, Clone)]
pub struct Number {
    sign: Sign,
    integer: Vec<Digit>,
    frac: Option<Vec<Digit>>,
    exp: Option<Exp>,
}

/// What a [`Number`] holds, as mathematics.
pub struct NumberView {
    pub sign: Sign,
    pub integer: Seq<Digit>,
    pub frac: Option<Seq<Digit>>,
    pub exp: Option<(Sign, Seq<Digit>)>,
}

impl NumberView {
    /// The shape RFC 8259 allows: a canonical integer part, and at least one
    /// digit in the fractional part and in the exponent where they are
    /// present. The tokenizer only produces numbers of this shape.
    pub open spec fn is_well_formed(self) -> bool {
        &&& is_canonical(self.integer)
        &&& self.frac matches Some(f) ==> f.len() > 0
        &&& self.exp matches Some(e) ==> e.1.len() > 0
    }
}

/// The view of an optional run of digits.
pub open spec fn frac_view(frac: Option<Vec<Digit>>) -> Option<Seq<Digit>> {
    match frac {
        Some(f) => Some(f@),
        None => None,
    }
}

/// The view of an optional exponent, given as its sign and digits.
pub open spec fn exp_view(exp: Option<(Sign, Vec<Digit>)>) -> Option<(Sign, Seq<Digit>)> {
    match exp {
        Some((s, v)) => Some((s, v@)),
        None => None,
    }
}

impl View for Number {
    type V = NumberView;

    closed spec fn view(&self) -> NumberView {
        NumberView {
            sign: self.sign,
            integer: self.integer@,
            frac: frac_view(self.frac),
            exp: match self.exp {
                Some(e) => Some((e.s, e.v@)),
                None => None,
            },
        }
    }
}

impl Number {
    /// Creates a new Number from its parts, which are held as given.
    ///
    /// For encoding `0.314e1`: the sign is positive, `integer` is `[D0]`, `frac`
    /// is `[D3, D1, D4]` and `exp` is a positive sign with `[D1]`.
    #[must_use]
    pub fn new(
        sign: Sign,
        integer: Vec<Digit>,
        frac: Option<Vec<Digit>>,
        exp: Option<(Sign, Vec<Digit>)>,
    ) -> (number: Self)
        ensures
            number@ == (NumberView {
                sign,
                integer: integer@,
                frac: frac_view(frac),
                exp: exp_view(exp),
            }),
    {
        let exp = match exp {
            Some((s, v)) => Some(Exp { s, v }),
            None => None,
        };
        Self { sign, integer, frac, exp }
    }

    /// Brings the integer part to its canonical form, the first step towards
    /// the canonical scientific notation: superfluous leading zeros go, and
    /// the sign, the fractional part and the exponent stay as they are.
    pub fn scientific_notation(&mut self)
        requires
            old(self)@.integer.len() > 0,
        ensures
            final(self)@ == (NumberView { integer: canonical_form(old(self)@.integer), ..old(self)@ }),
    {
        let _ = clear_leading_zeros(&mut self.integer);
    }
}

/// Removes the superfluous leading zeros of `v` and returns how many there
/// were. What is left is canonical and denotes the same number.
pub fn clear_leading_zeros(v: &mut Vec<Digit>) -> (removed: usize)
    requires
        old(v)@.len() > 0,
    ensures
        removed == superfluous_zeros(old(v)@),
        final(v)@ == canonical_form(old(v)@),
        is_canonical(final(v)@),
        old(v)@ == zeros(removed as nat) + final(v)@,
{
    let n = v.len();
    let mut first: usize = 0;
    assert(v@.skip(0) =~= v@);
    while first + 1 < n && v[first] == Digit::D0
        invariant
            n == v@.len(),
            n > 0,
            first < n,
            v@ == old(v)@,
            superfluous_zeros(v@) == first + superfluous_zeros(v@.skip(first as int)),
            forall|i: int| 0 <= i < first ==> v@[i] == Digit::D0,
        decreases n - first,
    {
        proof {
            let rest = v@.skip(first as int);
            assert(rest.len() > 1 && rest[0] == Digit::D0);
            assert(rest.drop_first() =~= v@.skip(first + 1));
        }
        first = first + 1;
    }
    proof {
        let rest = v@.skip(first as int);
        assert(rest.len() == n - first);
        assert(rest.len() > 1 ==> rest[0] == v@[first as int]);
        assert(superfluous_zeros(rest) == 0);
    }
    if first > 0 {
        let kept = v.split_off(first);
        proof {
            assert(kept@ =~= old(v)@.skip(first as int));
            assert(old(v)@ =~= zeros(first as nat) + kept@);
        }
        *v = kept;
    } else {
        proof {
            assert(v@ =~= old(v)@.skip(0));
            assert(old(v)@ =~= zeros(0) + v@);
        }
    }
    first
}

/// Dropping the superfluous leading zeros leaves the number that the
/// digits denote unchanged, and leaves a canonical integer part.
pub proof fn canonical_form_keeps_value(digits: Seq<Digit>)
    requires
        digits.len() > 0,
    ensures
        is_canonical(canonical_form(digits)),
        digits_value(canonical_form(digits)) == digits_value(digits),
        digits =~= zeros(superfluous_zeros(digits)) + canonical_form(digits),
    decreases digits.len(),
{
    if digits.len() > 1 && digits[0] == Digit::D0 {
        let rest = digits.drop_first();
        canonical_form_keeps_value(rest);
        assert(canonical_form(digits) =~= canonical_form(rest));
        leading_zero_keeps_value(rest);
        assert(seq![Digit::D0] + rest =~= digits);
    } else {
        assert(canonical_form(digits) =~= digits);
    }
}

/// A zero put in front of `digits` does not change the number they denote.
proof fn leading_zero_keeps_value(digits: Seq<Digit>)
    ensures
        digits_value(seq![Digit::D0] + digits) == digits_value(digits),
    decreases digits.len(),
{
    let longer = seq![Digit::D0] + digits;
    if digits.len() == 0 {
        assert(longer.drop_last() =~= Seq::<Digit>::empty());
        assert(digits_value(longer.drop_last()) == 0);
    } else {
        leading_zero_keeps_value(digits.drop_last());
        assert(longer.drop_last() =~= seq![Digit::D0] + digits.drop_last());
        assert(longer.last() == digits.last());
    }
}

} // verus!
