//! How tokens and values are written as text, and that the tokenizer reads
//! such text back. Nothing here is executable: the functions say which
//! texts there are, and the proofs say that every value has one.
use vstd::prelude::*;
use crate::ast::{parse_of, parse_of_text};
use crate::chars::decoded;
use crate::err::TokenizeErrorView;
use crate::grammar::{
    denotes, items_tokens, members_tokens, parse_is_the_grammar, parsing_is_the_grammar,
    tokens_of, without_white_space,
};
use crate::idioms_slice::holds_at;
use crate::lexer_slice::{
    code_unit_at, digit_of, digits_between, digits_end, escape_at, exp_at, fault_from, frac_at,
    hex_number_at, hexdigit_value, int_at, is_control, is_white_space, neg_sign_at, number_at,
    number_at_well_formed, pn_sign_at, string_at, string_char_at, token_at, token_at_advances,
    tokens_from, white_space_end,
};
use crate::number::{Digit, NumberView, Sign};
use crate::token::TokenView;
use crate::value::ValueView;

verus! {

/// The character that writes a decimal digit.
pub open spec fn digit_char(digit: Digit) -> char {
    match digit {
        Digit::D0 => '0',
        Digit::D1 => '1',
        Digit::D2 => '2',
        Digit::D3 => '3',
        Digit::D4 => '4',
        Digit::D5 => '5',
        Digit::D6 => '6',
        Digit::D7 => '7',
        Digit::D8 => '8',
        Digit::D9 => '9',
    }
}

/// The characters that write a run of digits.
pub open spec fn digits_text(digits: Seq<Digit>) -> Seq<char> {
    Seq::new(digits.len(), |i: int| digit_char(digits[i]))
}

/// The characters that write a sign where a positive one is not written.
pub open spec fn sign_text(sign: Sign) -> Seq<char> {
    match sign {
        Sign::Negative => seq!['-'],
        Sign::Positive => Seq::empty(),
    }
}

/// The characters that write a fractional part.
pub open spec fn frac_text(frac: Option<Seq<Digit>>) -> Seq<char> {
    match frac {
        Some(digits) => seq!['.'] + digits_text(digits),
        None => Seq::empty(),
    }
}

/// The characters that write an exponent.
pub open spec fn exp_text(exp: Option<(Sign, Seq<Digit>)>) -> Seq<char> {
    match exp {
        Some((sign, digits)) => seq!['e'] + sign_text(sign) + digits_text(digits),
        None => Seq::empty(),
    }
}

/// The characters that write a number.
pub open spec fn number_text(number: NumberView) -> Seq<char> {
    sign_text(number.sign) + digits_text(number.integer) + frac_text(number.frac) + exp_text(
        number.exp,
    )
}

/// No number goes on with the character at `pos`, if there is one: it is
/// no digit, no point, no `e` and no `E`.
pub open spec fn ends_number(input: Seq<char>, pos: int) -> bool {
    0 <= pos < input.len() ==> digit_of(input[pos]) is None && input[pos] != '.' && input[pos]
        != 'e' && input[pos] != 'E'
}

/// The input holds the first of two texts, and the second behind it, if
/// and only if it holds the two in a row.
pub proof fn holds_both(input: Seq<char>, pos: int, first: Seq<char>, second: Seq<char>)
    requires
        0 <= pos <= input.len(),
    ensures
        holds_at(input, pos, first + second) <==> holds_at(input, pos, first) && holds_at(
            input,
            pos + first.len(),
            second,
        ),
{
    let both = first + second;
    if holds_at(input, pos, both) {
        assert forall|i: int| 0 <= i < first.len() implies input[pos + i] == #[trigger] first[i] by {
            assert(both[i] == first[i]);
        }
        assert forall|i: int| 0 <= i < second.len() implies input[pos + first.len() + i]
            == #[trigger] second[i] by {
            assert(both[first.len() + i] == second[i]);
        }
    }
    if holds_at(input, pos, first) && holds_at(input, pos + first.len(), second) {
        assert forall|i: int| 0 <= i < both.len() implies input[pos + i] == #[trigger] both[i] by {
            if i < first.len() {
                assert(both[i] == first[i]);
            } else {
                assert(both[i] == second[i - first.len()]);
            }
        }
    }
}

/// A run of digits that the input holds, and that no digit follows, is
/// read back as it was written.
pub proof fn digits_read_back(input: Seq<char>, pos: int, digits: Seq<Digit>)
    requires
        0 <= pos <= input.len(),
        holds_at(input, pos, digits_text(digits)),
        pos + digits.len() < input.len() ==> digit_of(input[pos + digits.len()]) is None,
    ensures
        digits_end(input, pos) == pos + digits.len(),
        digits_between(input, pos, pos + digits.len()) == digits,
        pos + digits.len() <= input.len(),
    decreases digits.len(),
{
    let text = digits_text(digits);
    if digits.len() > 0 {
        let rest = digits.drop_first();
        assert(text[0] == digit_char(digits[0]));
        assert forall|i: int| 0 <= i < rest.len() implies input[pos + 1 + i]
            == #[trigger] digits_text(rest)[i] by {
            assert(text[i + 1] == digit_char(digits[i + 1]));
        }
        digits_read_back(input, pos + 1, rest);
        assert forall|i: int| 0 <= i < digits.len() implies digits_between(
            input,
            pos,
            pos + digits.len(),
        )[i] == digits[i] by {
            assert(text[i] == digit_char(digits[i]));
        }
    }
    assert(digits_between(input, pos, pos + digits.len()) =~= digits);
}

/// The character that writes a digit is read as that digit.
pub proof fn digit_char_is_digit(digit: Digit)
    ensures
        digit_of(digit_char(digit)) == Some(digit),
        digit_char(digit) != '-',
        digit_char(digit) != '+',
        digit_char(digit) != '.',
{
}

/// A number of the shape that RFC 8259 allows, that the input holds, and
/// with which no number goes on, is read back as it was written.
pub proof fn number_reads_back(input: Seq<char>, pos: int, number: NumberView)
    requires
        0 <= pos <= input.len(),
        number.is_well_formed(),
        holds_at(input, pos, number_text(number)),
        ends_number(input, pos + number_text(number).len()),
    ensures
        number_text(number).len() > 0,
        number_at(input, pos) == Ok::<_, TokenizeErrorView>(
            (number, pos + number_text(number).len()),
        ),
{
    let sign = sign_text(number.sign);
    let integer = digits_text(number.integer);
    let frac = frac_text(number.frac);
    let exp = exp_text(number.exp);
    let p1 = pos + sign.len();
    let p2 = p1 + integer.len();
    let p3 = p2 + frac.len();
    let p4 = p3 + exp.len();
    holds_both(input, pos, sign + integer + frac, exp);
    holds_both(input, pos, sign + integer, frac);
    holds_both(input, pos, sign, integer);
    digit_char_is_digit(number.integer[0]);
    assert(integer[0] == digit_char(number.integer[0]));
    assert(input[p1] == integer[0]);
    // the sign
    if number.sign == Sign::Negative {
        assert(input[pos] == sign[0]);
    }
    assert(neg_sign_at(input, pos) == Ok::<_, TokenizeErrorView>((number.sign, p1)));
    // what follows the integer part, the fractional part and the exponent
    match number.frac {
        Some(digits) => {
            holds_both(input, p2, seq!['.'], digits_text(digits));
            assert(input[p2] == seq!['.'][0]);
            digit_char_is_digit(digits[0]);
            assert(digits_text(digits)[0] == digit_char(digits[0]));
            assert(input[p2 + 1] == digits_text(digits)[0]);
        },
        None => {},
    }
    match number.exp {
        Some((s, digits)) => {
            holds_both(input, p3, seq!['e'] + sign_text(s), digits_text(digits));
            holds_both(input, p3, seq!['e'], sign_text(s));
            assert(input[p3] == seq!['e'][0]);
            digit_char_is_digit(digits[0]);
            assert(digits_text(digits)[0] == digit_char(digits[0]));
            let p = p3 + 1 + sign_text(s).len();
            assert(input[p] == digits_text(digits)[0]);
            if s == Sign::Negative {
                assert(input[p3 + 1] == sign_text(s)[0]);
            }
            assert(pn_sign_at(input, p3 + 1) == Ok::<_, TokenizeErrorView>((s, p)));
            digits_read_back(input, p, digits);
            assert(exp_at(input, p3) == Ok::<_, TokenizeErrorView>(
                (number.exp, p4),
            ));
        },
        None => {
            assert(exp_at(input, p3) == Ok::<_, TokenizeErrorView>(
                (number.exp, p4),
            ));
        },
    }
    match number.frac {
        Some(digits) => {
            digits_read_back(input, p2 + 1, digits);
            assert(frac_at(input, p2) == Ok::<_, TokenizeErrorView>(
                (number.frac, p3),
            ));
        },
        None => {
            assert(frac_at(input, p2) == Ok::<_, TokenizeErrorView>(
                (number.frac, p3),
            ));
        },
    }
    digits_read_back(input, p1, number.integer);
    if number.integer[0] == Digit::D0 {
        assert(number.integer =~= seq![Digit::D0]);
    }
    assert(int_at(input, p1) == Ok::<_, TokenizeErrorView>((number.integer, p2)));
}

/// The character that writes a hexadecimal digit.
pub open spec fn hex_char(value: int) -> char {
    if value < 10 {
        ('0' as int + value) as char
    } else {
        ('a' as int + value - 10) as char
    }
}

/// The characters that write one character of a string: the quotation
/// mark and the reverse solidus after a reverse solidus, a control
/// character as its code in four hexadecimal digits, and every other
/// character as itself.
pub open spec fn char_text(c: char) -> Seq<char> {
    if c == '"' || c == '\\' {
        seq!['\\', c]
    } else if is_control(c) {
        seq!['\\', 'u', '0', '0', hex_char(c as int / 16), hex_char(c as int % 16)]
    } else {
        seq![c]
    }
}

/// The characters that write the characters of a string.
pub open spec fn chars_text(text: Seq<char>) -> Seq<char>
    decreases text.len(),
{
    if text.len() == 0 {
        Seq::empty()
    } else {
        char_text(text[0]) + chars_text(text.drop_first())
    }
}

/// The characters that write a string, between quotation marks.
pub open spec fn string_text(text: Seq<char>) -> Seq<char> {
    seq!['"'] + chars_text(text) + seq!['"']
}

/// One character of a string that the input holds as it is written is read
/// back.
pub proof fn char_reads_back(input: Seq<char>, pos: int, c: char)
    requires
        0 <= pos <= input.len(),
        holds_at(input, pos, char_text(c)),
    ensures
        pos < input.len(),
        !is_control(input[pos]),
        input[pos] != '"',
        string_char_at(input, pos) == Ok::<_, TokenizeErrorView>((c, pos + char_text(c).len())),
{
    let text = char_text(c);
    assert(input[pos] == text[0]);
    if c == '"' || c == '\\' {
        assert(input[pos + 1] == text[1]);
    } else if is_control(c) {
        let hi = c as int / 16;
        let lo = c as int % 16;
        assert(input[pos + 1] == text[1]);
        assert(input[pos + 2] == text[2]);
        assert(input[pos + 3] == text[3]);
        assert(input[pos + 4] == text[4]);
        assert(input[pos + 5] == text[5]);
        assert(hexdigit_value('0') == Some(0u8));
        assert(hexdigit_value(hex_char(hi)) == Some(hi as u8));
        assert(hexdigit_value(hex_char(lo)) == Some(lo as u8));
        reveal_with_fuel(hex_number_at, 5);
        assert(hex_number_at(input, pos + 2, 4) == Ok::<_, TokenizeErrorView>(
            (c as nat, pos + 6),
        ));
        assert(code_unit_at(input, pos + 2) == Ok::<_, TokenizeErrorView>((c as u32, pos + 6)));
        assert((c as u32) as char == c);
        assert(escape_at(input, pos + 1) == Ok::<_, TokenizeErrorView>((c, pos + 6)));
    }
}

/// The characters of a string that the input holds as they are written,
/// with the closing quotation mark behind them, are read back.
pub proof fn string_reads_back(input: Seq<char>, pos: int, text: Seq<char>)
    requires
        0 <= pos <= input.len(),
        holds_at(input, pos, chars_text(text) + seq!['"']),
    ensures
        string_at(input, pos) == Ok::<_, TokenizeErrorView>(
            (text, pos + chars_text(text).len() + 1),
        ),
    decreases text.len(),
{
    let quote = seq!['"'];
    holds_both(input, pos, chars_text(text), quote);
    if text.len() == 0 {
        assert(input[pos] == quote[0]);
        assert(text =~= Seq::empty());
    } else {
        let rest = text.drop_first();
        let first = char_text(text[0]);
        holds_both(input, pos, first, chars_text(rest));
        char_reads_back(input, pos, text[0]);
        holds_both(input, pos + first.len(), chars_text(rest), quote);
        string_reads_back(input, pos + first.len(), rest);
        assert(seq![text[0]] + rest =~= text);
    }
}

/// The characters that write a token. White space is written as one
/// space.
pub open spec fn token_text(token: TokenView) -> Seq<char> {
    match token {
        TokenView::ArrayBegin => seq!['['],
        TokenView::ArrayEnd => seq![']'],
        TokenView::ObjectBegin => seq!['{'],
        TokenView::ObjectEnd => seq!['}'],
        TokenView::NameSeparator => seq![':'],
        TokenView::ValueSeparator => seq![','],
        TokenView::Number(number) => number_text(number),
        TokenView::String(text) => string_text(text),
        TokenView::True => seq!['t', 'r', 'u', 'e'],
        TokenView::False => seq!['f', 'a', 'l', 's', 'e'],
        TokenView::Null => seq!['n', 'u', 'l', 'l'],
        TokenView::WhiteSpace => seq![' '],
    }
}

/// The token `token` ends before `pos`: if it is a number, no number goes
/// on there, and if it is white space, no white space follows there.
pub open spec fn ends_token(input: Seq<char>, pos: int, token: TokenView) -> bool {
    &&& token is Number ==> ends_number(input, pos)
    &&& token is WhiteSpace ==> (0 <= pos < input.len() ==> !is_white_space(input[pos]))
}

/// A token that the input holds as it is written, and that ends where its
/// text ends, is read back.
pub proof fn token_reads_back(input: Seq<char>, pos: int, token: TokenView)
    requires
        0 <= pos <= input.len(),
        holds_at(input, pos, token_text(token)),
        token matches TokenView::Number(number) ==> number.is_well_formed(),
        ends_token(input, pos + token_text(token).len(), token),
    ensures
        token_text(token).len() > 0,
        token_at(input, pos) == Ok::<_, TokenizeErrorView>(
            (Some(token), pos + token_text(token).len()),
        ),
{
    let text = token_text(token);
    match token {
        TokenView::Number(number) => {
            number_reads_back(input, pos, number);
            digit_char_is_digit(number.integer[0]);
            assert(digits_text(number.integer)[0] == digit_char(number.integer[0]));
            assert(text[0] == if number.sign == Sign::Negative {
                '-'
            } else {
                digit_char(number.integer[0])
            });
            assert(input[pos] == text[0]);
        },
        TokenView::String(s) => {
            holds_both(input, pos, seq!['"'], chars_text(s) + seq!['"']);
            assert(text =~= seq!['"'] + (chars_text(s) + seq!['"']));
            assert(input[pos] == seq!['"'][0]);
            string_reads_back(input, pos + 1, s);
        },
        TokenView::True => {
            assert(text =~= seq!['t'] + seq!['r', 'u', 'e']);
            holds_both(input, pos, seq!['t'], seq!['r', 'u', 'e']);
            assert(input[pos] == seq!['t'][0]);
        },
        TokenView::False => {
            assert(text =~= seq!['f'] + seq!['a', 'l', 's', 'e']);
            holds_both(input, pos, seq!['f'], seq!['a', 'l', 's', 'e']);
            assert(input[pos] == seq!['f'][0]);
        },
        TokenView::Null => {
            assert(text =~= seq!['n'] + seq!['u', 'l', 'l']);
            holds_both(input, pos, seq!['n'], seq!['u', 'l', 'l']);
            assert(input[pos] == seq!['n'][0]);
        },
        TokenView::WhiteSpace => {
            assert(input[pos] == text[0]);
            assert(white_space_end(input, pos + 1) == pos + 1);
            assert(white_space_end(input, pos) == pos + 1);
        },
        _ => {
            assert(input[pos] == text[0]);
        },
    }
}

/// The characters that write tokens one behind the other.
pub open spec fn tokens_text(tokens: Seq<TokenView>) -> Seq<char>
    decreases tokens.len(),
{
    if tokens.len() == 0 {
        Seq::empty()
    } else {
        token_text(tokens[0]) + tokens_text(tokens.drop_first())
    }
}

/// The numbers among the tokens have the shape that RFC 8259 allows.
pub open spec fn numbers_well_formed(tokens: Seq<TokenView>) -> bool {
    forall|i: int|
        0 <= i < tokens.len() ==> ((#[trigger] tokens[i]) matches TokenView::Number(number)
            ==> number.is_well_formed())
}

/// The tokens can be told apart when they are written one behind the
/// other: none of them is white space, and no number follows a number.
pub open spec fn apart(tokens: Seq<TokenView>) -> bool {
    &&& forall|i: int| 0 <= i < tokens.len() ==> !((#[trigger] tokens[i]) is WhiteSpace)
    &&& forall|i: int|
        0 <= i < tokens.len() - 1 ==> !((#[trigger] tokens[i]) is Number && tokens[i + 1] is Number)
}

/// The text of a token is not empty. Unless the token is a number, no
/// number goes on with its first character; unless it is white space, its
/// first character is no white space.
pub proof fn token_text_starts(token: TokenView)
    requires
        token matches TokenView::Number(number) ==> number.is_well_formed(),
    ensures
        token_text(token).len() > 0,
        !(token is Number) ==> ends_number(token_text(token), 0),
        !(token is WhiteSpace) ==> !is_white_space(token_text(token)[0]),
{
    match token {
        TokenView::Number(number) => {
            digit_char_is_digit(number.integer[0]);
            assert(digits_text(number.integer)[0] == digit_char(number.integer[0]));
            assert(number_text(number)[0] == if number.sign == Sign::Negative {
                '-'
            } else {
                digit_char(number.integer[0])
            });
        },
        _ => {},
    }
}

/// Tokens that can be told apart, that the input holds as they are written
/// and with which the input ends, are read back, and nothing else is.
pub proof fn tokens_read_back(input: Seq<char>, pos: int, tokens: Seq<TokenView>)
    requires
        0 <= pos <= input.len(),
        holds_at(input, pos, tokens_text(tokens)),
        pos + tokens_text(tokens).len() == input.len(),
        numbers_well_formed(tokens),
        apart(tokens),
    ensures
        tokens_from(input, pos) == tokens,
        fault_from(input, pos) is None,
    decreases tokens.len(),
{
    if tokens.len() == 0 {
        assert(tokens =~= Seq::empty());
    } else {
        let first = tokens[0];
        let rest = tokens.drop_first();
        let text = token_text(first);
        holds_both(input, pos, text, tokens_text(rest));
        token_text_starts(first);
        let end = pos + text.len();
        if rest.len() > 0 {
            let next = token_text(rest[0]);
            assert(rest[0] == tokens[1]);
            token_text_starts(rest[0]);
            holds_both(input, end, next, tokens_text(rest.drop_first()));
            assert(input[end] == next[0]);
        }
        token_reads_back(input, pos, first);
        assert forall|i: int| 0 <= i < rest.len() implies ((#[trigger] rest[i]) matches TokenView::Number(
            number,
        ) ==> number.is_well_formed()) by {
            assert(rest[i] == tokens[i + 1]);
        }
        assert forall|i: int| 0 <= i < rest.len() implies !((#[trigger] rest[i]) is WhiteSpace) by {
            assert(rest[i] == tokens[i + 1]);
        }
        assert forall|i: int| 0 <= i < rest.len() - 1 implies !((#[trigger] rest[i]) is Number
            && rest[i + 1] is Number) by {
            assert(rest[i] == tokens[i + 1]);
            assert(rest[i + 1] == tokens[i + 2]);
        }
        tokens_read_back(input, end, rest);
        assert(seq![first] + rest =~= tokens);
    }
}

/// Tokens that can be told apart can still be told apart when they stand
/// one behind the other, unless a number meets a number.
pub proof fn apart_both(first: Seq<TokenView>, second: Seq<TokenView>)
    requires
        apart(first),
        apart(second),
        first.len() > 0 && second.len() > 0 ==> !(first.last() is Number && second[0] is Number),
    ensures
        apart(first + second),
{
    let both = first + second;
    assert forall|i: int| 0 <= i < both.len() implies !((#[trigger] both[i]) is WhiteSpace) by {
        if i < first.len() {
            assert(both[i] == first[i]);
        } else {
            assert(both[i] == second[i - first.len()]);
        }
    }
    assert forall|i: int| 0 <= i < both.len() - 1 implies !((#[trigger] both[i]) is Number
        && both[i + 1] is Number) by {
        if i + 1 < first.len() {
            assert(both[i] == first[i]);
            assert(both[i + 1] == first[i + 1]);
        } else if i < first.len() {
            assert(both[i] == first.last());
            assert(both[i + 1] == second[0]);
        } else {
            assert(both[i] == second[i - first.len()]);
            assert(both[i + 1] == second[i - first.len() + 1]);
        }
    }
}

/// The tokens that write a value can be told apart, and there is at least
/// one.
pub proof fn written_value_is_apart(value: ValueView)
    ensures
        apart(tokens_of(value)),
        tokens_of(value).len() > 0,
    decreases value, 1nat,
{
    match value {
        ValueView::Array(items) => {
            written_items_are_apart(items);
            apart_both(seq![TokenView::ArrayBegin], items_tokens(items));
            apart_both(seq![TokenView::ArrayBegin] + items_tokens(items), seq![TokenView::ArrayEnd]);
        },
        ValueView::Object(members) => {
            written_members_are_apart(members);
            apart_both(seq![TokenView::ObjectBegin], members_tokens(members));
            apart_both(
                seq![TokenView::ObjectBegin] + members_tokens(members),
                seq![TokenView::ObjectEnd],
            );
        },
        _ => {},
    }
}

/// The tokens that write the items of an array can be told apart.
pub proof fn written_items_are_apart(items: Seq<ValueView>)
    ensures
        apart(items_tokens(items)),
    decreases items, 0nat,
{
    if items.len() == 1 {
        written_value_is_apart(items[0]);
    } else if items.len() > 1 {
        let comma = seq![TokenView::ValueSeparator];
        written_items_are_apart(items.drop_last());
        written_value_is_apart(items.last());
        apart_both(items_tokens(items.drop_last()), comma);
        apart_both(items_tokens(items.drop_last()) + comma, tokens_of(items.last()));
    }
}

/// The tokens that write the members of an object can be told apart.
pub proof fn written_members_are_apart(members: Seq<(Seq<char>, ValueView)>)
    ensures
        apart(members_tokens(members)),
    decreases members, 0nat,
{
    if members.len() == 1 {
        let name = seq![TokenView::String(members[0].0), TokenView::NameSeparator];
        written_value_is_apart(members[0].1);
        apart_both(name, tokens_of(members[0].1));
    } else if members.len() > 1 {
        let name = seq![
            TokenView::ValueSeparator,
            TokenView::String(members.last().0),
            TokenView::NameSeparator,
        ];
        written_members_are_apart(members.drop_last());
        written_value_is_apart(members.last().1);
        apart_both(members_tokens(members.drop_last()), name);
        apart_both(members_tokens(members.drop_last()) + name, tokens_of(members.last().1));
    }
}

/// Tokens without white space are all that is left of them without white
/// space.
pub proof fn nothing_to_leave_out(tokens: Seq<TokenView>)
    requires
        forall|i: int| 0 <= i < tokens.len() ==> !((#[trigger] tokens[i]) is WhiteSpace),
    ensures
        without_white_space(tokens) == tokens,
    decreases tokens.len(),
{
    if tokens.len() > 0 {
        let rest = tokens.drop_first();
        assert forall|i: int| 0 <= i < rest.len() implies !((#[trigger] rest[i]) is WhiteSpace) by {
            assert(rest[i] == tokens[i + 1]);
        }
        nothing_to_leave_out(rest);
        assert(seq![tokens[0]] + rest =~= tokens);
    } else {
        assert(tokens =~= Seq::empty());
    }
}

/// The characters that write a value: those of its tokens, with no white
/// space between them.
pub open spec fn value_text(value: ValueView) -> Seq<char> {
    tokens_text(tokens_of(value))
}

/// Every value whose numbers have the shape that RFC 8259 allows can be
/// written: its text denotes it, and parsing the text yields it.
pub proof fn written_value_is_read_back(value: ValueView)
    requires
        numbers_well_formed(tokens_of(value)),
    ensures
        denotes(value_text(value), value),
        parse_of_text(value_text(value)) == Ok::<_, TokenizeErrorView>(value),
{
    let tokens = tokens_of(value);
    let text = value_text(value);
    written_value_is_apart(value);
    assert(holds_at(text, 0, text));
    tokens_read_back(text, 0, tokens);
    nothing_to_leave_out(tokens);
    parsing_is_the_grammar(tokens_from(text, 0), fault_from(text, 0), value);
}

/// Every such value can be written as bytes, too: parsing the UTF-8
/// encoding of its text yields it.
pub proof fn written_bytes_are_read_back(value: ValueView)
    requires
        numbers_well_formed(tokens_of(value)),
    ensures
        parse_of(vstd::utf8::encode_utf8(value_text(value))) == Ok::<_, TokenizeErrorView>(value),
{
    let text = value_text(value);
    let bytes = vstd::utf8::encode_utf8(text);
    vstd::utf8::encode_utf8_valid_utf8(text);
    vstd::utf8::encode_utf8_decode_utf8(text);
    assert(decoded(bytes) == Some(text));
    written_value_is_read_back(value);
    parse_is_the_grammar(bytes, value);
}

/// The numbers among the tokens of an input have the shape that RFC 8259
/// allows.
pub proof fn read_numbers_are_well_formed(input: Seq<char>, pos: int)
    ensures
        numbers_well_formed(tokens_from(input, pos)),
    decreases input.len() - pos,
{
    token_at_advances(input, pos);
    match token_at(input, pos) {
        Ok((Some(first), next)) => {
            let rest = tokens_from(input, next);
            number_at_well_formed(input, pos);
            read_numbers_are_well_formed(input, next);
            assert forall|i: int| 0 <= i < tokens_from(input, pos).len() implies ((
            #[trigger] tokens_from(input, pos)[i]) matches TokenView::Number(number)
                ==> number.is_well_formed()) by {
                if i > 0 {
                    assert(tokens_from(input, pos)[i] == rest[i - 1]);
                }
            }
        },
        _ => {},
    }
}

/// Leaving out the white space keeps the numbers as they are.
pub proof fn kept_numbers_are_well_formed(tokens: Seq<TokenView>)
    requires
        numbers_well_formed(tokens),
    ensures
        numbers_well_formed(without_white_space(tokens)),
    decreases tokens.len(),
{
    if tokens.len() > 0 {
        let rest = tokens.drop_first();
        assert forall|i: int| 0 <= i < rest.len() implies ((#[trigger] rest[i]) matches TokenView::Number(
            number,
        ) ==> number.is_well_formed()) by {
            assert(rest[i] == tokens[i + 1]);
        }
        kept_numbers_are_well_formed(rest);
        let kept = without_white_space(tokens);
        assert forall|i: int| 0 <= i < kept.len() implies ((#[trigger] kept[i]) matches TokenView::Number(
            number,
        ) ==> number.is_well_formed()) by {
            if !(tokens[0] is WhiteSpace) && i > 0 {
                assert(kept[i] == without_white_space(rest)[i - 1]);
            }
        }
    }
}

/// The values that parsing yields are the values whose numbers have the
/// shape that RFC 8259 allows: parsing yields no other value, and yields
/// each of these from the bytes that write it.
pub proof fn parsed_numbers_are_well_formed(bytes: Seq<u8>, value: ValueView)
    requires
        parse_of(bytes) == Ok::<_, TokenizeErrorView>(value),
    ensures
        numbers_well_formed(tokens_of(value)),
{
    parse_is_the_grammar(bytes, value);
    let text = decoded(bytes)->Some_0;
    read_numbers_are_well_formed(text, 0);
    kept_numbers_are_well_formed(tokens_from(text, 0));
}

} // verus!
