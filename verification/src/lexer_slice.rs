//! Functions to tokenize the text.
//!
//! Every reader takes the input and the position at which to read, and
//! hands back what it read with the position after it. What a reader hands
//! back is stated by a specification function of the same input and
//! position, named after what stands there: `hexdigit_at` for
//! `read_hexdigit`, and so on.
use vstd::prelude::*;
use crate::err::{TokenizeError, TokenizeErrorView};
use crate::idioms_slice::{
    self, holds_at, literal_at, read_one_or_more, reading, reads_in_a_row, ReaderResult, Reading,
};
use crate::lexer::Lexer;
use crate::number::{exp_view, frac_view, Digit, Number, NumberView, Sign};
use crate::token::{Token, TokenView};

verus! {

/// The first code unit of the high surrogates.
pub const HI_SURROGATE_MIN: u32 = 0xD800;

/// The last code unit of the high surrogates.
pub const HI_SURROGATE_MAX: u32 = 0xDBFF;

/// The first code unit of the low surrogates.
pub const LO_SURROGATE_MIN: u32 = 0xDC00;

/// The last code unit of the low surrogates.
pub const LO_SURROGATE_MAX: u32 = 0xDFFF;

/// The value of a hexadecimal digit, which is a character from `'0'` to
/// `'9'`, from `'a'` to `'f'` or from `'A'` to `'F'`.
pub open spec fn hexdigit_value(c: char) -> Option<u8> {
    if '0' <= c <= '9' {
        Some((c as u32 - '0' as u32) as u8)
    } else if 'a' <= c <= 'f' {
        Some((c as u32 - 'a' as u32 + 10) as u8)
    } else if 'A' <= c <= 'F' {
        Some((c as u32 - 'A' as u32 + 10) as u8)
    } else {
        None
    }
}

/// Reading one hexadecimal digit at `pos`.
pub open spec fn hexdigit_at(input: Seq<char>, pos: int) -> Reading<u8> {
    if 0 <= pos < input.len() {
        match hexdigit_value(input[pos]) {
            Some(value) => Ok((value, pos + 1)),
            None => Err(TokenizeErrorView::ExpectedAHexdigit),
        }
    } else {
        Err(TokenizeErrorView::InputEndedEarly)
    }
}

/// Reading `count` hexadecimal digits at `pos`, most significant first:
/// the number that they write. The first character that is no hexadecimal
/// digit, or the end of the input before the last digit, is the error.
pub open spec fn hex_number_at(input: Seq<char>, pos: int, count: nat) -> Reading<nat>
    decreases count,
{
    if count == 0 {
        Ok((0, pos))
    } else {
        match hex_number_at(input, pos, (count - 1) as nat) {
            Ok((high, last)) => match hexdigit_at(input, last) {
                Ok((low, end)) => Ok((16 * high + low as nat, end)),
                Err(e) => Err(e),
            },
            Err(e) => Err(e),
        }
    }
}

/// Reading a code unit at `pos`: four hexadecimal digits.
pub open spec fn code_unit_at(input: Seq<char>, pos: int) -> Reading<u32> {
    match hex_number_at(input, pos, 4) {
        Ok((unit, end)) => Ok((unit as u32, end)),
        Err(e) => Err(e),
    }
}

/// The code point that a surrogate pair encodes.
pub open spec fn surrogate_pair(hi: u32, lo: u32) -> u32 {
    (0x1_0000u32 + ((hi & 0x03FF) << 10) + (lo & 0x03FF)) as u32
}

/// Reading what follows `\u` at `pos`. One code unit stands for itself,
/// unless it is a surrogate. After a high surrogate a second escape of the
/// form `\uXXXX` must follow at once and hold a low surrogate: the two are
/// one character. A low surrogate that no high surrogate precedes is no
/// code point.
pub open spec fn unicode_escape_at(input: Seq<char>, pos: int) -> Reading<char> {
    match code_unit_at(input, pos) {
        Err(e) => Err(e),
        Ok((hi, next)) => if HI_SURROGATE_MIN <= hi <= HI_SURROGATE_MAX {
            if holds_at(input, next, seq!['\\', 'u']) {
                match code_unit_at(input, next + 2) {
                    Err(e) => Err(e),
                    Ok((lo, end)) => if LO_SURROGATE_MIN <= lo <= LO_SURROGATE_MAX {
                        Ok((surrogate_pair(hi, lo) as char, end))
                    } else {
                        Err(TokenizeErrorView::BigMessWithSurrogatePairs)
                    },
                }
            } else {
                Err(TokenizeErrorView::BigMessWithSurrogatePairs)
            }
        } else if LO_SURROGATE_MIN <= hi <= LO_SURROGATE_MAX {
            Err(TokenizeErrorView::InvalidUnicodeCodePoint)
        } else {
            Ok((hi as char, next))
        },
    }
}

/// The character that a one-character escape stands for.
pub open spec fn simple_escape(c: char) -> Option<char> {
    if c == '"' {
        Some('"')
    } else if c == '\\' {
        Some('\\')
    } else if c == '/' {
        Some('/')
    } else if c == 'b' {
        Some('\u{0008}')
    } else if c == 'f' {
        Some('\u{000C}')
    } else if c == 'n' {
        Some('\n')
    } else if c == 'r' {
        Some('\r')
    } else if c == 't' {
        Some('\t')
    } else {
        None
    }
}

/// Reading an escape sequence at `pos`, where the `\` has been read
/// already.
pub open spec fn escape_at(input: Seq<char>, pos: int) -> Reading<char> {
    if 0 <= pos < input.len() {
        if input[pos] == 'u' {
            unicode_escape_at(input, pos + 1)
        } else {
            match simple_escape(input[pos]) {
                Some(c) => Ok((c, pos + 1)),
                None => Err(TokenizeErrorView::UnkownEscapeSequence),
            }
        }
    } else {
        Err(TokenizeErrorView::InputEndedEarly)
    }
}

/// Reads an escape sequence (where the escaping character has already been read) from `input` according
/// to `pos`. Escape sequences are defined in the RFC8259 as:
///
/// | Pattern      | Viz  |  description   |  value |
/// |--------------|------|----------------|--------|
/// | %x22         | "    | quotation mark | U+0022 |
/// | %x5C         | \    | reverse solidus| U+005C |
/// | %x2F         | /    | solidus        | U+002F |
/// | %x62         | b    | backspace      | U+0008 |
/// | %x66         | f    | form feed      | U+000C |
/// | %x6E         | n    | line feed      | U+000A |
/// | %x72         | r    | carriage return| U+000D |
/// | %x74         | t    | tab            | U+0009 |
/// | %x75 4HEXDIG | uXXXX|                | U+XXXX |
///
/// A character beyond U+FFFF is written as two `uXXXX` escapes in a row, a
/// high and a low surrogate.
pub fn read_escape_sequence(input: &[char], pos: usize) -> (r: ReaderResult<char>)
    ensures
        reading(r) == escape_at(input@, pos as int),
        !(r matches Err(e) && e@ is InvalidSurrogatePairs),
{
    if pos < input.len() {
        match input[pos] {
            '"' => Ok(('"', pos + 1)),
            '\\' => Ok(('\\', pos + 1)),
            '/' => Ok(('/', pos + 1)),
            'b' => Ok(('\u{0008}', pos + 1)),
            'f' => Ok(('\u{000C}', pos + 1)),
            'n' => Ok(('\n', pos + 1)),
            'r' => Ok(('\r', pos + 1)),
            't' => Ok(('\t', pos + 1)),
            'u' => {
                let (a, pos) = match read_code_unit(input, pos + 1) {
                    Ok(unit) => unit,
                    Err(e) => return Err(e),
                };
                if HI_SURROGATE_MIN <= a && a <= HI_SURROGATE_MAX {
                    proof {
                        reveal_strlit("\\u");
                        assert("\\u"@ =~= seq!['\\', 'u']);
                    }
                    let pos = match idioms_slice::read_string(input, pos, "\\u") {
                        Ok(((), new_pos)) => new_pos,
                        Err(_) => return Err(TokenizeError::BigMessWithSurrogatePairs),
                    };
                    let (b, pos) = match read_code_unit(input, pos) {
                        Ok(unit) => unit,
                        Err(e) => return Err(e),
                    };
                    if LO_SURROGATE_MIN <= b && b <= LO_SURROGATE_MAX {
                        assert(0x1_0000u32 + ((a & 0x03FF) << 10) + (b & 0x03FF) <= 0x10_FFFF
                            && ((a & 0x03FF) << 10) <= 0xF_FC00 && (b & 0x03FF) <= 0x3FF)
                            by (bit_vector);
                        let mut code: u32 = 0x1_0000;
                        code += (a & 0x03FF) << 10;
                        code += b & 0x03FF;
                        match char::from_u32(code) {
                            Some(c) => Ok((c, pos)),
                            None => Err(TokenizeError::InvalidSurrogatePairs),
                        }
                    } else {
                        Err(TokenizeError::BigMessWithSurrogatePairs)
                    }
                } else {
                    match char::from_u32(a) {
                        Some(c) => Ok((c, pos)),
                        None => Err(TokenizeError::InvalidUnicodeCodePoint),
                    }
                }
            },
            _ => Err(TokenizeError::UnkownEscapeSequence),
        }
    } else {
        Err(TokenizeError::InputEndedEarly)
    }
}

/// Reads a code unit: exactly four hexadecimal digits, most significant
/// first.
pub fn read_code_unit(input: &[char], pos: usize) -> (r: ReaderResult<u32>)
    ensures
        reading(r) == code_unit_at(input@, pos as int),
        r matches Ok((unit, end)) ==> unit <= 0xFFFF && end == pos + 4 <= input@.len(),
        r matches Err(e) ==> e@ is ExpectedAHexdigit || e@ is InputEndedEarly,
{
    let mut a: u32 = 0;
    let mut at = pos;
    for count in 0..4
        invariant
            hex_number_at(input@, pos as int, count as nat) == Ok::<(nat, int), TokenizeErrorView>(
                (a as nat, at as int),
            ),
            at == pos + count,
            count > 0 ==> at <= input@.len(),
            (count == 0 ==> a == 0) && (count == 1 ==> a < 0x10) && (count == 2 ==> a < 0x100) && (
            count == 3 ==> a < 0x1000) && (count == 4 ==> a < 0x1_0000),
    {
        match read_hexdigit(input, at) {
            Ok((r, new_pos)) => {
                at = new_pos;
                a = a * 16 + r as u32;
            },
            Err(e) => {
                proof {
                    reveal_with_fuel(hex_number_at, 5);
                }
                return Err(e);
            },
        }
    }
    Ok((a, at))
}

/// Reads one character from input and converts it to u8 considering it as an hexdigit.
///
/// As specified in RFC8259 a hexdigit is a character from `'0'` to `'9'` or from `'a'` to `'f'`
/// (or from `'A'` to `'F'` since it is case insensitive).
pub fn read_hexdigit(input: &[char], pos: usize) -> (r: ReaderResult<u8>)
    ensures
        reading(r) == hexdigit_at(input@, pos as int),
        r matches Ok((value, end)) ==> value < 16 && end == pos + 1 <= input@.len(),
{
    if pos < input.len() {
        let c = input[pos];
        match c {
            '0'..='9' => Ok((c as u8 - '0' as u8, pos + 1)),
            'a'..='f' => Ok((c as u8 - 'a' as u8 + 10_u8, pos + 1)),
            'A'..='F' => Ok((c as u8 - 'A' as u8 + 10_u8, pos + 1)),
            _ => Err(TokenizeError::ExpectedAHexdigit),
        }
    } else {
        Err(TokenizeError::InputEndedEarly)
    }
}

/// The decimal digit that a character writes.
pub open spec fn digit_of(c: char) -> Option<Digit> {
    if c == '0' {
        Some(Digit::D0)
    } else if c == '1' {
        Some(Digit::D1)
    } else if c == '2' {
        Some(Digit::D2)
    } else if c == '3' {
        Some(Digit::D3)
    } else if c == '4' {
        Some(Digit::D4)
    } else if c == '5' {
        Some(Digit::D5)
    } else if c == '6' {
        Some(Digit::D6)
    } else if c == '7' {
        Some(Digit::D7)
    } else if c == '8' {
        Some(Digit::D8)
    } else if c == '9' {
        Some(Digit::D9)
    } else {
        None
    }
}

/// Reading one decimal digit at `pos`.
pub open spec fn digit_at(input: Seq<char>, pos: int) -> Reading<Digit> {
    if 0 <= pos < input.len() {
        match digit_of(input[pos]) {
            Some(digit) => Ok((digit, pos + 1)),
            None => Err(TokenizeErrorView::ExpectedADigit),
        }
    } else {
        Err(TokenizeErrorView::InputEndedEarly)
    }
}

/// The end of the longest run of decimal digits that starts at `pos`.
pub open spec fn digits_end(input: Seq<char>, pos: int) -> int
    decreases input.len() - pos,
{
    if 0 <= pos < input.len() && digit_of(input[pos]) is Some {
        digits_end(input, pos + 1)
    } else {
        pos
    }
}

/// The decimal digits that the characters from `from` up to `to` write.
pub open spec fn digits_between(input: Seq<char>, from: int, to: int) -> Seq<Digit> {
    Seq::new((to - from) as nat, |i: int| digit_of(input[from + i])->Some_0)
}

/// Reading one or more decimal digits at `pos`: as many as there are.
pub open spec fn digits_at(input: Seq<char>, pos: int) -> Reading<Seq<Digit>> {
    match digit_at(input, pos) {
        Ok(_) => Ok((digits_between(input, pos, digits_end(input, pos)), digits_end(input, pos))),
        Err(e) => Err(e),
    }
}

/// Reading the integer part of a number at `pos`. A zero is an integer
/// part by itself, whatever follows it; another digit starts a run of
/// digits, which is read to its end.
pub open spec fn int_at(input: Seq<char>, pos: int) -> Reading<Seq<Digit>> {
    match digit_at(input, pos) {
        Ok((first, next)) => if first == Digit::D0 {
            Ok((seq![Digit::D0], next))
        } else {
            Ok((digits_between(input, pos, digits_end(input, pos)), digits_end(input, pos)))
        },
        Err(e) => Err(e),
    }
}

/// Reading the optional fractional part of a number at `pos`: a point and
/// one or more digits. A point that no digit follows is an error, also at
/// the end of the input.
pub open spec fn frac_at(input: Seq<char>, pos: int) -> Reading<Option<Seq<Digit>>> {
    if 0 <= pos < input.len() && input[pos] == '.' {
        match digits_at(input, pos + 1) {
            Ok((frac, end)) => Ok((Some(frac), end)),
            Err(_) => Err(TokenizeErrorView::ExpectedADigit),
        }
    } else {
        Ok((None, pos))
    }
}

/// Reading an optional negative sign at `pos`.
pub open spec fn neg_sign_at(input: Seq<char>, pos: int) -> Reading<Sign> {
    if 0 <= pos < input.len() && input[pos] == '-' {
        Ok((Sign::Negative, pos + 1))
    } else {
        Ok((Sign::Positive, pos))
    }
}

/// Reading an optional sign at `pos`, positive or negative. No sign means a
/// positive one.
pub open spec fn pn_sign_at(input: Seq<char>, pos: int) -> Reading<Sign> {
    if 0 <= pos < input.len() && input[pos] == '-' {
        Ok((Sign::Negative, pos + 1))
    } else if 0 <= pos < input.len() && input[pos] == '+' {
        Ok((Sign::Positive, pos + 1))
    } else {
        Ok((Sign::Positive, pos))
    }
}

/// Reading the optional exponent of a number at `pos`: an `e` or an `E`, an
/// optional sign, and one or more digits.
pub open spec fn exp_at(input: Seq<char>, pos: int) -> Reading<Option<(Sign, Seq<Digit>)>> {
    if 0 <= pos < input.len() && (input[pos] == 'e' || input[pos] == 'E') {
        let (sign, digits) = pn_sign_at(input, pos + 1)->Ok_0;
        match digits_at(input, digits) {
            Ok((exp, end)) => Ok((Some((sign, exp)), end)),
            Err(e) => Err(e),
        }
    } else {
        Ok((None, pos))
    }
}

/// Reading a number at `pos`: an optional negative sign, the integer part,
/// an optional fractional part and an optional exponent.
pub open spec fn number_at(input: Seq<char>, pos: int) -> Reading<NumberView> {
    let (sign, after_sign) = neg_sign_at(input, pos)->Ok_0;
    match int_at(input, after_sign) {
        Err(e) => Err(e),
        Ok((integer, after_int)) => match frac_at(input, after_int) {
            Err(e) => Err(e),
            Ok((frac, after_frac)) => match exp_at(input, after_frac) {
                Err(e) => Err(e),
                Ok((exp, end)) => Ok((NumberView { sign, integer, frac, exp }, end)),
            },
        },
    }
}

/// The view of what `read_frac` handed back.
pub open spec fn frac_reading(r: ReaderResult<Option<Vec<Digit>>>) -> Reading<Option<Seq<Digit>>> {
    match r {
        Ok((frac, end)) => Ok((frac_view(frac), end as int)),
        Err(e) => Err(e@),
    }
}

/// The view of what `read_exp` handed back.
pub open spec fn exp_reading(r: ReaderResult<Option<(Sign, Vec<Digit>)>>) -> Reading<
    Option<(Sign, Seq<Digit>)>,
> {
    match r {
        Ok((exp, end)) => Ok((exp_view(exp), end as int)),
        Err(e) => Err(e@),
    }
}

/// A run of digits read one by one with `read_digit` is the longest run
/// of digits at its place.
proof fn digits_in_a_row(input: &[char], cuts: Seq<usize>, items: Seq<Digit>, upto: int)
    requires
        reads_in_a_row(read_digit, input, cuts, items),
        0 <= upto <= items.len(),
    ensures
        cuts[upto] == cuts[0] + upto,
        upto > 0 ==> cuts[upto] <= input@.len(),
        digits_end(input@, cuts[0] as int) == digits_end(input@, cuts[upto] as int),
        forall|i: int|
            0 <= i < upto ==> digit_of(#[trigger] input@[cuts[0] + i]) == Some(items[i]),
    decreases upto,
{
    if upto > 0 {
        digits_in_a_row(input, cuts, items, upto - 1);
        let before = cuts[upto - 1];
        assert(call_ensures(
            read_digit,
            (input, before),
            Ok::<(Digit, usize), TokenizeError>((items[upto - 1], cuts[upto])),
        ));
        assert(reading(Ok::<(Digit, usize), TokenizeError>((items[upto - 1], cuts[upto])))
            == digit_at(input@, before as int));
    }
}

/// Reads a decimal digit.
pub fn read_digit(input: &[char], pos: usize) -> (r: ReaderResult<Digit>)
    ensures
        reading(r) == digit_at(input@, pos as int),
{
    if pos < input.len() {
        match input[pos] {
            '0' => Ok((Digit::D0, pos + 1)),
            '1' => Ok((Digit::D1, pos + 1)),
            '2' => Ok((Digit::D2, pos + 1)),
            '3' => Ok((Digit::D3, pos + 1)),
            '4' => Ok((Digit::D4, pos + 1)),
            '5' => Ok((Digit::D5, pos + 1)),
            '6' => Ok((Digit::D6, pos + 1)),
            '7' => Ok((Digit::D7, pos + 1)),
            '8' => Ok((Digit::D8, pos + 1)),
            '9' => Ok((Digit::D9, pos + 1)),
            _ => Err(TokenizeError::ExpectedADigit),
        }
    } else {
        Err(TokenizeError::InputEndedEarly)
    }
}

/// Reads one or more decimal digits.
fn read_digits(input: &[char], pos: usize) -> (r: ReaderResult<Vec<Digit>>)
    ensures
        reading(r) == digits_at(input@, pos as int),
        r matches Ok((digits, end)) ==> digits@.len() > 0 && pos < end <= input@.len(),
{
    let r = read_one_or_more(input, pos, read_digit);
    proof {
        match &r {
            Ok((items, end)) => {
                let end = *end;
                let cuts = choose|cuts: Seq<usize>| #[trigger]
                    reads_in_a_row(read_digit, input, cuts, items@) && cuts[0] == pos
                        && cuts.last() == end;
                digits_in_a_row(input, cuts, items@, items@.len() as int);
                digits_in_a_row(input, cuts, items@, 1);
                let e = choose|e: TokenizeError|
                    call_ensures(
                        read_digit,
                        (input, end),
                        Err::<(Digit, usize), TokenizeError>(e),
                    );
                assert(reading(Err::<(Digit, usize), TokenizeError>(e)) == digit_at(
                    input@,
                    end as int,
                ));
                assert(digits_end(input@, end as int) == end);
                assert(items@ =~= digits_between(input@, pos as int, end as int));
            },
            Err(_) => {},
        }
    }
    r
}

/// Reads the int part of a RFC 8259 JSON number.
pub fn read_int(input: &[char], pos: usize) -> (r: ReaderResult<Vec<Digit>>)
    ensures
        reading(r) == int_at(input@, pos as int),
{
    match read_digit(input, pos) {
        Ok((Digit::D0, new_pos)) => {
            let r = vec![Digit::D0];
            assert(r@ =~= seq![Digit::D0]);
            Ok((r, new_pos))
        },
        Ok((d, new_pos)) => {
            let mut at = new_pos;
            let mut r = vec![d];
            assert(r@ =~= digits_between(input@, pos as int, at as int));
            loop
                invariant
                    pos < at <= input@.len(),
                    digits_end(input@, pos as int) == digits_end(input@, at as int),
                    r@ == digits_between(input@, pos as int, at as int),
                    r@[0] != Digit::D0,
                decreases input@.len() - at,
            {
                match read_digit(input, at) {
                    Ok((d, new_pos)) => {
                        assert(r@.push(d) =~= digits_between(input@, pos as int, new_pos as int));
                        at = new_pos;
                        r.push(d);
                    },
                    Err(_) => {
                        return Ok((r, at));
                    },
                }
            }
        },
        Err(e) => Err(e),
    }
}

/// Reads the fractional part of a RFC 8259 JSON number.
pub fn read_frac(input: &[char], pos: usize) -> (r: ReaderResult<Option<Vec<Digit>>>)
    ensures
        frac_reading(r) == frac_at(input@, pos as int),
{
    if pos < input.len() && input[pos] == '.' {
        match read_digits(input, pos + 1) {
            Ok((frac, new_pos)) => Ok((Some(frac), new_pos)),
            Err(_) => Err(TokenizeError::ExpectedADigit),
        }
    } else {
        Ok((None, pos))
    }
}

/// Reads the exponential part of a RFC 8259 JSON number.
pub fn read_exp(input: &[char], pos: usize) -> (r: ReaderResult<Option<(Sign, Vec<Digit>)>>)
    ensures
        exp_reading(r) == exp_at(input@, pos as int),
{
    if pos < input.len() && (input[pos] == 'e' || input[pos] == 'E') {
        let (sign, at) = match read_pn_sign(input, pos + 1) {
            Ok(read) => read,
            Err(e) => return Err(e),
        };
        match read_digits(input, at) {
            Ok((exp, new_pos)) => Ok((Some((sign, exp)), new_pos)),
            Err(e) => Err(e),
        }
    } else {
        Ok((None, pos))
    }
}

/// Reads an optional negative sign (`'-'`).
pub fn read_neg_sign(input: &[char], pos: usize) -> (r: ReaderResult<Sign>)
    ensures
        reading(r) == neg_sign_at(input@, pos as int),
        r is Ok,
{
    if pos < input.len() && input[pos] == '-' {
        Ok((Sign::Negative, pos + 1))
    } else {
        Ok((Sign::Positive, pos))
    }
}

/// Reads an optional positive sign (`'+'`) or a negative sign (`'-'`).
pub fn read_pn_sign(input: &[char], pos: usize) -> (r: ReaderResult<Sign>)
    ensures
        reading(r) == pn_sign_at(input@, pos as int),
        r is Ok,
{
    if pos < input.len() {
        if input[pos] == '-' {
            Ok((Sign::Negative, pos + 1))
        } else if input[pos] == '+' {
            Ok((Sign::Positive, pos + 1))
        } else {
            Ok((Sign::Positive, pos))
        }
    } else {
        Ok((Sign::Positive, pos))
    }
}

/// Reads a RFC 8259 JSON number.
pub fn read_number(input: &[char], pos: usize) -> (r: ReaderResult<Number>)
    ensures
        reading(r) == number_at(input@, pos as int),
        r matches Ok((number, _)) ==> number@.is_well_formed(),
{
    proof {
        number_at_well_formed(input@, pos as int);
    }
    let (sign, pos) = match read_neg_sign(input, pos) {
        Ok(read) => read,
        Err(e) => return Err(e),
    };
    let (integer, pos) = match read_int(input, pos) {
        Ok(read) => read,
        Err(e) => return Err(e),
    };
    let (frac, pos) = match read_frac(input, pos) {
        Ok(read) => read,
        Err(e) => return Err(e),
    };
    let (exp, new_pos) = match read_exp(input, pos) {
        Ok(read) => read,
        Err(e) => return Err(e),
    };
    Ok((Number::new(sign, integer, frac, exp), new_pos))
}

/// The white space of JSON: space, tab, line feed and carriage return.
pub open spec fn is_white_space(c: char) -> bool {
    c == ' ' || c == '\t' || c == '\x0A' || c == '\x0D'
}

/// The end of the longest run of white space that starts at `pos`.
pub open spec fn white_space_end(input: Seq<char>, pos: int) -> int
    decreases input.len() - pos,
{
    if 0 <= pos < input.len() && is_white_space(input[pos]) {
        white_space_end(input, pos + 1)
    } else {
        pos
    }
}

/// Reading white space at `pos`: all there is, which may be none.
pub open spec fn white_space_at(input: Seq<char>, pos: int) -> Reading<()> {
    Ok(((), white_space_end(input, pos)))
}

/// Reads RFC 8259 JSON white space.
pub fn read_white_space(input: &[char], pos: usize) -> (r: ReaderResult<()>)
    ensures
        reading(r) == white_space_at(input@, pos as int),
{
    let mut at = pos;
    while at < input.len() && is_space(input[at])
        invariant
            white_space_end(input@, pos as int) == white_space_end(input@, at as int),
        decreases input@.len() - at,
    {
        at += 1;
    }
    Ok(((), at))
}

/// Whether `c` is white space.
fn is_space(c: char) -> (r: bool)
    ensures
        r == is_white_space(c),
{
    match c {
        ' ' | '\t' | '\x0A' | '\x0D' => true,
        _ => false,
    }
}

/// A control character, which a string may hold only as an escape
/// sequence: U+0000 to U+001F.
pub open spec fn is_control(c: char) -> bool {
    c <= '\u{001F}'
}

/// `read`, with the characters `prefix` put in front of what was read.
pub open spec fn prefixed(prefix: Seq<char>, read: Reading<Seq<char>>) -> Reading<Seq<char>> {
    match read {
        Ok((rest, end)) => Ok((prefix + rest, end)),
        Err(e) => Err(e),
    }
}

/// Reading one character of a string at `pos`, which is neither a control
/// character nor the closing quote: an escape sequence or the character
/// itself.
pub open spec fn string_char_at(input: Seq<char>, pos: int) -> Reading<char> {
    if input[pos] == '\\' {
        escape_at(input, pos + 1)
    } else {
        Ok((input[pos], pos + 1))
    }
}

/// Reading a string at `pos`, where the opening quote has been read
/// already: the characters up to the closing quote, each escape sequence
/// replaced by the character that it stands for, and the position after the
/// closing quote.
pub open spec fn string_at(input: Seq<char>, pos: int) -> Reading<Seq<char>>
    decreases input.len() - pos,
    via string_at_ends
{
    if !(0 <= pos < input.len()) {
        Err(TokenizeErrorView::InputEndedEarly)
    } else if is_control(input[pos]) {
        Err(TokenizeErrorView::ControlCharacterUnescaped)
    } else if input[pos] == '"' {
        Ok((Seq::empty(), pos + 1))
    } else {
        match string_char_at(input, pos) {
            Ok((c, next)) => prefixed(seq![c], string_at(input, next)),
            Err(e) => Err(e),
        }
    }
}

#[via_fn]
proof fn string_at_ends(input: Seq<char>, pos: int) {
    if 0 <= pos < input.len() {
        escape_at_advances(input, pos + 1);
    }
}

/// As many hexadecimal digits as were asked for are read, or none.
pub proof fn hex_number_at_advances(input: Seq<char>, pos: int, count: nat)
    requires
        0 <= pos,
    ensures
        hex_number_at(input, pos, count) matches Ok((value, end)) ==> end == pos + count && (count
            > 0 ==> end <= input.len()),
    decreases count,
{
    if count > 0 {
        hex_number_at_advances(input, pos, (count - 1) as nat);
    }
}

/// An escape sequence is not empty, and ends within the input.
pub proof fn escape_at_advances(input: Seq<char>, pos: int)
    requires
        0 <= pos,
    ensures
        escape_at(input, pos) matches Ok((c, end)) ==> pos < end <= input.len(),
{
    hex_number_at_advances(input, pos + 1, 4);
    match code_unit_at(input, pos + 1) {
        Ok((hi, next)) => {
            hex_number_at_advances(input, next + 2, 4);
        },
        Err(_) => {},
    }
}

/// Reads RFC8259 JSON string.
pub fn read_string(input: &[char], pos: usize) -> (r: ReaderResult<String>)
    ensures
        reading(r) == string_at(input@, pos as int),
{
    let mut a = String::new();
    let mut at = pos;
    while at < input.len()
        invariant
            string_at(input@, pos as int) == prefixed(a@, string_at(input@, at as int)),
        decreases input@.len() - at,
    {
        let c = input[at];
        if c <= '\u{001F}' {
            return Err(TokenizeError::ControlCharacterUnescaped);
        } else if c == '"' {
            assert(a@ + Seq::<char>::empty() =~= a@);
            return Ok((a, at + 1));
        } else if c == '\\' {
            match read_escape_sequence(input, at + 1) {
                Ok((r, new_pos)) => {
                    proof {
                        escape_at_advances(input@, at + 1);
                        string_prefix(a@, r, string_at(input@, new_pos as int));
                    }
                    a.push(r);
                    at = new_pos;
                },
                Err(e) => return Err(e),
            }
        } else {
            proof {
                string_prefix(a@, c, string_at(input@, at + 1));
            }
            a.push(c);
            at += 1;
        }
    }
    Err(TokenizeError::InputEndedEarly)
}

/// Putting a character and then a prefix in front is putting the longer
/// prefix in front.
proof fn string_prefix(prefix: Seq<char>, c: char, read: Reading<Seq<char>>)
    ensures
        prefixed(prefix, prefixed(seq![c], read)) == prefixed(prefix.push(c), read),
{
    match read {
        Ok((rest, end)) => {
            assert(prefix + (seq![c] + rest) =~= prefix.push(c) + rest);
        },
        Err(_) => {},
    }
}

/// Reads a "rue" (ending of "true").
pub fn read_rue(input: &[char], pos: usize) -> (r: ReaderResult<()>)
    ensures
        reading(r) == literal_at(input@, pos as int, seq!['r', 'u', 'e']),
{
    proof {
        reveal_strlit("rue");
        assert("rue"@ =~= seq!['r', 'u', 'e']);
    }
    idioms_slice::read_string(input, pos, "rue")
}

/// Reads a "alse" (ending of "false").
pub fn read_alse(input: &[char], pos: usize) -> (r: ReaderResult<()>)
    ensures
        reading(r) == literal_at(input@, pos as int, seq!['a', 'l', 's', 'e']),
{
    proof {
        reveal_strlit("alse");
        assert("alse"@ =~= seq!['a', 'l', 's', 'e']);
    }
    idioms_slice::read_string(input, pos, "alse")
}

/// Reads a "ull" (ending of "null").
pub fn read_ull(input: &[char], pos: usize) -> (r: ReaderResult<()>)
    ensures
        reading(r) == literal_at(input@, pos as int, seq!['u', 'l', 'l']),
{
    proof {
        reveal_strlit("ull");
        assert("ull"@ =~= seq!['u', 'l', 'l']);
    }
    idioms_slice::read_string(input, pos, "ull")
}

/// The view of what `read_token` handed back.
pub open spec fn token_reading(r: ReaderResult<Option<Token>>) -> Reading<Option<TokenView>> {
    match r {
        Ok((Some(token), end)) => Ok((Some(token@), end as int)),
        Ok((None, end)) => Ok((None, end as int)),
        Err(e) => Err(e@),
    }
}

/// `read` as a token, made of what was read by `token`.
pub open spec fn as_token<T>(read: Reading<T>, token: spec_fn(T) -> TokenView) -> Reading<
    Option<TokenView>,
> {
    match read {
        Ok((t, end)) => Ok((Some(token(t)), end)),
        Err(e) => Err(e),
    }
}

/// Reading a token at `pos`. The first character decides which token it
/// must be, and the token is as long as it can be. At the end of the input
/// there is no token to read, which is no error.
pub open spec fn token_at(input: Seq<char>, pos: int) -> Reading<Option<TokenView>> {
    if 0 <= pos < input.len() {
        let c = input[pos];
        if digit_of(c) is Some || c == '-' {
            as_token(number_at(input, pos), |n: NumberView| TokenView::Number(n))
        } else if c == '"' {
            as_token(string_at(input, pos + 1), |s: Seq<char>| TokenView::String(s))
        } else if c == '[' {
            Ok((Some(TokenView::ArrayBegin), pos + 1))
        } else if c == ']' {
            Ok((Some(TokenView::ArrayEnd), pos + 1))
        } else if c == '{' {
            Ok((Some(TokenView::ObjectBegin), pos + 1))
        } else if c == '}' {
            Ok((Some(TokenView::ObjectEnd), pos + 1))
        } else if c == 't' {
            as_token(literal_at(input, pos + 1, seq!['r', 'u', 'e']), |u: ()| TokenView::True)
        } else if c == 'f' {
            as_token(
                literal_at(input, pos + 1, seq!['a', 'l', 's', 'e']),
                |u: ()| TokenView::False,
            )
        } else if c == 'n' {
            as_token(literal_at(input, pos + 1, seq!['u', 'l', 'l']), |u: ()| TokenView::Null)
        } else if c == ',' {
            Ok((Some(TokenView::ValueSeparator), pos + 1))
        } else if c == ':' {
            Ok((Some(TokenView::NameSeparator), pos + 1))
        } else if is_white_space(c) {
            as_token(white_space_at(input, pos), |u: ()| TokenView::WhiteSpace)
        } else {
            Err(TokenizeErrorView::UnkownToken)
        }
    } else {
        Ok((None, pos))
    }
}

/// Reads a JSON token.
pub fn read_token(input: &[char], pos: usize) -> (r: ReaderResult<Option<Token>>)
    ensures
        token_reading(r) == token_at(input@, pos as int),
{
    if pos < input.len() {
        match input[pos] {
            '0'..='9' | '-' => match read_number(input, pos) {
                Ok((n, new_pos)) => Ok((Some(Token::Number(n)), new_pos)),
                Err(e) => Err(e),
            },
            '"' => match read_string(input, pos + 1) {
                Ok((s, new_pos)) => Ok((Some(Token::String(s)), new_pos)),
                Err(e) => Err(e),
            },
            '[' => Ok((Some(Token::ArrayBegin), pos + 1)),
            ']' => Ok((Some(Token::ArrayEnd), pos + 1)),
            '{' => Ok((Some(Token::ObjectBegin), pos + 1)),
            '}' => Ok((Some(Token::ObjectEnd), pos + 1)),
            't' => match read_rue(input, pos + 1) {
                Ok((_, new_pos)) => Ok((Some(Token::True), new_pos)),
                Err(e) => Err(e),
            },
            'f' => match read_alse(input, pos + 1) {
                Ok((_, new_pos)) => Ok((Some(Token::False), new_pos)),
                Err(e) => Err(e),
            },
            'n' => match read_ull(input, pos + 1) {
                Ok((_, new_pos)) => Ok((Some(Token::Null), new_pos)),
                Err(e) => Err(e),
            },
            ',' => Ok((Some(Token::ValueSeparator), pos + 1)),
            ':' => Ok((Some(Token::NameSeparator), pos + 1)),
            ' ' | '\t' | '\x0A' | '\x0D' => match read_white_space(input, pos) {
                Ok((_, new_pos)) => Ok((Some(Token::WhiteSpace), new_pos)),
                Err(e) => Err(e),
            },
            _ => Err(TokenizeError::UnkownToken),
        }
    } else {
        Ok((None, pos))
    }
}

/// A run of digits ends where it starts or later, and within the input
/// if it starts there.
pub proof fn digits_end_bounds(input: Seq<char>, pos: int)
    requires
        0 <= pos,
    ensures
        pos <= digits_end(input, pos),
        pos <= input.len() ==> digits_end(input, pos) <= input.len(),
        0 <= pos < input.len() && digit_of(input[pos]) is Some ==> pos < digits_end(input, pos),
    decreases input.len() - pos,
{
    if 0 <= pos < input.len() && digit_of(input[pos]) is Some {
        digits_end_bounds(input, pos + 1);
    }
}

/// A run of white space ends where it starts or later, and within the
/// input if it starts there.
pub proof fn white_space_end_bounds(input: Seq<char>, pos: int)
    requires
        0 <= pos,
    ensures
        pos <= white_space_end(input, pos),
        pos <= input.len() ==> white_space_end(input, pos) <= input.len(),
        0 <= pos < input.len() && is_white_space(input[pos]) ==> pos < white_space_end(
            input,
            pos,
        ),
    decreases input.len() - pos,
{
    if 0 <= pos < input.len() && is_white_space(input[pos]) {
        white_space_end_bounds(input, pos + 1);
    }
}

/// A number that was read is not empty, ends within the input, and has the
/// shape that RFC 8259 allows: its integer part has no superfluous leading
/// zero, and its fractional part and its exponent, where it has them, hold
/// at least one digit.
pub proof fn number_at_well_formed(input: Seq<char>, pos: int)
    requires
        0 <= pos,
    ensures
        number_at(input, pos) matches Ok((number, end)) ==> pos < end <= input.len()
            && number.is_well_formed(),
{
    let after_sign = neg_sign_at(input, pos)->Ok_0.1;
    digits_end_bounds(input, after_sign);
    match int_at(input, after_sign) {
        Ok((integer, after_int)) => {
            digits_end_bounds(input, after_int + 1);
            match frac_at(input, after_int) {
                Ok((frac, after_frac)) => {
                    let after_e = pn_sign_at(input, after_frac + 1)->Ok_0.1;
                    digits_end_bounds(input, after_e);
                },
                Err(_) => {},
            }
        },
        Err(_) => {},
    }
}

/// A string that was read ends after where it starts, and within the
/// input.
pub proof fn string_at_advances(input: Seq<char>, pos: int)
    requires
        0 <= pos,
    ensures
        string_at(input, pos) matches Ok((text, end)) ==> pos < end <= input.len(),
    decreases input.len() - pos,
{
    if 0 <= pos < input.len() && !is_control(input[pos]) && input[pos] != '"' {
        escape_at_advances(input, pos + 1);
        match string_char_at(input, pos) {
            Ok((c, next)) => {
                string_at_advances(input, next);
            },
            Err(_) => {},
        }
    }
}

/// A token that was read is not empty and ends within the input.
pub proof fn token_at_advances(input: Seq<char>, pos: int)
    ensures
        token_at(input, pos) matches Ok((Some(token), end)) ==> 0 <= pos < end <= input.len(),
        token_at(input, pos) matches Ok((None, end)) ==> !(0 <= pos < input.len()),
{
    if 0 <= pos < input.len() {
        number_at_well_formed(input, pos);
        string_at_advances(input, pos + 1);
        white_space_end_bounds(input, pos);
        let rue = seq!['r', 'u', 'e'];
        let alse = seq!['a', 'l', 's', 'e'];
        let ull = seq!['u', 'l', 'l'];
        assert(holds_at(input, pos + 1, rue) ==> pos + 1 + 2 < input.len()) by {
            let _ = rue[2];
        }
        assert(holds_at(input, pos + 1, alse) ==> pos + 1 + 3 < input.len()) by {
            let _ = alse[3];
        }
        assert(holds_at(input, pos + 1, ull) ==> pos + 1 + 2 < input.len()) by {
            let _ = ull[2];
        }
    }
}

/// The errors with which reading a token can fail.
pub open spec fn is_token_fault(e: TokenizeErrorView) -> bool {
    ||| e is InputEndedEarly
    ||| e is ExpectedADigit
    ||| e is ExpectedAHexdigit
    ||| e is LitteralDidntMatch
    ||| e is ControlCharacterUnescaped
    ||| e is UnkownEscapeSequence
    ||| e is InvalidUnicodeCodePoint
    ||| e is UnkownToken
    ||| e is BigMessWithSurrogatePairs
}

/// Reading hexadecimal digits fails only for want of a hexadecimal digit.
pub proof fn hex_number_at_faults(input: Seq<char>, pos: int, count: nat)
    ensures
        hex_number_at(input, pos, count) matches Err(e) ==> e is InputEndedEarly
            || e is ExpectedAHexdigit,
    decreases count,
{
    if count > 0 {
        hex_number_at_faults(input, pos, (count - 1) as nat);
    }
}

/// Reading a string fails only with an error of the tokenizer.
pub proof fn string_at_faults(input: Seq<char>, pos: int)
    requires
        0 <= pos,
    ensures
        string_at(input, pos) matches Err(e) ==> is_token_fault(e),
    decreases input.len() - pos,
{
    if 0 <= pos < input.len() && !is_control(input[pos]) && input[pos] != '"' {
        escape_at_advances(input, pos + 1);
        hex_number_at_faults(input, pos + 2, 4);
        match code_unit_at(input, pos + 2) {
            Ok((hi, next)) => {
                hex_number_at_faults(input, next + 2, 4);
            },
            Err(_) => {},
        }
        match string_char_at(input, pos) {
            Ok((c, next)) => {
                string_at_faults(input, next);
            },
            Err(_) => {},
        }
    }
}

/// Reading a token fails only with an error of the tokenizer: never with
/// an error of the grammar, of the decoding or of the parser itself, and
/// never for an invalid surrogate pair, as every pair of a high and a low
/// surrogate is a character.
pub proof fn token_at_faults(input: Seq<char>, pos: int)
    ensures
        token_at(input, pos) matches Err(e) ==> is_token_fault(e),
{
    if 0 <= pos < input.len() {
        string_at_faults(input, pos + 1);
    }
}

/// The fault of an input, if it has one, is an error of the tokenizer.
pub proof fn fault_from_is_token_fault(input: Seq<char>, pos: int)
    ensures
        fault_from(input, pos) matches Some(e) ==> is_token_fault(e),
    decreases input.len() - pos,
{
    token_at_advances(input, pos);
    token_at_faults(input, pos);
    match token_at(input, pos) {
        Ok((Some(_), next)) => {
            fault_from_is_token_fault(input, next);
        },
        _ => {},
    }
}

/// The tokens that the input holds from `pos` on, up to its end or to the
/// first place where no token can be read.
pub open spec fn tokens_from(input: Seq<char>, pos: int) -> Seq<TokenView>
    decreases input.len() - pos,
    via tokens_from_ends
{
    match token_at(input, pos) {
        Ok((Some(token), next)) => seq![token] + tokens_from(input, next),
        _ => Seq::empty(),
    }
}

#[via_fn]
proof fn tokens_from_ends(input: Seq<char>, pos: int) {
    token_at_advances(input, pos);
}

/// The error at the first place from `pos` on where no token can be read,
/// if the input does not end first.
pub open spec fn fault_from(input: Seq<char>, pos: int) -> Option<TokenizeErrorView>
    decreases input.len() - pos,
    via fault_from_ends
{
    match token_at(input, pos) {
        Ok((Some(_), next)) => fault_from(input, next),
        Ok((None, _)) => None,
        Err(e) => Some(e),
    }
}

#[via_fn]
proof fn fault_from_ends(input: Seq<char>, pos: int) {
    token_at_advances(input, pos);
}

/// Every token takes at least one character, so an input holds no more
/// tokens than characters.
pub proof fn tokens_from_bounded(input: Seq<char>, pos: int)
    requires
        0 <= pos <= input.len(),
    ensures
        tokens_from(input, pos).len() <= input.len() - pos,
    decreases input.len() - pos,
{
    token_at_advances(input, pos);
    match token_at(input, pos) {
        Ok((Some(_), next)) => {
            tokens_from_bounded(input, next);
        },
        _ => {},
    }
}

/// A run of digits is read to its end.
pub proof fn digits_end_is_maximal(input: Seq<char>, pos: int)
    requires
        0 <= pos,
    ensures
        ({
            let end = digits_end(input, pos);
            &&& forall|i: int| pos <= i < end ==> digit_of(#[trigger] input[i]) is Some
            &&& end < input.len() ==> digit_of(input[end]) is None
        }),
    decreases input.len() - pos,
{
    if 0 <= pos < input.len() && digit_of(input[pos]) is Some {
        digits_end_is_maximal(input, pos + 1);
    }
}

/// A run of white space is read to its end.
pub proof fn white_space_end_is_maximal(input: Seq<char>, pos: int)
    requires
        0 <= pos,
    ensures
        ({
            let end = white_space_end(input, pos);
            &&& forall|i: int| pos <= i < end ==> is_white_space(#[trigger] input[i])
            &&& end < input.len() ==> !is_white_space(input[end])
        }),
    decreases input.len() - pos,
{
    if 0 <= pos < input.len() && is_white_space(input[pos]) {
        white_space_end_is_maximal(input, pos + 1);
    }
}

/// A run of white space is one token: no two white space tokens follow
/// each other.
pub proof fn white_space_is_never_split(input: Seq<char>, pos: int)
    ensures
        ({
            let tokens = tokens_from(input, pos);
            tokens.len() >= 2 && tokens[0] is WhiteSpace ==> !(tokens[1] is WhiteSpace)
        }),
{
    token_at_advances(input, pos);
    match token_at(input, pos) {
        Ok((Some(first), next)) => {
            let rest = tokens_from(input, next);
            assert(tokens_from(input, pos) =~= seq![first] + rest);
            if first is WhiteSpace && rest.len() >= 1 {
                white_space_end_is_maximal(input, pos);
                assert(next == white_space_end(input, pos));
                token_at_advances(input, next);
                assert(tokens_from(input, pos)[1] == rest[0]);
            }
        },
        _ => {},
    }
}

/// A tokenizer on a slice of characters. All it remembers between two
/// requests is where it stands in its input.
pub struct LexerSlice<'a> {
    input: &'a [char],
    pos: usize,
}

impl<'a> LexerSlice<'a> {
    /// The characters that the tokenizer reads.
    pub closed spec fn input(&self) -> Seq<char> {
        self.input@
    }

    /// The place at which the tokenizer reads next.
    pub closed spec fn position(&self) -> int {
        self.pos as int
    }

    /// A tokenizer at the start of `input`.
    pub fn new(input: &'a [char]) -> (lexer: Self)
        ensures
            lexer.input() == input@,
            lexer.position() == 0,
            lexer.pending() == tokens_from(input@, 0),
            lexer.fault() == fault_from(input@, 0),
    {
        Self { input, pos: 0 }
    }
}

impl<'a> Lexer for LexerSlice<'a> {
    closed spec fn pending(&self) -> Seq<TokenView> {
        tokens_from(self.input@, self.pos as int)
    }

    closed spec fn fault(&self) -> Option<TokenizeErrorView> {
        fault_from(self.input@, self.pos as int)
    }

    /// Reads one token and moves behind it. At a place where no token can
    /// be read it stays, and hands out the error.
    fn next(&mut self) -> (item: Option<Result<Token, TokenizeError>>)
        ensures
            final(self).input() == old(self).input(),
            token_at(old(self).input(), old(self).position()) matches Ok((Some(_), end))
                ==> final(self).position() == end,
            !(token_at(old(self).input(), old(self).position()) matches Ok((Some(_), _)))
                ==> final(self).position() == old(self).position(),
    {
        match read_token(self.input, self.pos) {
            Ok((Some(token), new_pos)) => {
                assert((seq![token@] + tokens_from(self.input@, new_pos as int)).drop_first()
                    =~= tokens_from(self.input@, new_pos as int));
                self.pos = new_pos;
                Some(Ok(token))
            },
            Ok((None, _)) => None,
            Err(e) => Some(Err(e)),
        }
    }
}

} // verus!
