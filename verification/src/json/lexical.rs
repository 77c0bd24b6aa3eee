//! The tokens of a document: white space, words and numbers.

use crate::numeral::{is_digit, numeral_read, read_numeral, Numeral};
use crate::value::{Value, ValueModel};
use vstd::prelude::*;
use vstd::utf8::{decode_utf8, valid_utf8};

verus! {

/// Whether a byte is white space between the tokens of a document.
pub open spec fn is_space(b: u8) -> bool {
    b == 0x20 || b == 0x09 || b == 0x0a || b == 0x0d
}

/// The first place at or after `pos` that holds no white space.
pub open spec fn after_space(text: Seq<u8>, pos: int) -> int
    decreases text.len() - pos,
{
    if 0 <= pos < text.len() && is_space(text[pos]) {
        after_space(text, pos + 1)
    } else {
        pos
    }
}

/// Skips the white space at `pos`.
pub fn skip_space(text: &[u8], pos: usize) -> (next: usize)
    requires
        pos <= text@.len(),
    ensures
        next == after_space(text@, pos as int),
        pos <= next <= text@.len(),
{
    let mut i: usize = pos;
    while i < text.len() && (text[i] == 0x20 || text[i] == 0x09 || text[i] == 0x0a || text[i] == 0x0d)
        invariant
            pos <= i <= text@.len(),
            after_space(text@, pos as int) == after_space(text@, i as int),
        decreases text@.len() - i,
    {
        i = i + 1;
    }
    i
}

/// Whether the four bytes at `pos` are the given ones.
pub open spec fn word4_at(text: Seq<u8>, pos: int, a: u8, b: u8, c: u8, d: u8) -> bool {
    0 <= pos && pos + 4 <= text.len() && text[pos] == a && text[pos + 1] == b && text[pos + 2] == c && text[pos + 3] == d
}

/// Whether the word `null` stands at `pos`.
pub open spec fn null_at(text: Seq<u8>, pos: int) -> bool {
    word4_at(text, pos, 0x6e, 0x75, 0x6c, 0x6c)
}

/// Whether the word `true` stands at `pos`.
pub open spec fn true_at(text: Seq<u8>, pos: int) -> bool {
    word4_at(text, pos, 0x74, 0x72, 0x75, 0x65)
}

/// Whether the word `false` stands at `pos`.
pub open spec fn false_at(text: Seq<u8>, pos: int) -> bool {
    word4_at(text, pos + 1, 0x61, 0x6c, 0x73, 0x65) && text[pos] == 0x66
}

/// Whether the four bytes at `pos` are the given ones.
pub fn has_word4(text: &[u8], pos: usize, a: u8, b: u8, c: u8, d: u8) -> (r: bool)
    requires
        pos <= text@.len(),
    ensures
        r == word4_at(text@, pos as int, a, b, c, d),
{
    text.len() - pos >= 4 && text[pos] == a && text[pos + 1] == b && text[pos + 2] == c && text[pos + 3] == d
}

/// The first place at or after `pos` that holds no decimal digit.
pub open spec fn after_digits(text: Seq<u8>, pos: int) -> int
    decreases text.len() - pos,
{
    if 0 <= pos < text.len() && is_digit(text[pos]) {
        after_digits(text, pos + 1)
    } else {
        pos
    }
}

/// Digits are only ever skipped forwards, and never beyond the end.
pub proof fn lemma_after_digits_bounds(text: Seq<u8>, pos: int)
    requires
        0 <= pos <= text.len(),
    ensures
        pos <= after_digits(text, pos) <= text.len(),
    decreases text.len() - pos,
{
    if pos < text.len() && is_digit(text[pos]) {
        lemma_after_digits_bounds(text, pos + 1);
    }
}

/// Skips the decimal digits at `pos`.
pub fn skip_digits(text: &[u8], pos: usize) -> (next: usize)
    requires
        pos <= text@.len(),
    ensures
        next == after_digits(text@, pos as int),
        pos <= next <= text@.len(),
{
    let mut i: usize = pos;
    while i < text.len() && text[i] >= 0x30 && text[i] <= 0x39
        invariant
            pos <= i <= text@.len(),
            after_digits(text@, pos as int) == after_digits(text@, i as int),
        decreases text@.len() - i,
    {
        i = i + 1;
    }
    i
}

/// Where the whole part of a number that begins at `pos` ends: after a zero,
/// or after a run of digits that begins with another digit. `None` where no
/// digit stands at `pos`.
pub open spec fn whole_end(text: Seq<u8>, pos: int) -> Option<int> {
    if 0 <= pos < text.len() && is_digit(text[pos]) {
        if text[pos] == 0x30 {
            Some(pos + 1)
        } else {
            Some(after_digits(text, pos))
        }
    } else {
        None
    }
}

/// Where the fraction of a number ends, if one begins at `pos`: a point and
/// one digit or more. `Some(pos)` where no point stands at `pos`; `None` where
/// no digit follows the point.
pub open spec fn fraction_end(text: Seq<u8>, pos: int) -> Option<int> {
    if 0 <= pos < text.len() && text[pos] == 0x2e {
        if after_digits(text, pos + 1) > pos + 1 {
            Some(after_digits(text, pos + 1))
        } else {
            None
        }
    } else {
        Some(pos)
    }
}

/// Where the exponent of a number ends, if one begins at `pos`: the letter e
/// in either case, a sign or none, and one digit or more. `Some(pos)` where no
/// such letter stands at `pos`; `None` where no digit follows.
pub open spec fn exponent_end(text: Seq<u8>, pos: int) -> Option<int> {
    if 0 <= pos < text.len() && (text[pos] == 0x65 || text[pos] == 0x45) {
        let digits = if pos + 1 < text.len() && (text[pos + 1] == 0x2b || text[pos + 1] == 0x2d) {
            pos + 2
        } else {
            pos + 1
        };
        if after_digits(text, digits) > digits {
            Some(after_digits(text, digits))
        } else {
            None
        }
    } else {
        Some(pos)
    }
}

/// Where a number and its parts end.
pub struct NumberSpan {
    /// Where the whole part ends.
    pub whole: int,
    /// Where the number ends.
    pub end: int,
}

/// The span of the number that begins at `pos`: a minus sign or none, the
/// whole part, a fraction or none, an exponent or none.
pub open spec fn number_span(text: Seq<u8>, pos: int) -> Option<NumberSpan> {
    let digits = if 0 <= pos < text.len() && text[pos] == 0x2d {
        pos + 1
    } else {
        pos
    };
    match whole_end(text, digits) {
        None => None,
        Some(whole) => match fraction_end(text, whole) {
            None => None,
            Some(fraction) => match exponent_end(text, fraction) {
                None => None,
                Some(end) => Some(NumberSpan { whole, end }),
            },
        },
    }
}

/// The text that bytes hold in UTF-8, where they do.
pub open spec fn utf8_text(bytes: Seq<u8>) -> Option<Seq<char>> {
    if valid_utf8(bytes) {
        Some(decode_utf8(bytes))
    } else {
        None
    }
}

/// The value of the number written from `pos` up to `span.end`: the integer
/// where it is written without fraction and exponent and can be held; else
/// the numeral as it is written.
pub open spec fn number_value(text: Seq<u8>, pos: int, span: NumberSpan) -> Option<ValueModel> {
    let written = text.subrange(pos, span.end);
    match numeral_read(written) {
        Numeral::Number(i) => if span.whole == span.end {
            Some(ValueModel::Int(i))
        } else {
            match utf8_text(written) {
                Some(t) => Some(ValueModel::Real(t)),
                None => None,
            }
        },
        _ => match utf8_text(written) {
            Some(t) => Some(ValueModel::Real(t)),
            None => None,
        },
    }
}

/// `String::from_utf8` of the standard library: the text that the bytes hold
/// in UTF-8, and `None` where they hold none. The text that comes back is
/// made of exactly the bytes given.
#[verifier::external_body]
pub(crate) fn text_of_bytes(bytes: Vec<u8>) -> (text: Option<String>)
    ensures
        text is Some <==> valid_utf8(bytes@),
        text matches Some(t) ==> t@ == decode_utf8(bytes@),
{
    match String::from_utf8(bytes) {
        Ok(text) => Some(text),
        Err(_) => None,
    }
}

/// A copy of the bytes from `start` up to `end`.
pub fn copy_range(text: &[u8], start: usize, end: usize) -> (copy: Vec<u8>)
    requires
        start <= end <= text@.len(),
    ensures
        copy@ == text@.subrange(start as int, end as int),
{
    let mut copy: Vec<u8> = Vec::new();
    let mut i: usize = start;
    while i < end
        invariant
            start <= i <= end <= text@.len(),
            copy@ == text@.subrange(start as int, i as int),
        decreases end - i,
    {
        copy.push(text[i]);
        assert(copy@ =~= text@.subrange(start as int, i + 1));
        i = i + 1;
    }
    copy
}

/// Finds the span of the number that begins at `pos`: where its whole part
/// ends and where it ends.
pub fn read_span(text: &[u8], pos: usize) -> (r: Option<(usize, usize)>)
    requires
        pos <= text@.len(),
    ensures
        match r {
            Some((whole, end)) => number_span(text@, pos as int) == Some(NumberSpan { whole: whole as int, end: end as int })
                && pos < whole <= end <= text@.len(),
            None => number_span(text@, pos as int) is None,
        },
{
    let n = text.len();
    let digits = if pos < n && text[pos] == 0x2d {
        pos + 1
    } else {
        pos
    };
    if !(digits < n && text[digits] >= 0x30 && text[digits] <= 0x39) {
        return None;
    }
    let whole = if text[digits] == 0x30 {
        digits + 1
    } else {
        skip_digits(text, digits)
    };
    proof {
        lemma_after_digits_bounds(text@, digits + 1);
    }
    assert(is_digit(text@[digits as int]));
    assert(after_digits(text@, digits as int) == after_digits(text@, digits + 1));
    assert(whole_end(text@, digits as int) == Some(whole as int));
    let fraction = if whole < n && text[whole] == 0x2e {
        let after = skip_digits(text, whole + 1);
        if after == whole + 1 {
            return None;
        }
        after
    } else {
        whole
    };
    assert(fraction_end(text@, whole as int) == Some(fraction as int));
    let end = if fraction < n && (text[fraction] == 0x65 || text[fraction] == 0x45) {
        let from = if fraction + 1 < n && (text[fraction + 1] == 0x2b || text[fraction + 1] == 0x2d) {
            fraction + 2
        } else {
            fraction + 1
        };
        let after = skip_digits(text, from);
        if after == from {
            return None;
        }
        after
    } else {
        fraction
    };
    assert(exponent_end(text@, fraction as int) == Some(end as int));
    Some((whole, end))
}

/// Whether the bytes write a number, from their first to their last.
pub open spec fn is_number_text(bytes: Seq<u8>) -> bool {
    number_span(bytes, 0) matches Some(span) && span.end == bytes.len()
}

/// Whether the bytes write a number, from their first to their last.
pub fn is_number(bytes: &[u8]) -> (r: bool)
    ensures
        r == is_number_text(bytes@),
{
    match read_span(bytes, 0) {
        Some((_, end)) => end == bytes.len(),
        None => false,
    }
}

/// Reads the number that begins at `pos`: its value and where it ends.
pub fn read_number(text: &[u8], pos: usize) -> (r: Option<(Value, usize)>)
    requires
        pos <= text@.len(),
    ensures
        match r {
            Some((value, next)) => number_span(text@, pos as int) matches Some(span) && span.end == next && number_value(
                text@,
                pos as int,
                span,
            ) == Some(value@) && pos < next <= text@.len(),
            None => match number_span(text@, pos as int) {
                Some(span) => number_value(text@, pos as int, span) is None,
                None => true,
            },
        },
{
    let (whole, end) = match read_span(text, pos) {
        Some(span) => span,
        None => {
            return None;
        },
    };
    if whole == end {
        match read_numeral(text, pos, end) {
            Numeral::Number(i) => {
                return Some((Value::Int(i), end));
            },
            _ => {},
        }
    }
    match text_of_bytes(copy_range(text, pos, end)) {
        Some(t) => Some((Value::Real(t), end)),
        None => None,
    }
}

} // verus!
