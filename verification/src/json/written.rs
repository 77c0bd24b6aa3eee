//! How documents are written, and the proof that decoding gives back what was written.

use super::document::{decoded, entries_at, items_at, value_at, Parsed, MAX_NESTING};
use super::lexical::{
    after_digits, after_space, exponent_end, fraction_end, is_space, number_span, number_value,
    utf8_text, whole_end, NumberSpan,
};
use super::strings::{escape_at, hex4_at, hex_digit, simple_escape, string_at, string_bytes};
use crate::numeral::{all_digits, digits_value, is_digit, numeral_digits, numeral_read, Numeral};
use crate::value::ValueModel;
use vstd::prelude::*;
use vstd::utf8::{
    encode_scalar, encode_utf8, has_width_1_encoding, has_width_2_encoding, has_width_3_encoding, is_scalar,
};

verus! {

/// The decimal digits that write a number, without leading zeros.
pub open spec fn decimal(n: nat) -> Seq<u8>
    decreases n,
{
    if n < 10 {
        seq![(0x30 + n) as u8]
    } else {
        decimal(n / 10).push((0x30 + n % 10) as u8)
    }
}

/// The numeral that writes an integer: a minus sign where it is below zero,
/// then its decimal digits.
pub open spec fn int_text(i: int) -> Seq<u8> {
    if i < 0 {
        seq![0x2du8] + decimal((-i) as nat)
    } else {
        decimal(i as nat)
    }
}

/// The digits of a number are digits, write that number, and begin with a
/// zero only where the number is zero.
pub proof fn lemma_decimal(n: nat)
    ensures
        decimal(n).len() >= 1,
        all_digits(decimal(n)),
        digits_value(decimal(n)) == n,
        n > 0 ==> decimal(n)[0] != 0x30,
        n == 0 ==> decimal(n) == seq![0x30u8],
    decreases n,
{
    if n < 10 {
        let d = decimal(n);
        assert(d.drop_last() =~= Seq::<u8>::empty());
        assert(digits_value(d.drop_last()) == 0);
    } else {
        lemma_decimal(n / 10);
        let head = decimal(n / 10);
        let d = decimal(n);
        assert(d.drop_last() =~= head);
        assert(d[0] == head[0]);
        assert forall|i: int| 0 <= i < d.len() implies is_digit(#[trigger] d[i]) by {
            if i < head.len() {
                assert(d[i] == head[i]);
            }
        }
    }
}

/// The numeral of an integer that 64 bits with a sign can hold reads back as
/// that integer.
pub proof fn law_numeral_reads_back(i: i64)
    ensures
        numeral_read(int_text(i as int)) == Numeral::Number(i),
{
    let t = int_text(i as int);
    if i < 0 {
        let n = (-(i as int)) as nat;
        lemma_decimal(n);
        assert(t[0] == 0x2d);
        assert(numeral_digits(t) =~= decimal(n));
    } else {
        let n = i as nat;
        lemma_decimal(n);
        assert(is_digit(t[0]));
        assert(numeral_digits(t) == t);
    }
}

/// A run of digits that ends where the text ends or a byte that is no digit
/// stands is skipped as a whole.
pub proof fn lemma_digits_run(text: Seq<u8>, pos: int, end: int)
    requires
        0 <= pos <= end <= text.len(),
        forall|k: int| pos <= k < end ==> is_digit(#[trigger] text[k]),
        end == text.len() || !is_digit(text[end]),
    ensures
        after_digits(text, pos) == end,
    decreases end - pos,
{
    if pos < end {
        assert(is_digit(text[pos]));
        lemma_digits_run(text, pos + 1, end);
    }
}

/// Whether a byte after a numeral would make the number go on: a digit, a
/// point, or the letter of an exponent.
pub open spec fn continues_number(b: u8) -> bool {
    is_digit(b) || b == 0x2e || b == 0x65 || b == 0x45
}

/// Whether the bytes `piece` stand in the text at `pos`.
pub open spec fn stands_at(text: Seq<u8>, pos: int, piece: Seq<u8>) -> bool {
    0 <= pos && pos + piece.len() <= text.len() && text.subrange(pos, pos + piece.len()) == piece
}

/// The integer whose numeral stands in a text, with nothing after it that
/// would make the number go on, is read from it, up to the end of the numeral.
pub proof fn law_number_reads_back(text: Seq<u8>, pos: int, i: i64)
    requires
        stands_at(text, pos, int_text(i as int)),
        pos + int_text(i as int).len() == text.len() || !continues_number(text[pos + int_text(i as int).len()]),
    ensures
        number_span(text, pos) == Some(
            NumberSpan { whole: pos + int_text(i as int).len(), end: pos + int_text(i as int).len() },
        ),
        number_value(text, pos, number_span(text, pos)->0) == Some(ValueModel::Int(i)),
{
    let t = int_text(i as int);
    let end = pos + t.len();
    let written = text.subrange(pos, end);
    assert(written == t);
    law_numeral_reads_back(i);
    let n: nat = if i < 0 {
        (-(i as int)) as nat
    } else {
        i as nat
    };
    lemma_decimal(n);
    let digits: int = if i < 0 {
        pos + 1
    } else {
        pos
    };
    let d = decimal(n);
    assert(forall|k: int| 0 <= k < t.len() ==> text[pos + k] == #[trigger] written[k]);
    assert(text[pos] == t[0]);
    if i < 0 {
        assert(t[0] == 0x2d);
        assert forall|k: int| 0 <= k < d.len() implies text[digits + k] == #[trigger] d[k] by {
            assert(t[1 + k] == d[k]);
            assert(text[pos + (1 + k)] == written[1 + k]);
        }
    } else {
        assert(is_digit(t[0]));
        assert forall|k: int| 0 <= k < d.len() implies text[digits + k] == #[trigger] d[k] by {
            assert(text[pos + k] == written[k]);
        }
    }
    assert(digits + d.len() == end);
    assert forall|k: int| digits <= k < end implies is_digit(#[trigger] text[k]) by {
        assert(text[digits + (k - digits)] == d[k - digits]);
        assert(is_digit(d[k - digits]));
    }
    assert(text[digits] == d[0]);
    lemma_digits_run(text, digits, end);
    if n == 0 {
        assert(d.len() == 1);
        assert(whole_end(text, digits) == Some(end));
    } else {
        assert(whole_end(text, digits) == Some(end));
    }
    assert(fraction_end(text, end) == Some(end));
    assert(exponent_end(text, end) == Some(end));
}

/// Where two pieces joined stand in a text, the first stands there and the
/// second after it.
pub proof fn lemma_stands_split(text: Seq<u8>, pos: int, a: Seq<u8>, b: Seq<u8>)
    requires
        stands_at(text, pos, a + b),
    ensures
        stands_at(text, pos, a),
        stands_at(text, pos + a.len(), b),
{
    let whole = text.subrange(pos, pos + (a + b).len());
    assert(text.subrange(pos, pos + a.len()) =~= a) by {
        assert forall|k: int| 0 <= k < a.len() implies text.subrange(pos, pos + a.len())[k] == a[k] by {
            assert(whole[k] == (a + b)[k]);
        }
    }
    assert(text.subrange(pos + a.len(), pos + a.len() + b.len()) =~= b) by {
        assert forall|k: int| 0 <= k < b.len() implies text.subrange(pos + a.len(), pos + a.len() + b.len())[k] == b[k] by {
            assert(whole[a.len() + k] == (a + b)[a.len() + k]);
        }
    }
}

/// Where a piece stands in a text, the text holds its bytes one by one.
pub proof fn lemma_stands_bytes(text: Seq<u8>, pos: int, piece: Seq<u8>)
    requires
        stands_at(text, pos, piece),
    ensures
        forall|k: int| 0 <= k < piece.len() ==> text[pos + k] == #[trigger] piece[k],
{
    let whole = text.subrange(pos, pos + piece.len());
    assert forall|k: int| 0 <= k < piece.len() implies text[pos + k] == #[trigger] piece[k] by {
        assert(whole[k] == piece[k]);
    }
}

/// The digit that writes a number below sixteen in hexadecimal.
pub open spec fn hex_char(d: u32) -> u8 {
    if d < 10 {
        (0x30 + d) as u8
    } else {
        (0x61 + d - 10) as u8
    }
}

/// How one character is written inside a string: a quote and a backslash
/// after a backslash, a control character as an escape of four hexadecimal
/// digits, any other as it is, in UTF-8.
pub open spec fn char_text(c: char) -> Seq<u8> {
    let u = c as u32;
    if u == 0x22 {
        seq![0x5cu8, 0x22u8]
    } else if u == 0x5c {
        seq![0x5cu8, 0x5cu8]
    } else if u < 0x20 {
        seq![0x5cu8, 0x75u8, 0x30u8, 0x30u8, hex_char(u / 16), hex_char(u % 16)]
    } else {
        encode_scalar(u)
    }
}

/// How the characters of a text are written inside a string.
pub open spec fn chars_text(s: Seq<char>) -> Seq<u8>
    decreases s.len(),
{
    if s.len() == 0 {
        Seq::empty()
    } else {
        char_text(s[0]) + chars_text(s.drop_first())
    }
}

/// How a text is written as a string: its characters between quotes.
pub open spec fn string_text(s: Seq<char>) -> Seq<u8> {
    seq![0x22u8] + chars_text(s) + seq![0x22u8]
}

/// Whether a byte stands for itself inside a string.
pub open spec fn is_plain(b: u8) -> bool {
    b >= 0x20 && b != 0x22 && b != 0x5c
}

/// Bytes that stand for themselves are read as they are.
pub proof fn lemma_plain_bytes(text: Seq<u8>, pos: int, bytes: Seq<u8>, seen: Seq<u8>)
    requires
        stands_at(text, pos, bytes),
        forall|k: int| 0 <= k < bytes.len() ==> is_plain(#[trigger] bytes[k]),
    ensures
        string_bytes(text, pos, seen) == string_bytes(text, pos + bytes.len(), seen + bytes),
    decreases bytes.len(),
{
    if bytes.len() == 0 {
        assert(seen + bytes =~= seen);
    } else {
        lemma_stands_bytes(text, pos, bytes);
        let first = seq![bytes[0]];
        let rest = bytes.drop_first();
        assert(bytes =~= first + rest);
        lemma_stands_split(text, pos, first, rest);
        assert(text[pos + 0] == bytes[0]);
        assert(is_plain(bytes[0]));
        assert forall|k: int| 0 <= k < rest.len() implies is_plain(#[trigger] rest[k]) by {
            assert(rest[k] == bytes[k + 1]);
        }
        lemma_plain_bytes(text, pos + 1, rest, seen.push(bytes[0]));
        assert(seen.push(bytes[0]) + rest =~= seen + bytes);
    }
}

/// The bytes that write a character in UTF-8 stand for themselves inside a
/// string, unless the character is a quote, a backslash or a control
/// character.
pub proof fn lemma_scalar_is_plain(u: u32)
    requires
        is_scalar(u),
        u >= 0x20,
        u != 0x22,
        u != 0x5c,
    ensures
        forall|k: int| 0 <= k < encode_scalar(u).len() ==> is_plain(#[trigger] encode_scalar(u)[k]),
{
    let bytes = encode_scalar(u);
    if has_width_1_encoding(u) {
        assert((u & 0x7F) as u8 == u) by (bit_vector)
            requires
                u <= 0x7F,
        ;
    } else if has_width_2_encoding(u) {
        assert((0xC0 | ((u >> 6) & 0x1F) as u8) >= 0x80) by (bit_vector);
        assert((0x80 | (u & 0x3F) as u8) >= 0x80) by (bit_vector);
    } else if has_width_3_encoding(u) {
        assert((0xE0 | ((u >> 12) & 0x0F) as u8) >= 0x80) by (bit_vector);
        assert((0x80 | ((u >> 6) & 0x3F) as u8) >= 0x80) by (bit_vector);
        assert((0x80 | (u & 0x3F) as u8) >= 0x80) by (bit_vector);
    } else {
        assert((0xF0 | ((u >> 18) & 0x7) as u8) >= 0x80) by (bit_vector);
        assert((0x80 | ((u >> 12) & 0x3F) as u8) >= 0x80) by (bit_vector);
        assert((0x80 | ((u >> 6) & 0x3F) as u8) >= 0x80) by (bit_vector);
        assert((0x80 | (u & 0x3F) as u8) >= 0x80) by (bit_vector);
    }
}

/// A character as it is written inside a string is read back as its bytes
/// in UTF-8.
pub proof fn lemma_char_reads_back(text: Seq<u8>, pos: int, c: char, seen: Seq<u8>)
    requires
        stands_at(text, pos, char_text(c)),
        pos + char_text(c).len() < text.len(),
    ensures
        string_bytes(text, pos, seen) == string_bytes(text, pos + char_text(c).len(), seen + encode_scalar(c as u32)),
{
    let u = c as u32;
    let piece = char_text(c);
    lemma_stands_bytes(text, pos, piece);
    vstd::utf8::char_is_scalar(c);
    if u == 0x22 || u == 0x5c {
        assert(text[pos + 0] == piece[0]);
        assert(text[pos + 1] == piece[1]);
        assert((u & 0x7F) as u8 == u) by (bit_vector)
            requires
                u == 0x22 || u == 0x5c,
        ;
        assert(encode_scalar(u) =~= seq![u as u8]);
        assert(escape_at(text, pos + 1) == Some((seq![u as u8], pos + 2)));
    } else if u < 0x20 {
        assert(text[pos + 0] == piece[0]);
        assert(text[pos + 1] == piece[1]);
        assert(text[pos + 2] == piece[2]);
        assert(text[pos + 3] == piece[3]);
        assert(text[pos + 4] == piece[4]);
        assert(text[pos + 5] == piece[5]);
        assert(simple_escape(0x75) is None);
        assert(hex_digit(hex_char(u / 16)) == Some(u / 16));
        assert(hex_digit(hex_char(u % 16)) == Some(u % 16));
        assert(hex_digit(0x30) == Some(0u32));
        assert(hex4_at(text, pos + 2) == Some(u));
        assert(escape_at(text, pos + 1) == Some((encode_scalar(u), pos + 6)));
    } else {
        lemma_scalar_is_plain(u);
        lemma_plain_bytes(text, pos, piece, seen);
    }
}

/// The characters of a text as they are written inside a string, with the
/// closing quote after them, are read back as the bytes of the text in UTF-8.
pub proof fn lemma_chars_read_back(text: Seq<u8>, pos: int, s: Seq<char>, seen: Seq<u8>)
    requires
        stands_at(text, pos, chars_text(s) + seq![0x22u8]),
    ensures
        string_bytes(text, pos, seen) == Some((seen + encode_utf8(s), pos + chars_text(s).len() + 1)),
    decreases s.len(),
{
    if s.len() == 0 {
        lemma_stands_bytes(text, pos, chars_text(s) + seq![0x22u8]);
        assert((chars_text(s) + seq![0x22u8])[0] == 0x22);
        assert(text[pos + 0] == 0x22);
        assert(seen + encode_utf8(s) =~= seen);
    } else {
        let c = s[0];
        let rest = s.drop_first();
        let piece = char_text(c);
        let tail = chars_text(rest) + seq![0x22u8];
        assert(chars_text(s) + seq![0x22u8] =~= piece + tail);
        lemma_stands_split(text, pos, piece, tail);
        lemma_char_reads_back(text, pos, c, seen);
        lemma_chars_read_back(text, pos + piece.len(), rest, seen + encode_scalar(c as u32));
        assert(seen + encode_scalar(c as u32) + encode_utf8(rest) =~= seen + encode_utf8(s));
    }
}

/// A text written as a string is read back as that text, up to the place
/// after the closing quote.
pub proof fn law_string_reads_back(text: Seq<u8>, pos: int, s: Seq<char>)
    requires
        stands_at(text, pos, string_text(s)),
    ensures
        string_at(text, pos) == Some((s, pos + string_text(s).len())),
{
    let body = chars_text(s) + seq![0x22u8];
    assert(string_text(s) =~= seq![0x22u8] + body);
    lemma_stands_split(text, pos, seq![0x22u8], body);
    lemma_stands_bytes(text, pos, seq![0x22u8]);
    assert(seq![0x22u8][0] == 0x22);
    assert(text[pos + 0] == 0x22);
    lemma_chars_read_back(text, pos + 1, s, Seq::empty());
    assert(Seq::<u8>::empty() + encode_utf8(s) =~= encode_utf8(s));
    vstd::utf8::encode_utf8_valid_utf8(s);
    vstd::utf8::encode_utf8_decode_utf8(s);
    assert(utf8_text(encode_utf8(s)) == Some(s));
}

/// A document: what a text in the format writes, apart from the numbers that
/// are no integers of 64 bits.
pub enum Document {
    Null,
    Bool(bool),
    Int(i64),
    Text(Seq<char>),
    Array(Seq<Document>),
    Object(Seq<(Seq<char>, Document)>),
}

/// How a document is written, without white space.
pub open spec fn written(d: Document) -> Seq<u8>
    decreases d, 0nat,
{
    match d {
        Document::Null => seq![0x6eu8, 0x75u8, 0x6cu8, 0x6cu8],
        Document::Bool(true) => seq![0x74u8, 0x72u8, 0x75u8, 0x65u8],
        Document::Bool(false) => seq![0x66u8, 0x61u8, 0x6cu8, 0x73u8, 0x65u8],
        Document::Int(i) => int_text(i as int),
        Document::Text(s) => string_text(s),
        Document::Array(items) => if items.len() == 0 {
            seq![0x5bu8, 0x5du8]
        } else {
            seq![0x5bu8] + items_written(items, 0)
        },
        Document::Object(entries) => if entries.len() == 0 {
            seq![0x7bu8, 0x7du8]
        } else {
            seq![0x7bu8] + entries_written(entries, 0)
        },
    }
}

/// How the members of an array from `from` on are written: each followed
/// by a comma, the last by the closing bracket.
pub open spec fn items_written(items: Seq<Document>, from: int) -> Seq<u8>
    decreases items, items.len() - from,
{
    if !(0 <= from < items.len()) {
        Seq::empty()
    } else if from == items.len() - 1 {
        written(items[from]) + seq![0x5du8]
    } else {
        written(items[from]) + seq![0x2cu8] + items_written(items, from + 1)
    }
}

/// How the entries of an object from `from` on are written: the key, a
/// colon and the value, each entry followed by a comma, the last by the
/// closing brace.
pub open spec fn entries_written(entries: Seq<(Seq<char>, Document)>, from: int) -> Seq<u8>
    decreases entries, entries.len() - from,
{
    if !(0 <= from < entries.len()) {
        Seq::empty()
    } else if from == entries.len() - 1 {
        string_text(entries[from].0) + seq![0x3au8] + written(entries[from].1) + seq![0x7du8]
    } else {
        string_text(entries[from].0) + seq![0x3au8] + written(entries[from].1) + seq![0x2cu8] + entries_written(
            entries,
            from + 1,
        )
    }
}

/// Whether a document nests no deeper than `depth` arrays and objects.
pub open spec fn fits(d: Document, depth: nat) -> bool
    decreases d, 0nat,
{
    match d {
        Document::Array(items) => depth > 0 && items_fit(items, 0, (depth - 1) as nat),
        Document::Object(entries) => depth > 0 && entries_fit(entries, 0, (depth - 1) as nat),
        _ => true,
    }
}

/// Whether the members of an array from `from` on nest no deeper than `depth`.
pub open spec fn items_fit(items: Seq<Document>, from: int, depth: nat) -> bool
    decreases items, items.len() - from,
{
    if !(0 <= from < items.len()) {
        true
    } else {
        fits(items[from], depth) && items_fit(items, from + 1, depth)
    }
}

/// Whether the values of an object from `from` on nest no deeper than `depth`.
pub open spec fn entries_fit(entries: Seq<(Seq<char>, Document)>, from: int, depth: nat) -> bool
    decreases entries, entries.len() - from,
{
    if !(0 <= from < entries.len()) {
        true
    } else {
        fits(entries[from].1, depth) && entries_fit(entries, from + 1, depth)
    }
}

/// The store after a document was added to it, each value after all that it
/// holds, and the place of the document.
pub open spec fn laid_out(heap: Seq<ValueModel>, d: Document) -> (Seq<ValueModel>, usize)
    decreases d, 0nat,
{
    match d {
        Document::Null => (heap.push(ValueModel::Null), heap.len() as usize),
        Document::Bool(b) => (heap.push(ValueModel::Bool(b)), heap.len() as usize),
        Document::Int(i) => (heap.push(ValueModel::Int(i)), heap.len() as usize),
        Document::Text(s) => (heap.push(ValueModel::Str(s)), heap.len() as usize),
        Document::Array(items) => {
            let (held, ids) = items_laid_out(heap, items, 0, Seq::empty());
            (held.push(ValueModel::List(ids)), held.len() as usize)
        },
        Document::Object(entries) => {
            let (held, ids) = entries_laid_out(heap, entries, 0, Seq::empty());
            (held.push(ValueModel::Dict(ids)), held.len() as usize)
        },
    }
}

/// The store after the members of an array from `from` on were added to it,
/// and their places after the places `seen`.
pub open spec fn items_laid_out(heap: Seq<ValueModel>, items: Seq<Document>, from: int, seen: Seq<usize>) -> (
    Seq<ValueModel>,
    Seq<usize>,
)
    decreases items, items.len() - from,
{
    if !(0 <= from < items.len()) {
        (heap, seen)
    } else {
        let (held, id) = laid_out(heap, items[from]);
        items_laid_out(held, items, from + 1, seen.push(id))
    }
}

/// The store after the values of an object from `from` on were added to it,
/// and its entries after the entries `seen`.
pub open spec fn entries_laid_out(
    heap: Seq<ValueModel>,
    entries: Seq<(Seq<char>, Document)>,
    from: int,
    seen: Seq<(Seq<char>, usize)>,
) -> (Seq<ValueModel>, Seq<(Seq<char>, usize)>)
    decreases entries, entries.len() - from,
{
    if !(0 <= from < entries.len()) {
        (heap, seen)
    } else {
        let (held, id) = laid_out(heap, entries[from].1);
        entries_laid_out(held, entries, from + 1, seen.push((entries[from].0, id)))
    }
}

/// Whether a value may end at `pos`: the text ends there, or a comma, a
/// closing bracket or a closing brace stands there.
pub open spec fn value_may_end(text: Seq<u8>, pos: int) -> bool {
    pos == text.len() || (0 <= pos < text.len() && (text[pos] == 0x2c || text[pos] == 0x5d || text[pos] == 0x7d))
}

/// A document is written with at least one byte, and begins with no white space.
pub proof fn lemma_written_begins(d: Document)
    ensures
        written(d).len() > 0,
        !is_space(written(d)[0]),
        d is Int ==> written(d)[0] == 0x2d || is_digit(written(d)[0]),
        d is Text ==> written(d)[0] == 0x22,
        d is Array ==> written(d)[0] == 0x5b,
        d is Object ==> written(d)[0] == 0x7b,
{
    match d {
        Document::Int(i) => {
            if i < 0 {
                lemma_decimal((-(i as int)) as nat);
            } else {
                lemma_decimal(i as nat);
            }
        },
        _ => {},
    }
}

/// Where no white space stands, none is skipped.
pub proof fn lemma_no_space(text: Seq<u8>, pos: int)
    requires
        !(0 <= pos < text.len()) || !is_space(text[pos]),
    ensures
        after_space(text, pos) == pos,
{
}

/// A written document is read back as that document: the values it holds
/// are added to the store as [`laid_out`] says, and the reading ends where
/// the writing ends.
pub proof fn lemma_value_reads_back(text: Seq<u8>, pos: int, heap: Seq<ValueModel>, depth: nat, d: Document)
    requires
        stands_at(text, pos, written(d)),
        fits(d, depth),
        value_may_end(text, pos + written(d).len()),
    ensures
        value_at(text, pos, heap, depth) == Some(
            Parsed { heap: laid_out(heap, d).0, id: laid_out(heap, d).1, next: pos + written(d).len() },
        ),
    decreases d, 0nat,
{
    let w = written(d);
    lemma_written_begins(d);
    lemma_stands_bytes(text, pos, w);
    assert(text[pos + 0] == w[0]);
    match d {
        Document::Null => {
            assert(text[pos + 1] == w[1]);
            assert(text[pos + 2] == w[2]);
            assert(text[pos + 3] == w[3]);
        },
        Document::Bool(true) => {
            assert(text[pos + 1] == w[1]);
            assert(text[pos + 2] == w[2]);
            assert(text[pos + 3] == w[3]);
        },
        Document::Bool(false) => {
            assert(text[pos + 1] == w[1]);
            assert(text[pos + 2] == w[2]);
            assert(text[pos + 3] == w[3]);
            assert(text[pos + 4] == w[4]);
        },
        Document::Int(i) => {
            law_number_reads_back(text, pos, i);
        },
        Document::Text(s) => {
            law_string_reads_back(text, pos, s);
        },
        Document::Array(items) => {
            if items.len() == 0 {
                assert(text[pos + 1] == w[1]);
                lemma_no_space(text, pos + 1);
            } else {
                let body = items_written(items, 0);
                lemma_stands_split(text, pos, seq![0x5bu8], body);
                lemma_written_begins(items[0]);
                lemma_stands_bytes(text, pos + 1, body);
                lemma_items_begin(items, 0);
                assert(text[pos + 1 + 0] == body[0]);
                lemma_no_space(text, pos + 1);
                lemma_items_read_back(text, pos + 1, heap, (depth - 1) as nat, items, 0, Seq::empty());
            }
        },
        Document::Object(entries) => {
            if entries.len() == 0 {
                assert(text[pos + 1] == w[1]);
                lemma_no_space(text, pos + 1);
            } else {
                let body = entries_written(entries, 0);
                lemma_stands_split(text, pos, seq![0x7bu8], body);
                lemma_stands_bytes(text, pos + 1, body);
                lemma_entries_begin(entries, 0);
                assert(text[pos + 1 + 0] == body[0]);
                lemma_no_space(text, pos + 1);
                lemma_entries_read_back(text, pos + 1, heap, (depth - 1) as nat, entries, 0, Seq::empty());
            }
        },
    }
}

/// The members of an array are written with at least one byte, beginning
/// with the first byte of the first of them.
pub proof fn lemma_items_begin(items: Seq<Document>, from: int)
    requires
        0 <= from < items.len(),
    ensures
        items_written(items, from).len() > 0,
        items_written(items, from)[0] == written(items[from])[0],
        !is_space(items_written(items, from)[0]),
{
    lemma_written_begins(items[from]);
}

/// The entries of an object are written with at least one byte, beginning
/// with the quote of the first key.
pub proof fn lemma_entries_begin(entries: Seq<(Seq<char>, Document)>, from: int)
    requires
        0 <= from < entries.len(),
    ensures
        entries_written(entries, from).len() > 0,
        entries_written(entries, from)[0] == 0x22,
{
    let key = string_text(entries[from].0);
    assert(key[0] == 0x22);
}

/// The written members of an array from `from` on, up to the closing
/// bracket, are read back as those members.
pub proof fn lemma_items_read_back(
    text: Seq<u8>,
    pos: int,
    heap: Seq<ValueModel>,
    depth: nat,
    items: Seq<Document>,
    from: int,
    seen: Seq<usize>,
)
    requires
        0 <= from < items.len(),
        stands_at(text, pos, items_written(items, from)),
        items_fit(items, from, depth),
    ensures
        items_at(text, pos, heap, depth, seen) == Some(
            Parsed {
                heap: items_laid_out(heap, items, from, seen).0.push(
                    ValueModel::List(items_laid_out(heap, items, from, seen).1),
                ),
                id: items_laid_out(heap, items, from, seen).0.len() as usize,
                next: pos + items_written(items, from).len(),
            },
        ),
    decreases items, items.len() - from,
{
    let d = items[from];
    let w = written(d);
    let (held, id) = laid_out(heap, d);
    let mark = pos + w.len();
    lemma_written_begins(d);
    if from == items.len() - 1 {
        let closing = seq![0x5du8];
        lemma_stands_split(text, pos, w, closing);
        lemma_stands_bytes(text, mark, closing);
        assert(text[mark + 0] == closing[0]);
        lemma_value_reads_back(text, pos, heap, depth, d);
        lemma_no_space(text, mark);
        assert(items_laid_out(heap, items, from, seen) == items_laid_out(held, items, from + 1, seen.push(id)));
    } else {
        let comma = seq![0x2cu8];
        let rest = items_written(items, from + 1);
        assert(items_written(items, from) == w + comma + rest);
        lemma_stands_split(text, pos, w + comma, rest);
        lemma_stands_split(text, pos, w, comma);
        lemma_stands_bytes(text, mark, comma);
        assert(text[mark + 0] == comma[0]);
        lemma_value_reads_back(text, pos, heap, depth, d);
        lemma_no_space(text, mark);
        lemma_items_begin(items, from + 1);
        lemma_stands_bytes(text, mark + 1, rest);
        assert(text[mark + 1 + 0] == rest[0]);
        lemma_no_space(text, mark + 1);
        lemma_items_read_back(text, mark + 1, held, depth, items, from + 1, seen.push(id));
    }
}

/// The written entries of an object from `from` on, up to the closing
/// brace, are read back as those entries.
pub proof fn lemma_entries_read_back(
    text: Seq<u8>,
    pos: int,
    heap: Seq<ValueModel>,
    depth: nat,
    entries: Seq<(Seq<char>, Document)>,
    from: int,
    seen: Seq<(Seq<char>, usize)>,
)
    requires
        0 <= from < entries.len(),
        stands_at(text, pos, entries_written(entries, from)),
        entries_fit(entries, from, depth),
    ensures
        entries_at(text, pos, heap, depth, seen) == Some(
            Parsed {
                heap: entries_laid_out(heap, entries, from, seen).0.push(
                    ValueModel::Dict(entries_laid_out(heap, entries, from, seen).1),
                ),
                id: entries_laid_out(heap, entries, from, seen).0.len() as usize,
                next: pos + entries_written(entries, from).len(),
            },
        ),
    decreases entries, entries.len() - from,
{
    let key = entries[from].0;
    let d = entries[from].1;
    let k = string_text(key);
    let colon = seq![0x3au8];
    let w = written(d);
    let (held, id) = laid_out(heap, d);
    let after_key = pos + k.len();
    let start = after_key + 1;
    let mark = start + w.len();
    lemma_written_begins(d);
    if from == entries.len() - 1 {
        let closing = seq![0x7du8];
        assert(entries_written(entries, from) == k + colon + w + closing);
        lemma_stands_split(text, pos, k + colon + w, closing);
        lemma_stands_split(text, pos, k + colon, w);
        lemma_stands_split(text, pos, k, colon);
        lemma_stands_bytes(text, after_key, colon);
        assert(text[after_key + 0] == colon[0]);
        lemma_stands_bytes(text, mark, closing);
        assert(text[mark + 0] == closing[0]);
        law_string_reads_back(text, pos, key);
        lemma_no_space(text, after_key);
        lemma_stands_bytes(text, start, w);
        assert(text[start + 0] == w[0]);
        lemma_no_space(text, start);
        lemma_value_reads_back(text, start, heap, depth, d);
        lemma_no_space(text, mark);
        assert(entries_laid_out(heap, entries, from, seen) == entries_laid_out(
            held,
            entries,
            from + 1,
            seen.push((key, id)),
        ));
    } else {
        let comma = seq![0x2cu8];
        let rest = entries_written(entries, from + 1);
        assert(entries_written(entries, from) == k + colon + w + comma + rest);
        lemma_stands_split(text, pos, k + colon + w + comma, rest);
        lemma_stands_split(text, pos, k + colon + w, comma);
        lemma_stands_split(text, pos, k + colon, w);
        lemma_stands_split(text, pos, k, colon);
        lemma_stands_bytes(text, after_key, colon);
        assert(text[after_key + 0] == colon[0]);
        lemma_stands_bytes(text, mark, comma);
        assert(text[mark + 0] == comma[0]);
        law_string_reads_back(text, pos, key);
        lemma_no_space(text, after_key);
        lemma_stands_bytes(text, start, w);
        assert(text[start + 0] == w[0]);
        lemma_no_space(text, start);
        lemma_value_reads_back(text, start, heap, depth, d);
        lemma_no_space(text, mark);
        lemma_entries_begin(entries, from + 1);
        lemma_stands_bytes(text, mark + 1, rest);
        assert(text[mark + 1 + 0] == rest[0]);
        lemma_no_space(text, mark + 1);
        lemma_entries_read_back(text, mark + 1, held, depth, entries, from + 1, seen.push((key, id)));
    }
}

/// Decoding undoes writing: a document that nests no deeper than the bound,
/// written without white space, decodes to the store that holds the
/// document laid out, and to the place of the document in it.
pub proof fn law_decoding_undoes_writing(d: Document)
    requires
        fits(d, MAX_NESTING as nat),
    ensures
        decoded(written(d)) == Some(laid_out(Seq::empty(), d)),
{
    let text = written(d);
    lemma_written_begins(d);
    lemma_no_space(text, 0);
    assert(text.subrange(0, text.len() as int) =~= text);
    lemma_value_reads_back(text, 0, Seq::empty(), MAX_NESTING as nat, d);
    lemma_no_space(text, text.len() as int);
}

} // verus!
