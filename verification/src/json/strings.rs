//! The strings of a document and their escapes.

use super::lexical::{text_of_bytes, utf8_text};
use vstd::prelude::*;
use vstd::utf8::{encode_scalar, is_scalar};

verus! {

/// The number that a hexadecimal digit stands for.
pub open spec fn hex_digit(b: u8) -> Option<u32> {
    if 0x30 <= b <= 0x39 {
        Some((b - 0x30) as u32)
    } else if 0x61 <= b <= 0x66 {
        Some((b - 0x61 + 10) as u32)
    } else if 0x41 <= b <= 0x46 {
        Some((b - 0x41 + 10) as u32)
    } else {
        None
    }
}

/// The number that the four hexadecimal digits at `pos` write.
pub open spec fn hex4_at(text: Seq<u8>, pos: int) -> Option<u32> {
    if 0 <= pos && pos + 4 <= text.len() {
        match (hex_digit(text[pos]), hex_digit(text[pos + 1]), hex_digit(text[pos + 2]), hex_digit(text[pos + 3])) {
            (Some(a), Some(b), Some(c), Some(d)) => Some((a * 4096 + b * 256 + c * 16 + d) as u32),
            _ => None,
        }
    } else {
        None
    }
}

/// The byte that the letter after a backslash stands for, for the escapes
/// of one letter.
pub open spec fn simple_escape(b: u8) -> Option<u8> {
    if b == 0x22 {
        Some(0x22u8)
    } else if b == 0x5c {
        Some(0x5cu8)
    } else if b == 0x2f {
        Some(0x2fu8)
    } else if b == 0x62 {
        Some(0x08u8)
    } else if b == 0x66 {
        Some(0x0cu8)
    } else if b == 0x6e {
        Some(0x0au8)
    } else if b == 0x72 {
        Some(0x0du8)
    } else if b == 0x74 {
        Some(0x09u8)
    } else {
        None
    }
}

/// The character that a pair of surrogates writes.
pub open spec fn surrogate_pair(high: u32, low: u32) -> u32 {
    (0x10000 + (high - 0xD800) * 0x400 + (low - 0xDC00)) as u32
}

/// What the escape stands for whose letter is at `pos`, in UTF-8, and where
/// it ends. An escape of four hexadecimal digits that writes the first half
/// of a surrogate pair must be followed by one that writes the second half;
/// a second half alone is no escape.
pub open spec fn escape_at(text: Seq<u8>, pos: int) -> Option<(Seq<u8>, int)> {
    if !(0 <= pos < text.len()) {
        None
    } else if simple_escape(text[pos]) is Some {
        Some((seq![simple_escape(text[pos])->0], pos + 1))
    } else if text[pos] == 0x75 {
        match hex4_at(text, pos + 1) {
            None => None,
            Some(unit) => if 0xD800 <= unit <= 0xDBFF {
                if pos + 7 <= text.len() && text[pos + 5] == 0x5c && text[pos + 6] == 0x75 {
                    match hex4_at(text, pos + 7) {
                        Some(low) => if 0xDC00 <= low <= 0xDFFF {
                            Some((encode_scalar(surrogate_pair(unit, low)), pos + 11))
                        } else {
                            None
                        },
                        None => None,
                    }
                } else {
                    None
                }
            } else if 0xDC00 <= unit <= 0xDFFF {
                None
            } else {
                Some((encode_scalar(unit), pos + 5))
            },
        }
    } else {
        None
    }
}

/// The bytes of a string whose inside goes on at `pos`, after the bytes
/// `seen`, and the place after its closing quote. A control character
/// written as it is, or a wrong escape, or the end of the text before the
/// closing quote, leave no string.
pub open spec fn string_bytes(text: Seq<u8>, pos: int, seen: Seq<u8>) -> Option<(Seq<u8>, int)>
    decreases text.len() - pos,
{
    if !(0 <= pos < text.len()) {
        None
    } else if text[pos] == 0x22 {
        Some((seen, pos + 1))
    } else if text[pos] == 0x5c {
        match escape_at(text, pos + 1) {
            None => None,
            Some((bytes, next)) => if next > pos {
                string_bytes(text, next, seen + bytes)
            } else {
                None
            },
        }
    } else if text[pos] < 0x20 {
        None
    } else {
        string_bytes(text, pos + 1, seen.push(text[pos]))
    }
}

/// The string that begins with the quote at `pos`, and the place after its
/// closing quote. What is between the quotes must be text in UTF-8 once the
/// escapes are taken for what they stand for.
pub open spec fn string_at(text: Seq<u8>, pos: int) -> Option<(Seq<char>, int)> {
    if 0 <= pos < text.len() && text[pos] == 0x22 {
        match string_bytes(text, pos + 1, Seq::empty()) {
            None => None,
            Some((bytes, next)) => match utf8_text(bytes) {
                None => None,
                Some(t) => Some((t, next)),
            },
        }
    } else {
        None
    }
}

/// The number that a hexadecimal digit stands for.
pub fn read_hex_digit(b: u8) -> (r: Option<u32>)
    ensures
        r == hex_digit(b),
{
    if b >= 0x30 && b <= 0x39 {
        Some((b - 0x30) as u32)
    } else if b >= 0x61 && b <= 0x66 {
        Some((b - 0x61 + 10) as u32)
    } else if b >= 0x41 && b <= 0x46 {
        Some((b - 0x41 + 10) as u32)
    } else {
        None
    }
}

/// The number that the four hexadecimal digits at `pos` write.
pub fn read_hex4(text: &[u8], pos: usize) -> (r: Option<u32>)
    requires
        pos <= text@.len(),
    ensures
        r == hex4_at(text@, pos as int),
        r matches Some(u) ==> u <= 0xFFFF,
{
    if text.len() - pos < 4 {
        return None;
    }
    let a = match read_hex_digit(text[pos]) {
        Some(a) => a,
        None => {
            return None;
        },
    };
    let b = match read_hex_digit(text[pos + 1]) {
        Some(b) => b,
        None => {
            return None;
        },
    };
    let c = match read_hex_digit(text[pos + 2]) {
        Some(c) => c,
        None => {
            return None;
        },
    };
    let d = match read_hex_digit(text[pos + 3]) {
        Some(d) => d,
        None => {
            return None;
        },
    };
    Some(a * 4096 + b * 256 + c * 16 + d)
}

/// The byte that the letter after a backslash stands for.
pub fn read_simple_escape(b: u8) -> (r: Option<u8>)
    ensures
        r == simple_escape(b),
{
    if b == 0x22 {
        Some(0x22)
    } else if b == 0x5c {
        Some(0x5c)
    } else if b == 0x2f {
        Some(0x2f)
    } else if b == 0x62 {
        Some(0x08)
    } else if b == 0x66 {
        Some(0x0c)
    } else if b == 0x6e {
        Some(0x0a)
    } else if b == 0x72 {
        Some(0x0d)
    } else if b == 0x74 {
        Some(0x09)
    } else {
        None
    }
}

/// Adds the UTF-8 encoding of a character to the bytes.
pub fn push_scalar(bytes: &mut Vec<u8>, scalar: u32)
    requires
        is_scalar(scalar),
    ensures
        final(bytes)@ == old(bytes)@ + encode_scalar(scalar),
{
    if scalar <= 0x7F {
        let b0 = (scalar & 0x7F) as u8;
        bytes.push(b0);
        assert(bytes@ =~= old(bytes)@ + seq![b0]);
    } else if scalar <= 0x7FF {
        let b0 = 0xC0 | ((scalar >> 6) & 0x1F) as u8;
        let b1 = 0x80 | (scalar & 0x3F) as u8;
        bytes.push(b0);
        bytes.push(b1);
        assert(bytes@ =~= old(bytes)@ + seq![b0, b1]);
    } else if scalar <= 0xFFFF {
        let b0 = 0xE0 | ((scalar >> 12) & 0x0F) as u8;
        let b1 = 0x80 | ((scalar >> 6) & 0x3F) as u8;
        let b2 = 0x80 | (scalar & 0x3F) as u8;
        bytes.push(b0);
        bytes.push(b1);
        bytes.push(b2);
        assert(bytes@ =~= old(bytes)@ + seq![b0, b1, b2]);
    } else {
        let b0 = 0xF0 | ((scalar >> 18) & 0x7) as u8;
        let b1 = 0x80 | ((scalar >> 12) & 0x3F) as u8;
        let b2 = 0x80 | ((scalar >> 6) & 0x3F) as u8;
        let b3 = 0x80 | (scalar & 0x3F) as u8;
        bytes.push(b0);
        bytes.push(b1);
        bytes.push(b2);
        bytes.push(b3);
        assert(bytes@ =~= old(bytes)@ + seq![b0, b1, b2, b3]);
    }
}

/// Reads the escape whose letter is at `pos`: adds what it stands for to the
/// bytes, and gives the place where it ends.
pub fn read_escape(text: &[u8], pos: usize, bytes: &mut Vec<u8>) -> (r: Option<usize>)
    requires
        pos <= text@.len(),
    ensures
        match r {
            Some(next) => escape_at(text@, pos as int) matches Some((added, end)) && end == next && final(bytes)@ == old(
                bytes,
            )@ + added && pos < next <= text@.len(),
            None => escape_at(text@, pos as int) is None,
        },
{
    if pos >= text.len() {
        return None;
    }
    let letter = text[pos];
    match read_simple_escape(letter) {
        Some(b) => {
            bytes.push(b);
            assert(bytes@ =~= old(bytes)@ + seq![b]);
            return Some(pos + 1);
        },
        None => {},
    }
    if letter != 0x75 {
        return None;
    }
    let unit = match read_hex4(text, pos + 1) {
        Some(unit) => unit,
        None => {
            return None;
        },
    };
    if unit >= 0xD800 && unit <= 0xDBFF {
        if text.len() - pos < 7 || text[pos + 5] != 0x5c || text[pos + 6] != 0x75 {
            return None;
        }
        let low = match read_hex4(text, pos + 7) {
            Some(low) => low,
            None => {
                return None;
            },
        };
        if low < 0xDC00 || low > 0xDFFF {
            return None;
        }
        let scalar: u32 = 0x10000 + (unit - 0xD800) * 0x400 + (low - 0xDC00);
        push_scalar(bytes, scalar);
        Some(pos + 11)
    } else if unit >= 0xDC00 && unit <= 0xDFFF {
        None
    } else {
        push_scalar(bytes, unit);
        Some(pos + 5)
    }
}

/// Reads the string that begins with the quote at `pos`: the text between
/// the quotes, and the place after the closing quote.
pub fn read_string(text: &[u8], pos: usize) -> (r: Option<(String, usize)>)
    requires
        pos <= text@.len(),
    ensures
        match r {
            Some((s, next)) => string_at(text@, pos as int) == Some((s@, next as int)) && pos + 2 <= next <= text@.len(),
            None => string_at(text@, pos as int) is None,
        },
{
    if pos >= text.len() || text[pos] != 0x22 {
        return None;
    }
    let mut bytes: Vec<u8> = Vec::new();
    let mut i: usize = pos + 1;
    loop
        invariant
            pos < i <= text@.len(),
            text@[pos as int] == 0x22,
            string_bytes(text@, pos + 1, Seq::empty()) == string_bytes(text@, i as int, bytes@),
        decreases text@.len() - i,
    {
        if i >= text.len() {
            return None;
        }
        let b = text[i];
        if b == 0x22 {
            return match text_of_bytes(bytes) {
                Some(s) => Some((s, i + 1)),
                None => None,
            };
        } else if b == 0x5c {
            let ghost seen = bytes@;
            match read_escape(text, i + 1, &mut bytes) {
                None => {
                    return None;
                },
                Some(next) => {
                    i = next;
                },
            }
        } else if b < 0x20 {
            return None;
        } else {
            bytes.push(b);
            i = i + 1;
        }
    }
}

} // verus!
