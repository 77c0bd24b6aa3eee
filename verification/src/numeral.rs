//! Decimal numerals.

use vstd::prelude::*;

verus! {

/// Whether a byte is one of the ten decimal digits.
pub open spec fn is_digit(b: u8) -> bool {
    0x30 <= b <= 0x39
}

/// Whether every byte is a decimal digit.
pub open spec fn all_digits(bytes: Seq<u8>) -> bool {
    forall|i: int| 0 <= i < bytes.len() ==> is_digit(#[trigger] bytes[i])
}

/// The number that a run of decimal digits writes, the first digit counting most.
pub open spec fn digits_value(bytes: Seq<u8>) -> nat
    decreases bytes.len(),
{
    if bytes.len() == 0 {
        0
    } else {
        (digits_value(bytes.drop_last()) * 10 + (bytes.last() - 0x30)) as nat
    }
}

/// Whether a numeral begins with a sign.
pub open spec fn has_sign(bytes: Seq<u8>) -> bool {
    bytes.len() > 0 && (bytes[0] == 0x2d || bytes[0] == 0x2b)
}

/// The digits of a numeral: what follows its sign, if it has one.
pub open spec fn numeral_digits(bytes: Seq<u8>) -> Seq<u8> {
    if has_sign(bytes) {
        bytes.subrange(1, bytes.len() as int)
    } else {
        bytes
    }
}

/// Whether the bytes write an integer in decimal: a sign or none, then one
/// digit or more, and nothing else.
pub open spec fn is_numeral(bytes: Seq<u8>) -> bool {
    numeral_digits(bytes).len() > 0 && all_digits(numeral_digits(bytes))
}

/// The integer that a decimal numeral writes.
pub open spec fn numeral_value(bytes: Seq<u8>) -> int {
    if bytes.len() > 0 && bytes[0] == 0x2d {
        -(digits_value(numeral_digits(bytes)) as int)
    } else {
        digits_value(numeral_digits(bytes)) as int
    }
}

/// What reading a run of digits gave.
#[derive(Clone, Copy, Debug, PartialEq, Eq, Structural)]
pub enum Digits {
    /// The run is empty, or holds a byte that is no digit.
    Malformed,
    /// The digits write a number above what 64 bits can hold.
    TooLarge,
    /// The number that the digits write.
    Number(u64),
}

/// What [`read_digits`] gives for a run of bytes.
pub open spec fn digits_read(bytes: Seq<u8>) -> Digits {
    if bytes.len() == 0 || !all_digits(bytes) {
        Digits::Malformed
    } else if digits_value(bytes) > u64::MAX {
        Digits::TooLarge
    } else {
        Digits::Number(digits_value(bytes) as u64)
    }
}

/// Reads the bytes from `start` up to `end` as a run of decimal digits.
pub fn read_digits(bytes: &[u8], start: usize, end: usize) -> (r: Digits)
    requires
        start <= end <= bytes@.len(),
    ensures
        r == digits_read(bytes@.subrange(start as int, end as int)),
{
    let ghost run = bytes@.subrange(start as int, end as int);
    if start == end {
        return Digits::Malformed;
    }
    let mut acc: u64 = 0;
    let mut over = false;
    let mut i: usize = start;
    while i < end
        invariant
            start <= i <= end <= bytes@.len(),
            run == bytes@.subrange(start as int, end as int),
            all_digits(run.subrange(0, i - start)),
            !over ==> acc == digits_value(run.subrange(0, i - start)),
            over ==> digits_value(run.subrange(0, i - start)) > u64::MAX,
        decreases end - i,
    {
        let b = bytes[i];
        let ghost seen = run.subrange(0, i - start);
        let ghost next = run.subrange(0, i - start + 1);
        assert(next.drop_last() =~= seen);
        assert(next.last() == b);
        if b < 0x30 || b > 0x39 {
            assert(!is_digit(run[i - start]));
            return Digits::Malformed;
        }
        assert forall|j: int| 0 <= j < next.len() implies is_digit(#[trigger] next[j]) by {
            if j < seen.len() {
                assert(next[j] == seen[j]);
            }
        }
        let d = (b - 0x30) as u64;
        if !over {
            if acc > (u64::MAX - d) / 10 {
                over = true;
            } else {
                acc = acc * 10 + d;
            }
        }
        i = i + 1;
    }
    assert(run.subrange(0, end - start) =~= run);
    if over {
        Digits::TooLarge
    } else {
        Digits::Number(acc)
    }
}

/// What reading a numeral gave.
#[derive(Clone, Copy, Debug, PartialEq, Eq, Structural)]
pub enum Numeral {
    /// The bytes write no integer.
    Malformed,
    /// They write an integer that 64 bits with a sign cannot hold.
    OutOfRange,
    /// The integer that they write.
    Number(i64),
}

/// What [`read_numeral`] gives for a run of bytes.
pub open spec fn numeral_read(bytes: Seq<u8>) -> Numeral {
    if !is_numeral(bytes) {
        Numeral::Malformed
    } else if numeral_value(bytes) < i64::MIN || numeral_value(bytes) > i64::MAX {
        Numeral::OutOfRange
    } else {
        Numeral::Number(numeral_value(bytes) as i64)
    }
}

/// Reads the bytes from `start` up to `end` as a decimal numeral with or
/// without a sign.
pub fn read_numeral(bytes: &[u8], start: usize, end: usize) -> (r: Numeral)
    requires
        start <= end <= bytes@.len(),
    ensures
        r == numeral_read(bytes@.subrange(start as int, end as int)),
{
    let ghost run = bytes@.subrange(start as int, end as int);
    if start == end {
        return Numeral::Malformed;
    }
    let first = bytes[start];
    assert(run[0] == first);
    let negative = first == 0x2d;
    let signed = negative || first == 0x2b;
    let from = if signed { start + 1 } else { start };
    assert(bytes@.subrange(from as int, end as int) =~= numeral_digits(run));
    match read_digits(bytes, from, end) {
        Digits::Malformed => Numeral::Malformed,
        Digits::TooLarge => Numeral::OutOfRange,
        Digits::Number(n) => {
            if negative {
                if n > 0x8000_0000_0000_0000u64 {
                    Numeral::OutOfRange
                } else if n == 0x8000_0000_0000_0000u64 {
                    Numeral::Number(i64::MIN)
                } else {
                    Numeral::Number(-(n as i64))
                }
            } else {
                if n > 0x7fff_ffff_ffff_ffffu64 {
                    Numeral::OutOfRange
                } else {
                    Numeral::Number(n as i64)
                }
            }
        },
    }
}

} // verus!
