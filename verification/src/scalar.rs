//! Holding a value against a scalar kind or a list of constants.

use crate::context::Outcome;
use crate::errors::violation::Violation;
use crate::errors::{ErrorContext, ErrorKind, Location};
use crate::literal_set::LiteralSet;
use crate::numeral::{read_numeral, Numeral};
use crate::output::Output;
use crate::json::lexical::is_number;
use crate::semantics::{
    float_outcome, bool_outcome, bytes_outcome, int_outcome, int_read, literal_found, literal_matches, literal_outcome, null_outcome,
    scalar_output, str_outcome,
};
use crate::value::{copy_bytes, copy_literals, literals_view, same_bytes, Literal, Value};
use vstd::prelude::*;
use vstd::string::{StrSliceExecFns, StringExecFns};

verus! {

/// Holds a value against the schema of null.
pub fn validate_null(v: &Value, loc: &Location, id: usize) -> (out: Outcome)
    ensures
        out@ == null_outcome(v@, loc@, id),
{
    match v {
        Value::Null => Outcome::Value(Output::Null),
        _ => Outcome::fail(Violation::new(ErrorKind::NoneRequired, loc, id)),
    }
}

/// Holds a value against the schema of booleans.
pub fn validate_bool(strict: bool, v: &Value, loc: &Location, id: usize) -> (out: Outcome)
    ensures
        out@ == bool_outcome(strict, v@, loc@, id),
{
    match v {
        Value::Bool(b) => Outcome::Value(Output::Bool(*b)),
        Value::Int(i) => {
            if strict {
                Outcome::fail(Violation::new(ErrorKind::BoolType, loc, id))
            } else if *i == 0 {
                Outcome::Value(Output::Bool(false))
            } else if *i == 1 {
                Outcome::Value(Output::Bool(true))
            } else {
                Outcome::fail(Violation::new(ErrorKind::BoolParsing, loc, id))
            }
        },
        Value::Str(s) => {
            if strict {
                Outcome::fail(Violation::new(ErrorKind::BoolType, loc, id))
            } else if *s == String::from_str("false") {
                Outcome::Value(Output::Bool(false))
            } else if *s == String::from_str("true") {
                Outcome::Value(Output::Bool(true))
            } else {
                Outcome::fail(Violation::new(ErrorKind::BoolParsing, loc, id))
            }
        },
        _ => Outcome::fail(Violation::new(ErrorKind::BoolType, loc, id)),
    }
}

/// Reads a text as a decimal numeral.
pub fn read_text_numeral(text: &str) -> (r: Numeral)
    ensures
        r == crate::numeral::numeral_read(vstd::utf8::encode_utf8(text@)),
{
    let bytes = text.as_bytes();
    assert(bytes@.subrange(0, bytes@.len() as int) =~= bytes@);
    read_numeral(bytes, 0, bytes.len())
}

/// The integer that a value is or stands for, or the kind of violation.
pub fn read_int(strict: bool, v: &Value) -> (r: Result<i64, ErrorKind>)
    ensures
        r == int_read(strict, v@),
{
    match v {
        Value::Int(i) => Ok(*i),
        Value::Bool(b) => {
            if strict {
                Err(ErrorKind::IntType)
            } else if *b {
                Ok(1)
            } else {
                Ok(0)
            }
        },
        Value::Str(s) => {
            if strict {
                Err(ErrorKind::IntType)
            } else {
                match read_text_numeral(s.as_str()) {
                    Numeral::Malformed => Err(ErrorKind::IntParsing),
                    Numeral::OutOfRange => Err(ErrorKind::IntOverflow),
                    Numeral::Number(i) => Ok(i),
                }
            }
        },
        Value::Real(t) => {
            match read_text_numeral(t.as_str()) {
                Numeral::Malformed => Err(ErrorKind::IntType),
                _ => Err(ErrorKind::IntOverflow),
            }
        },
        _ => Err(ErrorKind::IntType),
    }
}

/// Holds a value against the schema of integers with the given bounds.
pub fn validate_int(strict: bool, ge: Option<i64>, le: Option<i64>, v: &Value, loc: &Location, id: usize) -> (out: Outcome)
    ensures
        out@ == int_outcome(strict, ge, le, v@, loc@, id),
{
    match read_int(strict, v) {
        Err(kind) => Outcome::fail(Violation::new(kind, loc, id)),
        Ok(i) => {
            if let Some(g) = ge {
                if i < g {
                    return Outcome::fail(
                        Violation::with_context(ErrorKind::GreaterThanEqual, loc, id, ErrorContext::Bound(g)),
                    );
                }
            }
            if let Some(l) = le {
                if i > l {
                    return Outcome::fail(
                        Violation::with_context(ErrorKind::LessThanEqual, loc, id, ErrorContext::Bound(l)),
                    );
                }
            }
            Outcome::Value(Output::Int(i))
        },
    }
}

/// Holds a value against the schema of numbers.
pub fn validate_float(strict: bool, v: &Value, loc: &Location, id: usize) -> (out: Outcome)
    ensures
        out@ == float_outcome(strict, v@, loc@, id),
{
    match v {
        Value::Int(i) => Outcome::Value(Output::Int(*i)),
        Value::Real(t) => {
            if is_number(t.as_str().as_bytes()) {
                Outcome::Value(Output::Real(t.clone()))
            } else {
                Outcome::fail(Violation::new(ErrorKind::FloatParsing, loc, id))
            }
        },
        Value::Str(s) => {
            if strict {
                Outcome::fail(Violation::new(ErrorKind::FloatType, loc, id))
            } else if is_number(s.as_str().as_bytes()) {
                Outcome::Value(Output::Real(s.clone()))
            } else {
                Outcome::fail(Violation::new(ErrorKind::FloatParsing, loc, id))
            }
        },
        _ => Outcome::fail(Violation::new(ErrorKind::FloatType, loc, id)),
    }
}

/// Holds a value against the schema of texts with the given lengths.
pub fn validate_str(min_len: Option<usize>, max_len: Option<usize>, v: &Value, loc: &Location, id: usize) -> (out: Outcome)
    ensures
        out@ == str_outcome(min_len, max_len, v@, loc@, id),
{
    match v {
        Value::Str(s) => {
            let n = s.as_str().unicode_len();
            if let Some(m) = min_len {
                if n < m {
                    return Outcome::fail(
                        Violation::with_context(ErrorKind::StringTooShort, loc, id, ErrorContext::Length(m)),
                    );
                }
            }
            if let Some(m) = max_len {
                if n > m {
                    return Outcome::fail(
                        Violation::with_context(ErrorKind::StringTooLong, loc, id, ErrorContext::Length(m)),
                    );
                }
            }
            Outcome::Value(Output::Str(s.clone()))
        },
        _ => Outcome::fail(Violation::new(ErrorKind::StringType, loc, id)),
    }
}

/// Holds a value against the schema of byte strings.
pub fn validate_bytes(strict: bool, v: &Value, loc: &Location, id: usize) -> (out: Outcome)
    ensures
        out@ == bytes_outcome(strict, v@, loc@, id),
{
    match v {
        Value::Bytes(b) => Outcome::Value(Output::Bytes(copy_bytes(b))),
        Value::Str(s) => {
            if strict {
                Outcome::fail(Violation::new(ErrorKind::BytesType, loc, id))
            } else {
                Outcome::Value(Output::Bytes(s.as_str().as_bytes_vec()))
            }
        },
        _ => Outcome::fail(Violation::new(ErrorKind::BytesType, loc, id)),
    }
}

/// Whether a value is the constant: of the same kind, and equal.
pub fn matches_literal(literal: &Literal, v: &Value) -> (same: bool)
    ensures
        same == literal_matches(literal@, v@),
{
    match (literal, v) {
        (Literal::Null, Value::Null) => true,
        (Literal::Bool(a), Value::Bool(b)) => *a == *b,
        (Literal::Int(a), Value::Int(b)) => *a == *b,
        (Literal::Str(a), Value::Str(b)) => *a == *b,
        (Literal::Bytes(a), Value::Bytes(b)) => same_bytes(a, b),
        _ => false,
    }
}

/// Whether a value is one of the constants.
pub fn among_literals(expected: &Vec<Literal>, v: &Value) -> (found: bool)
    ensures
        found == literal_found(literals_view(expected), v@),
{
    let mut i: usize = 0;
    while i < expected.len()
        invariant
            i <= expected.len(),
            forall|j: int| 0 <= j < i ==> !literal_matches(#[trigger] literals_view(expected)[j], v@),
        decreases expected.len() - i,
    {
        if matches_literal(&expected[i], v) {
            assert(literal_matches(literals_view(expected)[i as int], v@));
            return true;
        }
        i = i + 1;
    }
    false
}

/// The produced value that a scalar of the host is, unchanged.
pub fn output_scalar(v: &Value, id: usize) -> (out: Output)
    ensures
        out@ == scalar_output(v@, id),
{
    match v {
        Value::Null => Output::Null,
        Value::Bool(b) => Output::Bool(*b),
        Value::Int(i) => Output::Int(*i),
        Value::Str(s) => Output::Str(s.clone()),
        Value::Bytes(b) => Output::Bytes(copy_bytes(b)),
        _ => Output::Kept(id),
    }
}

/// Holds a value against a list of constants.
pub fn validate_literal(expected: &LiteralSet, v: &Value, loc: &Location, id: usize) -> (out: Outcome)
    ensures
        out@ == literal_outcome(expected@, v@, loc@, id),
{
    if expected.contains(v) {
        Outcome::Value(output_scalar(v, id))
    } else {
        Outcome::fail(
            Violation::with_context(
                ErrorKind::LiteralError,
                loc,
                id,
                ErrorContext::Expected(copy_literals(expected.literals())),
            ),
        )
    }
}

} // verus!
