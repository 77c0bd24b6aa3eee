use pydantic_core::errors::{ErrorContext, ErrorKind};
use pydantic_core::numeral::{read_digits, read_numeral, Digits, Numeral};
use pydantic_core::output::Output;
use pydantic_core::validator::{Mode, SchemaValidator, Validator};
use pydantic_core::value::{Heap, Value};

fn single(node: Validator) -> SchemaValidator {
    SchemaValidator::assemble(node, Vec::new(), "scalar".to_string(), 255).unwrap()
}

fn run(node: Validator, value: Value, mode: Mode) -> Result<Output, (ErrorKind, Option<ErrorContext>)> {
    let mut heap = Heap::new();
    let id = heap.add(value).unwrap();
    let v = single(node);
    let result = v.validate(&heap, id, mode);
    assert_eq!(v.check(&heap, id, mode), result.is_ok());
    result.map_err(|report| {
        assert_eq!(report.count(), 1);
        assert!(report.violations[0].loc.items.is_empty());
        assert_eq!(report.violations[0].input, id);
        assert_eq!(report.violations[0].message, None);
        let violation = report.violations.into_iter().next().unwrap();
        (violation.kind, violation.context)
    })
}

fn integer() -> Validator {
    Validator::Int { ge: None, le: None }
}

fn text(s: &str) -> Value {
    Value::Str(s.to_string())
}

#[test]
fn null_takes_only_null() {
    assert_eq!(run(Validator::Null, Value::Null, Mode::Strict), Ok(Output::Null));
    assert_eq!(run(Validator::Null, Value::Null, Mode::Lax), Ok(Output::Null));
    assert_eq!(run(Validator::Null, Value::Int(0), Mode::Lax), Err((ErrorKind::NoneRequired, None)));
    assert_eq!(run(Validator::Null, text(""), Mode::Strict), Err((ErrorKind::NoneRequired, None)));
}

#[test]
fn bool_strict_takes_only_booleans() {
    assert_eq!(run(Validator::Bool, Value::Bool(true), Mode::Strict), Ok(Output::Bool(true)));
    assert_eq!(run(Validator::Bool, Value::Int(1), Mode::Strict), Err((ErrorKind::BoolType, None)));
    assert_eq!(run(Validator::Bool, text("true"), Mode::Strict), Err((ErrorKind::BoolType, None)));
    assert_eq!(run(Validator::Bool, Value::Null, Mode::Strict), Err((ErrorKind::BoolType, None)));
}

#[test]
fn bool_lax_table() {
    assert_eq!(run(Validator::Bool, Value::Bool(false), Mode::Lax), Ok(Output::Bool(false)));
    assert_eq!(run(Validator::Bool, Value::Int(0), Mode::Lax), Ok(Output::Bool(false)));
    assert_eq!(run(Validator::Bool, Value::Int(1), Mode::Lax), Ok(Output::Bool(true)));
    assert_eq!(run(Validator::Bool, Value::Int(2), Mode::Lax), Err((ErrorKind::BoolParsing, None)));
    assert_eq!(run(Validator::Bool, text("true"), Mode::Lax), Ok(Output::Bool(true)));
    assert_eq!(run(Validator::Bool, text("false"), Mode::Lax), Ok(Output::Bool(false)));
    assert_eq!(run(Validator::Bool, text("True"), Mode::Lax), Err((ErrorKind::BoolParsing, None)));
    assert_eq!(run(Validator::Bool, Value::Bytes(vec![1]), Mode::Lax), Err((ErrorKind::BoolType, None)));
    assert_eq!(run(Validator::Bool, Value::Null, Mode::Lax), Err((ErrorKind::BoolType, None)));
}

#[test]
fn int_strict_takes_only_integers() {
    assert_eq!(run(integer(), Value::Int(-3), Mode::Strict), Ok(Output::Int(-3)));
    assert_eq!(run(integer(), text("3"), Mode::Strict), Err((ErrorKind::IntType, None)));
    assert_eq!(run(integer(), Value::Bool(true), Mode::Strict), Err((ErrorKind::IntType, None)));
    assert_eq!(run(integer(), Value::Null, Mode::Strict), Err((ErrorKind::IntType, None)));
}

#[test]
fn int_lax_table() {
    assert_eq!(run(integer(), Value::Bool(true), Mode::Lax), Ok(Output::Int(1)));
    assert_eq!(run(integer(), Value::Bool(false), Mode::Lax), Ok(Output::Int(0)));
    assert_eq!(run(integer(), text("123"), Mode::Lax), Ok(Output::Int(123)));
    assert_eq!(run(integer(), text("-123"), Mode::Lax), Ok(Output::Int(-123)));
    assert_eq!(run(integer(), text("+7"), Mode::Lax), Ok(Output::Int(7)));
    assert_eq!(run(integer(), text("007"), Mode::Lax), Ok(Output::Int(7)));
    assert_eq!(run(integer(), text("-0"), Mode::Lax), Ok(Output::Int(0)));
    assert_eq!(run(integer(), text("9223372036854775807"), Mode::Lax), Ok(Output::Int(i64::MAX)));
    assert_eq!(run(integer(), text("-9223372036854775808"), Mode::Lax), Ok(Output::Int(i64::MIN)));
    assert_eq!(run(integer(), text("9223372036854775808"), Mode::Lax), Err((ErrorKind::IntOverflow, None)));
    assert_eq!(run(integer(), text("-9223372036854775809"), Mode::Lax), Err((ErrorKind::IntOverflow, None)));
    assert_eq!(run(integer(), text("99999999999999999999999999"), Mode::Lax), Err((ErrorKind::IntOverflow, None)));
    for wrong in ["", "-", "+", "1.0", "1e3", " 1", "1 ", "a", "1_000", "--1", "\u{661}"] {
        assert_eq!(run(integer(), text(wrong), Mode::Lax), Err((ErrorKind::IntParsing, None)), "{wrong:?}");
    }
    assert_eq!(run(integer(), Value::Bytes(b"1".to_vec()), Mode::Lax), Err((ErrorKind::IntType, None)));
}

#[test]
fn number_not_held_as_integer() {
    for mode in [Mode::Strict, Mode::Lax] {
        assert_eq!(run(integer(), Value::Real("1.5".to_string()), mode), Err((ErrorKind::IntType, None)));
        assert_eq!(run(integer(), Value::Real("1e3".to_string()), mode), Err((ErrorKind::IntType, None)));
        assert_eq!(
            run(integer(), Value::Real("12345678901234567890".to_string()), mode),
            Err((ErrorKind::IntOverflow, None))
        );
    }
}

#[test]
fn int_bounds() {
    let bounded = || Validator::Int { ge: Some(0), le: Some(10) };
    assert_eq!(run(bounded(), Value::Int(0), Mode::Strict), Ok(Output::Int(0)));
    assert_eq!(run(bounded(), Value::Int(10), Mode::Strict), Ok(Output::Int(10)));
    assert_eq!(
        run(bounded(), Value::Int(-1), Mode::Strict),
        Err((ErrorKind::GreaterThanEqual, Some(ErrorContext::Bound(0))))
    );
    assert_eq!(
        run(bounded(), Value::Int(11), Mode::Strict),
        Err((ErrorKind::LessThanEqual, Some(ErrorContext::Bound(10))))
    );
    assert_eq!(
        run(bounded(), text("11"), Mode::Lax),
        Err((ErrorKind::LessThanEqual, Some(ErrorContext::Bound(10))))
    );
    let empty = Validator::Int { ge: Some(5), le: Some(1) };
    assert_eq!(run(empty, Value::Int(3), Mode::Strict), Err((ErrorKind::GreaterThanEqual, Some(ErrorContext::Bound(5)))));
}

#[test]
fn str_lengths_count_characters() {
    let s = || Validator::Str { min_len: Some(2), max_len: Some(3) };
    assert_eq!(run(s(), text("ab"), Mode::Strict), Ok(Output::Str("ab".to_string())));
    assert_eq!(run(s(), text("\u{e9}\u{e9}\u{e9}"), Mode::Strict), Ok(Output::Str("\u{e9}\u{e9}\u{e9}".to_string())));
    assert_eq!(run(s(), text("a"), Mode::Strict), Err((ErrorKind::StringTooShort, Some(ErrorContext::Length(2)))));
    assert_eq!(run(s(), text("abcd"), Mode::Lax), Err((ErrorKind::StringTooLong, Some(ErrorContext::Length(3)))));
    assert_eq!(run(s(), Value::Int(12), Mode::Lax), Err((ErrorKind::StringType, None)));
    assert_eq!(run(s(), Value::Bytes(b"ab".to_vec()), Mode::Lax), Err((ErrorKind::StringType, None)));
    let any = Validator::Str { min_len: None, max_len: None };
    assert_eq!(run(any, text(""), Mode::Strict), Ok(Output::Str(String::new())));
}

#[test]
fn bytes_table() {
    assert_eq!(run(Validator::Bytes, Value::Bytes(vec![0, 255]), Mode::Strict), Ok(Output::Bytes(vec![0, 255])));
    assert_eq!(run(Validator::Bytes, text("a"), Mode::Strict), Err((ErrorKind::BytesType, None)));
    assert_eq!(run(Validator::Bytes, text("a\u{e9}"), Mode::Lax), Ok(Output::Bytes(vec![0x61, 0xc3, 0xa9])));
    assert_eq!(run(Validator::Bytes, Value::Int(1), Mode::Lax), Err((ErrorKind::BytesType, None)));
}

#[test]
fn digits_and_numerals() {
    assert_eq!(read_digits(b"x123y", 1, 4), Digits::Number(123));
    assert_eq!(read_digits(b"123", 1, 1), Digits::Malformed);
    assert_eq!(read_digits(b"12a", 0, 3), Digits::Malformed);
    assert_eq!(read_digits(b"18446744073709551615", 0, 20), Digits::Number(u64::MAX));
    assert_eq!(read_digits(b"18446744073709551616", 0, 20), Digits::TooLarge);
    assert_eq!(read_digits(b"184467440737095516150", 0, 21), Digits::TooLarge);
    assert_eq!(read_numeral(b"-42", 0, 3), Numeral::Number(-42));
    assert_eq!(read_numeral(b"+42", 0, 3), Numeral::Number(42));
    assert_eq!(read_numeral(b"-", 0, 1), Numeral::Malformed);
    assert_eq!(read_numeral(b"", 0, 0), Numeral::Malformed);
    assert_eq!(read_numeral(b"9223372036854775808", 0, 19), Numeral::OutOfRange);
    assert_eq!(read_numeral(b"-9223372036854775808", 0, 20), Numeral::Number(i64::MIN));
    assert_eq!(read_numeral(b"18446744073709551616", 0, 20), Numeral::OutOfRange);
}

#[test]
fn number_table() {
    let real = |s: &str| Value::Real(s.to_string());
    for mode in [Mode::Strict, Mode::Lax] {
        assert_eq!(run(Validator::Float, Value::Int(3), mode), Ok(Output::Int(3)));
        assert_eq!(run(Validator::Float, real("1.5"), mode), Ok(Output::Real("1.5".to_string())));
        assert_eq!(run(Validator::Float, real("-0.25e+10"), mode), Ok(Output::Real("-0.25e+10".to_string())));
        assert_eq!(run(Validator::Float, real("12345678901234567890"), mode), Ok(Output::Real("12345678901234567890".to_string())));
        assert_eq!(run(Validator::Float, real("1."), mode), Err((ErrorKind::FloatParsing, None)));
        assert_eq!(run(Validator::Float, real("nan"), mode), Err((ErrorKind::FloatParsing, None)));
        assert_eq!(run(Validator::Float, real(""), mode), Err((ErrorKind::FloatParsing, None)));
        assert_eq!(run(Validator::Float, Value::Bool(true), mode), Err((ErrorKind::FloatType, None)));
        assert_eq!(run(Validator::Float, Value::Null, mode), Err((ErrorKind::FloatType, None)));
        assert_eq!(run(Validator::Float, Value::Bytes(b"1".to_vec()), mode), Err((ErrorKind::FloatType, None)));
    }
    assert_eq!(run(Validator::Float, text("1.5"), Mode::Strict), Err((ErrorKind::FloatType, None)));
    assert_eq!(run(Validator::Float, text("1.5"), Mode::Lax), Ok(Output::Real("1.5".to_string())));
    assert_eq!(run(Validator::Float, text("7"), Mode::Lax), Ok(Output::Real("7".to_string())));
    for wrong in ["", "+1", "01", "1e", ".5", " 1", "1 ", "1,5", "0x1", "inf", "\u{661}"] {
        assert_eq!(run(Validator::Float, text(wrong), Mode::Lax), Err((ErrorKind::FloatParsing, None)), "{wrong:?}");
    }
}

#[test]
fn nullable_takes_null_or_what_is_under_it() {
    let maybe = || Validator::Nullable { inner: Box::new(Validator::Int { ge: Some(0), le: None }) };
    for mode in [Mode::Strict, Mode::Lax] {
        assert_eq!(run(maybe(), Value::Null, mode), Ok(Output::Null));
        assert_eq!(run(maybe(), Value::Int(4), mode), Ok(Output::Int(4)));
        assert_eq!(
            run(maybe(), Value::Int(-4), mode),
            Err((ErrorKind::GreaterThanEqual, Some(ErrorContext::Bound(0))))
        );
    }
    assert_eq!(run(maybe(), text("4"), Mode::Strict), Err((ErrorKind::IntType, None)));
    assert_eq!(run(maybe(), text("4"), Mode::Lax), Ok(Output::Int(4)));
}
