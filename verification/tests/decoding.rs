use pydantic_core::json::document::decode;
use pydantic_core::json::lexical::{read_number, skip_digits, skip_space};
use pydantic_core::json::strings::{read_escape, read_hex4, read_string};
use pydantic_core::value::Value;

fn root(text: &[u8]) -> Option<Value> {
    decode(text).map(|(heap, id)| heap.get(id).clone())
}

fn text(s: &str) -> Option<Value> {
    Some(Value::Str(s.to_string()))
}

#[test]
fn scalars_decode_at_the_root() {
    assert_eq!(root(b"null"), Some(Value::Null));
    assert_eq!(root(b"true"), Some(Value::Bool(true)));
    assert_eq!(root(b"false"), Some(Value::Bool(false)));
    assert_eq!(root(b"0"), Some(Value::Int(0)));
    assert_eq!(root(b"-12"), Some(Value::Int(-12)));
    assert_eq!(root(b"\"\""), text(""));
    assert_eq!(root(b"[]"), Some(Value::List(vec![])));
    assert_eq!(root(b"{}"), Some(Value::Dict(vec![])));
    assert_eq!(root(b" \t\r\n[ \n ] \t"), Some(Value::List(vec![])));
    assert_eq!(root(b"{ }"), Some(Value::Dict(vec![])));
}

#[test]
fn words_must_be_whole_and_alone() {
    for wrong in [&b"nul"[..], b"tru", b"fals", b"nulll", b"truex", b"Null", b"TRUE", b"n", b"t", b"f", b"none"] {
        assert_eq!(root(wrong), None, "{:?}", String::from_utf8_lossy(wrong));
    }
}

#[test]
fn numbers_follow_the_grammar() {
    assert_eq!(root(b"1.5"), Some(Value::Real("1.5".to_string())));
    assert_eq!(root(b"-0.0"), Some(Value::Real("-0.0".to_string())));
    assert_eq!(root(b"1e5"), Some(Value::Real("1e5".to_string())));
    assert_eq!(root(b"1E+5"), Some(Value::Real("1E+5".to_string())));
    assert_eq!(root(b"12.25e-3"), Some(Value::Real("12.25e-3".to_string())));
    assert_eq!(root(b"0e0"), Some(Value::Real("0e0".to_string())));
    assert_eq!(root(b"18446744073709551616"), Some(Value::Real("18446744073709551616".to_string())));
    assert_eq!(root(b"-9223372036854775809"), Some(Value::Real("-9223372036854775809".to_string())));
    for wrong in [&b"-"[..], b"+1", b"01", b"-01", b"1.", b".5", b"1e", b"1e+", b"1.e5", b"1.5.5", b"0x10", b"1_0", b"--1", b"1-", b"00"] {
        assert_eq!(root(wrong), None, "{:?}", String::from_utf8_lossy(wrong));
    }
    assert_eq!(read_number(b"[12,", 1), Some((Value::Int(12), 3)));
    assert_eq!(read_number(b"x", 0), None);
    assert_eq!(read_number(b"", 0), None);
    assert_eq!(skip_digits(b"a123b", 1), 4);
    assert_eq!(skip_digits(b"a123b", 0), 0);
    assert_eq!(skip_space(b" \n\t\r x", 0), 5);
    assert_eq!(skip_space(b"x ", 0), 0);
    assert_eq!(skip_space(b"  ", 0), 2);
}

#[test]
fn strings_take_escapes_for_what_they_stand_for() {
    assert_eq!(root(br#""a\"b\\c\/d\be\ff\ng\rh\ti""#), text("a\"b\\c/d\u{8}e\u{c}f\ng\rh\ti"));
    assert_eq!(root(br#""\u0041\u00e9\u20ac\u0000""#), text("A\u{e9}\u{20ac}\u{0}"));
    assert_eq!(root(br#""\ud83d\ude00""#), text("\u{1F600}"));
    assert_eq!(root(br#""\uD83D\uDE00""#), text("\u{1F600}"));
    assert_eq!(root("\"\u{e9}\u{20ac}\u{1F600}\"".as_bytes()), text("\u{e9}\u{20ac}\u{1F600}"));
    assert_eq!(root(b"\"\x7f\""), text("\u{7f}"));
    for wrong in [
        &br#""\ud83d""#[..],
        br#""\ude00""#,
        br#""\ud83dA""#,
        br#""\ud83dx""#,
        br#""\u12""#,
        br#""\u12g4""#,
        br#""\x41""#,
        br#""\""#,
        br#""abc"#,
        b"\"a\nb\"",
        b"\"\x1f\"",
        b"\"\x80\"",
        b"\"\xc3\"",
        b"\"\xed\xa0\x80\"",
        b"\"\xc0\x80\"",
        b"'a'",
    ] {
        assert_eq!(root(wrong), None, "{:?}", String::from_utf8_lossy(wrong));
    }
    assert_eq!(read_string(b"x\"ab\"y", 1), Some(("ab".to_string(), 5)));
    assert_eq!(read_string(b"x\"ab\"y", 0), None);
    assert_eq!(read_hex4(b"00fF", 0), Some(0xff));
    assert_eq!(read_hex4(b"FFFF", 0), Some(0xffff));
    assert_eq!(read_hex4(b"00f", 0), None);
    assert_eq!(read_hex4(b"00fg", 0), None);
    let mut bytes = vec![1u8];
    assert_eq!(read_escape(b"n", 0, &mut bytes), Some(1));
    assert_eq!(read_escape(b"u00e9", 0, &mut bytes), Some(5));
    assert_eq!(read_escape(b"ud83d\\ude00", 0, &mut bytes), Some(11));
    assert_eq!(bytes, vec![1, b'\n', 0xc3, 0xa9, 0xf0, 0x9f, 0x98, 0x80]);
    assert_eq!(read_escape(b"q", 0, &mut bytes), None);
    assert_eq!(read_escape(b"", 0, &mut bytes), None);
}

#[test]
fn arrays_and_objects_keep_order_and_repeats() {
    let (heap, id) = decode(br#" {"b" : 1 , "a" : [ true , null ] , "b" : "x" } "#).unwrap();
    assert_eq!(
        heap.get(id),
        &Value::Dict(vec![("b".to_string(), 0), ("a".to_string(), 3), ("b".to_string(), 4)])
    );
    assert_eq!(heap.get(3), &Value::List(vec![1, 2]));
    assert_eq!(heap.get(4), &Value::Str("x".to_string()));
    assert_eq!(heap.len(), 6);
    for wrong in [
        &b"["[..],
        b"]",
        b"[1",
        b"[1,",
        b"[1,]",
        b"[,1]",
        b"[1 2]",
        b"[1}",
        b"{",
        b"}",
        b"{\"a\"}",
        b"{\"a\":}",
        b"{\"a\":1,}",
        b"{\"a\":1 \"b\":2}",
        b"{a:1}",
        b"{1:1}",
        b"{\"a\":1]",
        b"{\"a\" 1}",
        b"[] []",
        b"{} 1",
        b"",
        b"   ",
    ] {
        assert_eq!(root(wrong), None, "{:?}", String::from_utf8_lossy(wrong));
    }
}
