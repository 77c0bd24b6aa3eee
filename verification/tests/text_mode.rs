use pydantic_core::compile::compile;
use pydantic_core::errors::{ErrorKind, LocItem};
use pydantic_core::json::document::decode;
use pydantic_core::output::Output;
use pydantic_core::schema::{ParamValue, Schema};
use pydantic_core::validator::{Mode, SchemaValidator};
use pydantic_core::value::{Heap, Value};

fn sub(s: Schema) -> ParamValue {
    ParamValue::Schema(Box::new(s))
}

fn field(s: Schema) -> Schema {
    Schema::new("field").with("schema", sub(s))
}

fn record_a_int_b_list_of_int() -> SchemaValidator {
    let fields = vec![
        ("a".to_string(), field(Schema::new("int"))),
        ("b".to_string(), field(Schema::new("list").with("items", sub(Schema::new("int"))))),
    ];
    compile(&Schema::new("record").with("fields", ParamValue::Named(fields)), &Vec::new()).unwrap()
}

#[test]
fn text_and_value_report_the_same_violation() {
    let v = record_a_int_b_list_of_int();

    let mut heap = Heap::new();
    let one = heap.add(Value::Int(1)).unwrap();
    let first = heap.add(Value::Int(1)).unwrap();
    let x = heap.add(Value::Str("x".to_string())).unwrap();
    let three = heap.add(Value::Int(3)).unwrap();
    let list = heap.add(Value::List(vec![first, x, three])).unwrap();
    let root = heap.add(Value::Dict(vec![("a".to_string(), one), ("b".to_string(), list)])).unwrap();
    let from_value = v.validate(&heap, root, Mode::Strict).unwrap_err();

    let (store, result) = v.validate_text(br#"{"a": 1, "b": [1, "x", 3]}"#, Mode::Strict);
    let from_text = result.unwrap_err();

    assert_eq!(from_value.count(), 1);
    assert_eq!(from_text.count(), 1);
    assert_eq!(from_value.violations[0].kind, ErrorKind::IntType);
    assert_eq!(from_text.violations[0].kind, ErrorKind::IntType);
    let place = vec![LocItem::Field("b".to_string()), LocItem::Index(1)];
    assert_eq!(from_value.violations[0].loc.items, place);
    assert_eq!(from_text.violations[0].loc.items, place);
    assert_eq!(from_value, from_text);
    assert_eq!(store.get(from_text.violations[0].input), &Value::Str("x".to_string()));
}

#[test]
fn valid_text_gives_the_value() {
    let v = record_a_int_b_list_of_int();
    let (_, result) = v.validate_text(b" { \"a\" : -7 , \"b\" : [ ] } ", Mode::Strict);
    assert_eq!(
        result.unwrap(),
        Output::Dict(vec![("a".to_string(), Output::Int(-7)), ("b".to_string(), Output::List(vec![]))])
    );
    assert!(v.check_text(b"{\"a\":1,\"b\":[2,3]}", Mode::Strict));
    assert!(!v.check_text(b"{\"a\":1,\"b\":[2,\"3\"]}", Mode::Strict));
    assert!(v.check_text(b"{\"a\":1,\"b\":[2,\"3\"]}", Mode::Lax));
}

#[test]
fn malformed_text_is_one_violation_at_the_root() {
    let v = record_a_int_b_list_of_int();
    for text in [&b"{\"a\": 1,"[..], b"", b"[1,]", b"{\"a\" 1}", b"nul", b"01", b"1 2", b"\"\\x\"", b"\"\x01\"", b"[\"\xff\"]"] {
        let (store, result) = v.validate_text(text, Mode::Lax);
        let report = result.unwrap_err();
        assert_eq!(report.count(), 1);
        assert_eq!(report.violations[0].kind, ErrorKind::JsonInvalid);
        assert!(report.violations[0].loc.items.is_empty());
        assert_eq!(store.len(), 0);
        assert!(!v.check_text(text, Mode::Lax));
        assert!(decode(text).is_none());
    }
}

#[test]
fn decode_lays_members_out_before_their_container() {
    let (heap, root) = decode(br#"[null, true, false, "a\n\u00e9\ud83d\ude00", {"k": 12}, 1.5, 123456789012345678901234567890, -0]"#).unwrap();
    assert_eq!(root, heap.len() - 1);
    assert_eq!(heap.get(0), &Value::Null);
    assert_eq!(heap.get(1), &Value::Bool(true));
    assert_eq!(heap.get(2), &Value::Bool(false));
    assert_eq!(heap.get(3), &Value::Str("a\n\u{e9}\u{1F600}".to_string()));
    assert_eq!(heap.get(4), &Value::Int(12));
    assert_eq!(heap.get(5), &Value::Dict(vec![("k".to_string(), 4)]));
    assert_eq!(heap.get(6), &Value::Real("1.5".to_string()));
    assert_eq!(heap.get(7), &Value::Real("123456789012345678901234567890".to_string()));
    assert_eq!(heap.get(8), &Value::Int(0));
    assert_eq!(heap.get(9), &Value::List(vec![0, 1, 2, 3, 5, 6, 7, 8]));
}

#[test]
fn integer_too_large_for_the_host_is_an_overflow_in_text_mode() {
    let v = compile(&Schema::new("int"), &Vec::new()).unwrap();
    let (_, result) = v.validate_text(b"9223372036854775808", Mode::Strict);
    let report = result.unwrap_err();
    assert_eq!(report.violations[0].kind, ErrorKind::IntOverflow);
    let (_, result) = v.validate_text(b"9223372036854775807", Mode::Strict);
    assert_eq!(result.unwrap(), Output::Int(i64::MAX));
    let (_, result) = v.validate_text(b"-9223372036854775808", Mode::Strict);
    assert_eq!(result.unwrap(), Output::Int(i64::MIN));
    let (_, result) = v.validate_text(b"1.5", Mode::Lax);
    assert_eq!(result.unwrap_err().violations[0].kind, ErrorKind::IntType);
}

#[test]
fn nesting_beyond_the_bound_is_no_document() {
    let deep = |n: usize| {
        let mut text = vec![b'['; n];
        text.extend(vec![b']'; n]);
        text
    };
    assert!(decode(&deep(128)).is_some());
    assert!(decode(&deep(129)).is_none());
}

#[test]
fn kept_keys_of_a_document_name_places_of_its_store() {
    let fields = vec![("a".to_string(), field(Schema::new("int")))];
    let description = Schema::new("record")
        .with("fields", ParamValue::Named(fields))
        .with("extra", ParamValue::Text("keep".to_string()));
    let v = compile(&description, &Vec::new()).unwrap();
    let (store, result) = v.validate_text(br#"{"x": [1.5], "a": 2}"#, Mode::Strict);
    match result.unwrap() {
        Output::Dict(entries) => {
            assert_eq!(entries.len(), 2);
            assert_eq!(entries[0], ("a".to_string(), Output::Int(2)));
            assert_eq!(entries[1].0, "x");
            match &entries[1].1 {
                Output::Kept(id) => match store.get(*id) {
                    Value::List(members) => {
                        assert_eq!(members.len(), 1);
                        assert_eq!(store.get(members[0]), &Value::Real("1.5".to_string()));
                    }
                    other => panic!("{other:?}"),
                },
                other => panic!("{other:?}"),
            }
        }
        other => panic!("{other:?}"),
    }
}

#[test]
fn numbers_of_a_document_are_valid_numbers() {
    let v = compile(&Schema::new("list").with("items", sub(Schema::new("float"))), &Vec::new()).unwrap();
    let (_, result) = v.validate_text(b"[1, -2.5, 1e3, 123456789012345678901234567890]", Mode::Strict);
    assert_eq!(
        result.unwrap(),
        Output::List(vec![
            Output::Int(1),
            Output::Real("-2.5".to_string()),
            Output::Real("1e3".to_string()),
            Output::Real("123456789012345678901234567890".to_string()),
        ])
    );
    let (_, result) = v.validate_text(b"[1, \"2.5\", true]", Mode::Strict);
    let found: Vec<_> = result.unwrap_err().violations.iter().map(|v| (v.kind, v.loc.items.clone())).collect();
    assert_eq!(
        found,
        vec![(ErrorKind::FloatType, vec![LocItem::Index(1)]), (ErrorKind::FloatType, vec![LocItem::Index(2)])]
    );
    assert!(v.check_text(b"[1, \"2.5\"]", Mode::Lax));
    assert!(!v.check_text(b"[1, \"2.5\"]", Mode::Strict));
}

#[test]
fn store_that_holds_containers_before_their_members_reports_alike() {
    let v = record_a_int_b_list_of_int();
    // The root first, then what it holds: the other way round from a decoded document.
    let mut heap = Heap::new();
    let root = heap.add(Value::Dict(vec![])).unwrap();
    let list = heap.add(Value::List(vec![])).unwrap();
    let three = heap.add(Value::Int(3)).unwrap();
    let x = heap.add(Value::Str("x".to_string())).unwrap();
    let first = heap.add(Value::Int(1)).unwrap();
    let one = heap.add(Value::Int(1)).unwrap();
    assert!(heap.insert(root, "a".to_string(), one));
    assert!(heap.insert(root, "b".to_string(), list));
    assert!(heap.append(list, first));
    assert!(heap.append(list, x));
    assert!(heap.append(list, three));
    let from_value = v.validate(&heap, root, Mode::Strict).unwrap_err();
    let (store, result) = v.validate_text(br#"{"a": 1, "b": [1, "x", 3]}"#, Mode::Strict);
    let from_text = result.unwrap_err();
    assert_eq!(from_value.count(), from_text.count());
    assert_eq!(from_value.title, from_text.title);
    for (a, b) in from_value.violations.iter().zip(from_text.violations.iter()) {
        assert_eq!(a.kind, b.kind);
        assert_eq!(a.loc, b.loc);
        assert_eq!(a.context, b.context);
        assert_eq!(a.message, b.message);
        assert_eq!(heap.get(a.input), store.get(b.input));
    }
    assert_ne!(from_value.violations[0].input, from_text.violations[0].input);
    assert_eq!(v.check(&heap, root, Mode::Lax), v.check_text(br#"{"a": 1, "b": [1, "x", 3]}"#, Mode::Lax));
}
