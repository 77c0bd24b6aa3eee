use pydantic_core::errors::{ErrorContext, ErrorKind};
use pydantic_core::literal_set::{hash_bytes, LiteralSet, SCAN_LIMIT};
use pydantic_core::output::Output;
use pydantic_core::validator::{Mode, SchemaValidator, Validator};
use pydantic_core::value::{Heap, Literal, Value};

fn expected() -> Vec<Literal> {
    vec![
        Literal::Int(1),
        Literal::Str("a".to_string()),
        Literal::Bool(true),
        Literal::Null,
        Literal::Bytes(vec![7]),
    ]
}

fn literal() -> SchemaValidator {
    SchemaValidator::assemble(
        Validator::Literal { expected: LiteralSet::new(expected()) },
        Vec::new(),
        "literal".to_string(),
        255,
    ).unwrap()
}

#[test]
fn literal_accepts_each_of_its_own_unchanged() {
    let cases = vec![
        (Value::Int(1), Output::Int(1)),
        (Value::Str("a".to_string()), Output::Str("a".to_string())),
        (Value::Bool(true), Output::Bool(true)),
        (Value::Null, Output::Null),
        (Value::Bytes(vec![7]), Output::Bytes(vec![7])),
    ];
    for (value, out) in cases {
        for mode in [Mode::Strict, Mode::Lax] {
            let mut heap = Heap::new();
            let id = heap.add(value.clone()).unwrap();
            assert_eq!(literal().validate(&heap, id, mode), Ok(out.clone()));
            assert!(literal().check(&heap, id, mode));
        }
    }
}

#[test]
fn literal_rejects_what_only_looks_alike() {
    let others = vec![
        Value::Str("1".to_string()),
        Value::Int(2),
        Value::Bool(false),
        Value::Int(0),
        Value::Bytes(b"a".to_vec()),
        Value::Str("true".to_string()),
        Value::Real("1".to_string()),
        Value::List(vec![]),
    ];
    for value in others {
        for mode in [Mode::Strict, Mode::Lax] {
            let mut heap = Heap::new();
            let id = heap.add(value.clone()).unwrap();
            let report = literal().validate(&heap, id, mode).unwrap_err();
            assert_eq!(report.count(), 1);
            assert_eq!(report.violations[0].kind, ErrorKind::LiteralError);
            assert_eq!(report.violations[0].context, Some(ErrorContext::Expected(expected())));
            assert!(!literal().check(&heap, id, mode));
        }
    }
}

fn many() -> Vec<Literal> {
    let mut list = Vec::new();
    for i in 0..40 {
        list.push(Literal::Int(i * 3));
        list.push(Literal::Str(format!("s{i}")));
        list.push(Literal::Bytes(vec![i as u8, 1]));
    }
    list.push(Literal::Bool(false));
    list.push(Literal::Str(String::new()));
    list.push(Literal::Str("s7".to_string()));
    list.push(Literal::Int(-1));
    list
}

#[test]
fn long_list_finds_exactly_its_own() {
    let list = many();
    assert!(list.len() > SCAN_LIMIT);
    let set = LiteralSet::new(many());
    assert_eq!(set.literals(), &list);
    for literal in &list {
        let value = match literal {
            Literal::Null => Value::Null,
            Literal::Bool(b) => Value::Bool(*b),
            Literal::Int(i) => Value::Int(*i),
            Literal::Str(s) => Value::Str(s.clone()),
            Literal::Bytes(b) => Value::Bytes(b.clone()),
        };
        assert!(set.contains(&value), "{value:?}");
    }
    let others = vec![
        Value::Null,
        Value::Bool(true),
        Value::Int(1),
        Value::Int(120),
        Value::Str("3".to_string()),
        Value::Str("s40".to_string()),
        Value::Str("S1".to_string()),
        Value::Bytes(vec![0]),
        Value::Bytes(vec![1, 1, 0]),
        Value::Bytes(b"s1".to_vec()),
        Value::Str("\u{1}\u{1}".to_string()),
        Value::Real("3".to_string()),
        Value::List(vec![]),
        Value::SetOf(vec![]),
        Value::Dict(vec![]),
    ];
    for value in &others {
        assert!(!set.contains(value), "{value:?}");
    }
}

#[test]
fn long_and_short_lists_agree() {
    let long = many();
    let probes: Vec<Value> = (-5..130)
        .flat_map(|i: i64| {
            vec![
                Value::Int(i),
                Value::Str(format!("s{i}")),
                Value::Bytes(vec![(i & 0xff) as u8, 1]),
                Value::Bool(i % 2 == 0),
                Value::Str(i.to_string()),
            ]
        })
        .collect();
    let set = LiteralSet::new(many());
    for probe in &probes {
        let by_scan = long.chunks(SCAN_LIMIT).any(|part| LiteralSet::new(part.to_vec()).contains(probe));
        assert_eq!(set.contains(probe), by_scan, "{probe:?}");
    }
}

#[test]
fn long_list_validates_like_a_short_one() {
    let v = SchemaValidator::assemble(
        Validator::Literal { expected: LiteralSet::new(many()) },
        Vec::new(),
        "literal".to_string(),
        255,
    ).unwrap();
    let mut heap = Heap::new();
    let hit = heap.add(Value::Str("s39".to_string())).unwrap();
    let miss = heap.add(Value::Str("39".to_string())).unwrap();
    let null = heap.add(Value::Null).unwrap();
    assert_eq!(v.validate(&heap, hit, Mode::Strict), Ok(Output::Str("s39".to_string())));
    assert!(v.check(&heap, hit, Mode::Lax));
    for id in [miss, null] {
        let report = v.validate(&heap, id, Mode::Lax).unwrap_err();
        assert_eq!(report.count(), 1);
        assert_eq!(report.violations[0].kind, ErrorKind::LiteralError);
        assert_eq!(report.violations[0].context, Some(ErrorContext::Expected(many())));
        assert!(!v.check(&heap, id, Mode::Lax));
    }
}

#[test]
fn empty_list_holds_nothing() {
    let set = LiteralSet::new(Vec::new());
    assert!(!set.contains(&Value::Null));
    assert!(set.literals().is_empty());
}

#[test]
fn hash_of_bytes_is_the_known_one() {
    assert_eq!(hash_bytes(b""), 0xcbf29ce484222325);
    assert_eq!(hash_bytes(b"a"), 0xaf63dc4c8601ec8c);
    assert_eq!(hash_bytes(b"foobar"), 0x85944171f73967e8);
}
