use pydantic_core::errors::{ErrorKind, LocItem};
use pydantic_core::output::Output;
use pydantic_core::validator::{Mode, SchemaValidator, Validator};
use pydantic_core::value::{Heap, Value};

fn integer() -> Validator {
    Validator::Int { ge: None, le: None }
}

fn whole(node: Validator) -> SchemaValidator {
    SchemaValidator::assemble(node, Vec::new(), "container".to_string(), 255).unwrap()
}

fn list_of_ints() -> SchemaValidator {
    whole(Validator::List { items: Box::new(integer()) })
}

fn text(heap: &mut Heap, s: &str) -> usize {
    heap.add(Value::Str(s.to_string())).unwrap()
}

#[test]
fn sequence_reports_every_invalid_member() {
    let mut heap = Heap::new();
    let a = text(&mut heap, "a");
    let b = text(&mut heap, "b");
    let three = heap.add(Value::Int(3)).unwrap();
    let d = text(&mut heap, "d");
    let list = heap.add(Value::List(vec![a, b, three, d])).unwrap();
    let report = list_of_ints().validate(&heap, list, Mode::Strict).unwrap_err();
    assert_eq!(report.count(), 3);
    assert_eq!(report.title, "container");
    let places: Vec<_> = report.violations.iter().map(|v| v.loc.items.clone()).collect();
    assert_eq!(places, vec![vec![LocItem::Index(0)], vec![LocItem::Index(1)], vec![LocItem::Index(3)]]);
    let inputs: Vec<_> = report.violations.iter().map(|v| v.input).collect();
    assert_eq!(inputs, vec![a, b, d]);
    assert!(report.violations.iter().all(|v| v.kind == ErrorKind::IntType));
    assert!(!list_of_ints().check(&heap, list, Mode::Strict));
}

#[test]
fn sequence_of_numerals_is_valid_in_lax_mode() {
    let mut heap = Heap::new();
    let a = text(&mut heap, "12");
    let b = heap.add(Value::Int(-4)).unwrap();
    let list = heap.add(Value::List(vec![a, b])).unwrap();
    let out = list_of_ints().validate(&heap, list, Mode::Lax).unwrap();
    assert_eq!(out, Output::List(vec![Output::Int(12), Output::Int(-4)]));
    assert!(list_of_ints().check(&heap, list, Mode::Lax));
    assert!(!list_of_ints().check(&heap, list, Mode::Strict));
}

#[test]
fn empty_sequence_is_valid() {
    let mut heap = Heap::new();
    let list = heap.add(Value::List(vec![])).unwrap();
    assert_eq!(list_of_ints().validate(&heap, list, Mode::Strict), Ok(Output::List(vec![])));
}

#[test]
fn sequence_wants_a_sequence() {
    let mut heap = Heap::new();
    let one = heap.add(Value::Int(1)).unwrap();
    let set = heap.add(Value::SetOf(vec![one])).unwrap();
    let dict = heap.add(Value::Dict(vec![])).unwrap();
    let v = list_of_ints();
    assert_eq!(v.validate(&heap, one, Mode::Lax).unwrap_err().violations[0].kind, ErrorKind::ListType);
    assert_eq!(v.validate(&heap, dict, Mode::Lax).unwrap_err().violations[0].kind, ErrorKind::ListType);
    assert_eq!(v.validate(&heap, set, Mode::Strict).unwrap_err().violations[0].kind, ErrorKind::ListType);
    assert_eq!(v.validate(&heap, set, Mode::Lax), Ok(Output::List(vec![Output::Int(1)])));
}

#[test]
fn nested_sequences_locate_violations_by_path() {
    let v = whole(Validator::List { items: Box::new(Validator::List { items: Box::new(integer()) }) });
    let mut heap = Heap::new();
    let one = heap.add(Value::Int(1)).unwrap();
    let x = text(&mut heap, "x");
    let inner0 = heap.add(Value::List(vec![one, x])).unwrap();
    let inner1 = heap.add(Value::Null).unwrap();
    let inner2 = heap.add(Value::List(vec![x, one, x])).unwrap();
    let outer = heap.add(Value::List(vec![inner0, inner1, inner2])).unwrap();
    let report = v.validate(&heap, outer, Mode::Strict).unwrap_err();
    let found: Vec<_> = report.violations.iter().map(|v| (v.kind, v.loc.items.clone())).collect();
    assert_eq!(
        found,
        vec![
            (ErrorKind::IntType, vec![LocItem::Index(0), LocItem::Index(1)]),
            (ErrorKind::ListType, vec![LocItem::Index(1)]),
            (ErrorKind::IntType, vec![LocItem::Index(2), LocItem::Index(0)]),
            (ErrorKind::IntType, vec![LocItem::Index(2), LocItem::Index(2)]),
        ]
    );
}

#[test]
fn set_drops_repeated_members() {
    let v = whole(Validator::SetOf { items: Box::new(integer()) });
    let mut heap = Heap::new();
    let a = heap.add(Value::Int(2)).unwrap();
    let b = heap.add(Value::Int(1)).unwrap();
    let c = text(&mut heap, "2");
    let d = heap.add(Value::Int(1)).unwrap();
    let set = heap.add(Value::SetOf(vec![a, b, c, d])).unwrap();
    let list = heap.add(Value::List(vec![a, b, a])).unwrap();
    assert_eq!(v.validate(&heap, set, Mode::Lax), Ok(Output::SetOf(vec![Output::Int(2), Output::Int(1)])));
    let report = v.validate(&heap, set, Mode::Strict).unwrap_err();
    assert_eq!(report.count(), 1);
    assert_eq!(report.violations[0].loc.items, vec![LocItem::Index(2)]);
    assert_eq!(v.validate(&heap, list, Mode::Strict).unwrap_err().violations[0].kind, ErrorKind::SetType);
    assert_eq!(v.validate(&heap, list, Mode::Lax), Ok(Output::SetOf(vec![Output::Int(2), Output::Int(1)])));
}

#[test]
fn mapping_reports_every_invalid_value_under_its_key() {
    let v = whole(Validator::Dict { values: Box::new(integer()) });
    let mut heap = Heap::new();
    let one = heap.add(Value::Int(1)).unwrap();
    let x = text(&mut heap, "x");
    let dict = heap
        .add(Value::Dict(vec![
            ("a".to_string(), x),
            ("b".to_string(), one),
            ("c".to_string(), x),
            ("b".to_string(), x),
        ]))
        .unwrap();
    let report = v.validate(&heap, dict, Mode::Lax).unwrap_err();
    let found: Vec<_> = report.violations.iter().map(|v| (v.kind, v.loc.items.clone())).collect();
    assert_eq!(
        found,
        vec![
            (ErrorKind::IntParsing, vec![LocItem::Key("a".to_string())]),
            (ErrorKind::IntParsing, vec![LocItem::Key("c".to_string())]),
            (ErrorKind::IntParsing, vec![LocItem::Key("b".to_string())]),
        ]
    );
    assert!(!v.check(&heap, dict, Mode::Lax));
    let good = heap.add(Value::Dict(vec![("k".to_string(), one), ("k".to_string(), one)])).unwrap();
    assert_eq!(
        v.validate(&heap, good, Mode::Strict),
        Ok(Output::Dict(vec![("k".to_string(), Output::Int(1)), ("k".to_string(), Output::Int(1))]))
    );
    assert_eq!(v.validate(&heap, one, Mode::Lax).unwrap_err().violations[0].kind, ErrorKind::DictType);
}

#[test]
fn quick_pass_agrees_with_full_validation() {
    let schemas = vec![
        whole(Validator::List { items: Box::new(integer()) }),
        whole(Validator::SetOf { items: Box::new(Validator::Bool) }),
        whole(Validator::Dict { values: Box::new(Validator::Str { min_len: Some(1), max_len: None }) }),
        whole(Validator::List { items: Box::new(Validator::Dict { values: Box::new(integer()) }) }),
        whole(integer()),
    ];
    let mut heap = Heap::new();
    let one = heap.add(Value::Int(1)).unwrap();
    let t = heap.add(Value::Bool(true)).unwrap();
    let s = text(&mut heap, "s");
    let e = text(&mut heap, "");
    let n = text(&mut heap, "5");
    let l1 = heap.add(Value::List(vec![one, n])).unwrap();
    let l2 = heap.add(Value::List(vec![t, one])).unwrap();
    let d1 = heap.add(Value::Dict(vec![("a".to_string(), s), ("b".to_string(), e)])).unwrap();
    let d2 = heap.add(Value::Dict(vec![("a".to_string(), one)])).unwrap();
    let l3 = heap.add(Value::List(vec![d2, d2])).unwrap();
    let s1 = heap.add(Value::SetOf(vec![t, t])).unwrap();
    let _ = (l1, l2, d1, l3, s1);
    for v in &schemas {
        for id in 0..heap.len() {
            for mode in [Mode::Strict, Mode::Lax] {
                assert_eq!(v.check(&heap, id, mode), v.validate(&heap, id, mode).is_ok());
            }
        }
    }
}
