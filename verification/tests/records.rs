use pydantic_core::errors::{ErrorKind, LocItem};
use pydantic_core::output::Output;
use pydantic_core::validator::{ExtraPolicy, Field, Mode, SchemaValidator, Validator};
use pydantic_core::value::{Heap, Literal, Value};

fn integer() -> Validator {
    Validator::Int { ge: None, le: None }
}

fn field(name: &str, schema: Validator, required: bool) -> Field {
    Field { name: name.to_string(), schema, required }
}

fn with_default(schema: Validator, default: Literal) -> Validator {
    Validator::WithDefault { inner: Box::new(schema), default }
}

fn record(fields: Vec<Field>, extra: ExtraPolicy) -> SchemaValidator {
    SchemaValidator::assemble(Validator::Record { fields, extra }, Vec::new(), "record".to_string(), 255).unwrap()
}

fn person(extra: ExtraPolicy) -> SchemaValidator {
    record(
        vec![
            field("name", Validator::Str { min_len: None, max_len: None }, true),
            field("age", integer(), true),
            field("nick", Validator::Str { min_len: None, max_len: None }, false),
            field("level", with_default(integer(), Literal::Int(1)), false),
        ],
        extra,
    )
}

fn dict(heap: &mut Heap, entries: Vec<(&str, Value)>) -> usize {
    let mut held = Vec::new();
    for (key, value) in entries {
        let id = heap.add(value).unwrap();
        held.push((key.to_string(), id));
    }
    heap.add(Value::Dict(held)).unwrap()
}

fn found(v: &SchemaValidator, heap: &Heap, id: usize) -> Vec<(ErrorKind, Vec<LocItem>)> {
    let result = v.validate(heap, id, Mode::Strict);
    assert_eq!(v.check(heap, id, Mode::Strict), result.is_ok());
    result.unwrap_err().violations.iter().map(|v| (v.kind, v.loc.items.clone())).collect()
}

fn text(s: &str) -> Value {
    Value::Str(s.to_string())
}

#[test]
fn record_gives_fields_in_order_of_declaration() {
    let mut heap = Heap::new();
    let id = dict(&mut heap, vec![("level", Value::Int(3)), ("age", Value::Int(30)), ("name", text("Ann"))]);
    assert_eq!(
        person(ExtraPolicy::Ignore).validate(&heap, id, Mode::Strict),
        Ok(Output::Dict(vec![
            ("name".to_string(), Output::Str("Ann".to_string())),
            ("age".to_string(), Output::Int(30)),
            ("level".to_string(), Output::Int(3)),
        ]))
    );
    assert!(person(ExtraPolicy::Ignore).check(&heap, id, Mode::Strict));
}

#[test]
fn absent_optional_field_with_default_is_given_the_default() {
    let mut heap = Heap::new();
    let id = dict(&mut heap, vec![("name", text("Ann")), ("age", Value::Int(30))]);
    let out = person(ExtraPolicy::Reject).validate(&heap, id, Mode::Strict).unwrap();
    assert_eq!(
        out,
        Output::Dict(vec![
            ("name".to_string(), Output::Str("Ann".to_string())),
            ("age".to_string(), Output::Int(30)),
            ("level".to_string(), Output::Int(1)),
        ])
    );
}

#[test]
fn absent_required_fields_are_each_a_violation() {
    let mut heap = Heap::new();
    let id = dict(&mut heap, vec![("nick", Value::Int(1))]);
    let v = person(ExtraPolicy::Ignore);
    assert_eq!(
        found(&v, &heap, id),
        vec![
            (ErrorKind::Missing, vec![LocItem::Field("name".to_string())]),
            (ErrorKind::Missing, vec![LocItem::Field("age".to_string())]),
            (ErrorKind::StringType, vec![LocItem::Field("nick".to_string())]),
        ]
    );
    let report = v.validate(&heap, id, Mode::Strict).unwrap_err();
    assert_eq!(report.violations[0].input, id);
}

#[test]
fn required_field_with_default_is_given_the_default() {
    let v = record(vec![field("n", with_default(integer(), Literal::Int(9)), true)], ExtraPolicy::Ignore);
    let mut heap = Heap::new();
    let id = dict(&mut heap, vec![]);
    assert_eq!(v.validate(&heap, id, Mode::Strict), Ok(Output::Dict(vec![("n".to_string(), Output::Int(9))])));
}

#[test]
fn rejected_keys_are_one_violation_each_whatever_the_fields_do() {
    let v = person(ExtraPolicy::Reject);
    let mut heap = Heap::new();
    let valid = dict(
        &mut heap,
        vec![("x", Value::Null), ("name", text("Ann")), ("y", Value::Int(1)), ("age", Value::Int(3)), ("x", Value::Null)],
    );
    assert_eq!(
        found(&v, &heap, valid),
        vec![
            (ErrorKind::ExtraForbidden, vec![LocItem::Key("x".to_string())]),
            (ErrorKind::ExtraForbidden, vec![LocItem::Key("y".to_string())]),
            (ErrorKind::ExtraForbidden, vec![LocItem::Key("x".to_string())]),
        ]
    );
    let invalid = dict(&mut heap, vec![("x", Value::Null), ("name", Value::Int(0)), ("y", Value::Int(1))]);
    assert_eq!(
        found(&v, &heap, invalid),
        vec![
            (ErrorKind::StringType, vec![LocItem::Field("name".to_string())]),
            (ErrorKind::Missing, vec![LocItem::Field("age".to_string())]),
            (ErrorKind::ExtraForbidden, vec![LocItem::Key("x".to_string())]),
            (ErrorKind::ExtraForbidden, vec![LocItem::Key("y".to_string())]),
        ]
    );
}

#[test]
fn ignored_keys_are_dropped_and_kept_keys_handed_through() {
    let mut heap = Heap::new();
    let id = dict(&mut heap, vec![("age", Value::Int(3)), ("x", Value::List(vec![])), ("name", text("A"))]);
    let x = match heap.get(id) {
        Value::Dict(entries) => entries[1].1,
        _ => unreachable!(),
    };
    assert_eq!(
        person(ExtraPolicy::Ignore).validate(&heap, id, Mode::Strict),
        Ok(Output::Dict(vec![
            ("name".to_string(), Output::Str("A".to_string())),
            ("age".to_string(), Output::Int(3)),
            ("level".to_string(), Output::Int(1)),
        ]))
    );
    assert_eq!(
        person(ExtraPolicy::Keep).validate(&heap, id, Mode::Strict),
        Ok(Output::Dict(vec![
            ("name".to_string(), Output::Str("A".to_string())),
            ("age".to_string(), Output::Int(3)),
            ("level".to_string(), Output::Int(1)),
            ("x".to_string(), Output::Kept(x)),
        ]))
    );
}

#[test]
fn record_reads_the_first_entry_under_a_name() {
    let v = record(vec![field("n", integer(), true)], ExtraPolicy::Reject);
    let mut heap = Heap::new();
    let id = dict(&mut heap, vec![("n", Value::Int(1)), ("n", text("not read"))]);
    assert_eq!(v.validate(&heap, id, Mode::Strict), Ok(Output::Dict(vec![("n".to_string(), Output::Int(1))])));
}

#[test]
fn record_wants_a_mapping() {
    let v = person(ExtraPolicy::Ignore);
    let mut heap = Heap::new();
    let list = heap.add(Value::List(vec![])).unwrap();
    assert_eq!(found(&v, &heap, list), vec![(ErrorKind::RecordType, vec![])]);
}

#[test]
fn nested_record_locates_by_field_then_index() {
    let inner = Validator::Record { fields: vec![field("xs", Validator::List { items: Box::new(integer()) }, true)], extra: ExtraPolicy::Reject };
    let v = record(vec![field("inner", inner, true)], ExtraPolicy::Reject);
    let mut heap = Heap::new();
    let bad = heap.add(Value::Null).unwrap();
    let xs = heap.add(Value::List(vec![bad])).unwrap();
    let inner = heap.add(Value::Dict(vec![("xs".to_string(), xs), ("no".to_string(), bad)])).unwrap();
    let outer = heap.add(Value::Dict(vec![("inner".to_string(), inner)])).unwrap();
    assert_eq!(
        found(&v, &heap, outer),
        vec![
            (
                ErrorKind::IntType,
                vec![LocItem::Field("inner".to_string()), LocItem::Field("xs".to_string()), LocItem::Index(0)]
            ),
            (ErrorKind::ExtraForbidden, vec![LocItem::Field("inner".to_string()), LocItem::Key("no".to_string())]),
        ]
    );
}

#[test]
fn rejected_keys_name_the_values_of_their_entries() {
    let v = person(ExtraPolicy::Reject);
    let mut heap = Heap::new();
    let id = dict(&mut heap, vec![("x", Value::Null), ("name", text("Ann")), ("age", Value::Int(3)), ("y", Value::Int(1))]);
    let entries = match heap.get(id) {
        Value::Dict(entries) => entries.clone(),
        _ => unreachable!(),
    };
    let report = v.validate(&heap, id, Mode::Strict).unwrap_err();
    let found: Vec<_> = report.violations.iter().map(|v| (v.kind, v.loc.items.clone(), v.input)).collect();
    assert_eq!(
        found,
        vec![
            (ErrorKind::ExtraForbidden, vec![LocItem::Key("x".to_string())], entries[0].1),
            (ErrorKind::ExtraForbidden, vec![LocItem::Key("y".to_string())], entries[3].1),
        ]
    );
}
