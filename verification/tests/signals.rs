use pydantic_core::errors::{ErrorContext, ErrorKind, LocItem};
use pydantic_core::output::Output;
use pydantic_core::validator::{ExtraPolicy, Field, Mode, SchemaValidator, Signal, Trigger, Validator};
use pydantic_core::value::{Heap, Literal, Value};

fn integer() -> Validator {
    Validator::Int { ge: None, le: None }
}

fn check(inner: Validator, trigger: Trigger, signal: Signal) -> Validator {
    Validator::Check { inner: Box::new(inner), trigger, signal }
}

fn whole(node: Validator) -> SchemaValidator {
    SchemaValidator::assemble(node, Vec::new(), "signals".to_string(), 255).unwrap()
}

fn ints(heap: &mut Heap, values: &[i64]) -> usize {
    let ids: Vec<usize> = values.iter().map(|v| heap.add(Value::Int(*v)).unwrap()).collect();
    heap.add(Value::List(ids)).unwrap()
}

fn agree(v: &SchemaValidator, heap: &Heap, id: usize) -> Result<Output, pydantic_core::errors::Report> {
    for mode in [Mode::Strict, Mode::Lax] {
        assert_eq!(v.check(heap, id, mode), v.validate(heap, id, mode).is_ok());
    }
    v.validate(heap, id, Mode::Strict)
}

#[test]
fn omitted_members_are_left_out_without_a_violation() {
    let drop_zero = check(integer(), Trigger::Values(vec![Literal::Int(0)]), Signal::Omit);
    let v = whole(Validator::List { items: Box::new(drop_zero) });
    let mut heap = Heap::new();
    let list = ints(&mut heap, &[1, 0, 2, 0]);
    assert_eq!(agree(&v, &heap, list), Ok(Output::List(vec![Output::Int(1), Output::Int(2)])));
}

#[test]
fn omit_on_failure_drops_invalid_members() {
    let only_valid = check(integer(), Trigger::Failure, Signal::Omit);
    let v = whole(Validator::List { items: Box::new(only_valid) });
    let mut heap = Heap::new();
    let a = heap.add(Value::Int(1)).unwrap();
    let b = heap.add(Value::Null).unwrap();
    let list = heap.add(Value::List(vec![a, b, a])).unwrap();
    assert_eq!(agree(&v, &heap, list), Ok(Output::List(vec![Output::Int(1), Output::Int(1)])));
}

#[test]
fn omitted_field_is_absent_from_the_output() {
    let secret = check(
        Validator::Str { min_len: None, max_len: None },
        Trigger::Values(vec![Literal::Str("".to_string())]),
        Signal::Omit,
    );
    let v = whole(Validator::Record {
        fields: vec![
            Field { name: "id".to_string(), schema: integer(), required: true },
            Field { name: "note".to_string(), schema: secret, required: true },
        ],
        extra: ExtraPolicy::Reject,
    });
    let mut heap = Heap::new();
    let one = heap.add(Value::Int(1)).unwrap();
    let empty = heap.add(Value::Str(String::new())).unwrap();
    let full = heap.add(Value::Str("hi".to_string())).unwrap();
    let with_empty = heap.add(Value::Dict(vec![("id".to_string(), one), ("note".to_string(), empty)])).unwrap();
    let with_full = heap.add(Value::Dict(vec![("id".to_string(), one), ("note".to_string(), full)])).unwrap();
    assert_eq!(agree(&v, &heap, with_empty), Ok(Output::Dict(vec![("id".to_string(), Output::Int(1))])));
    assert_eq!(
        agree(&v, &heap, with_full),
        Ok(Output::Dict(vec![("id".to_string(), Output::Int(1)), ("note".to_string(), Output::Str("hi".to_string()))]))
    );
}

#[test]
fn use_default_is_resolved_by_the_default_above() {
    let node = Validator::WithDefault {
        inner: Box::new(check(integer(), Trigger::Values(vec![Literal::Int(-1)]), Signal::UseDefault)),
        default: Literal::Int(100),
    };
    let v = whole(Validator::List { items: Box::new(node) });
    let mut heap = Heap::new();
    let list = ints(&mut heap, &[5, -1]);
    assert_eq!(agree(&v, &heap, list), Ok(Output::List(vec![Output::Int(5), Output::Int(100)])));
}

#[test]
fn use_default_on_failure_replaces_invalid_values() {
    let node = Validator::WithDefault {
        inner: Box::new(check(integer(), Trigger::Failure, Signal::UseDefault)),
        default: Literal::Null,
    };
    let v = whole(Validator::List { items: Box::new(node) });
    let mut heap = Heap::new();
    let a = heap.add(Value::Int(1)).unwrap();
    let b = heap.add(Value::Str("x".to_string())).unwrap();
    let list = heap.add(Value::List(vec![a, b])).unwrap();
    assert_eq!(agree(&v, &heap, list), Ok(Output::List(vec![Output::Int(1), Output::Null])));
}

#[test]
fn use_default_without_default_treats_the_field_as_absent() {
    let wants_default = || check(integer(), Trigger::Values(vec![Literal::Int(0)]), Signal::UseDefault);
    let v = |required: bool| {
        whole(Validator::Record {
            fields: vec![Field { name: "n".to_string(), schema: wants_default(), required }],
            extra: ExtraPolicy::Ignore,
        })
    };
    let mut heap = Heap::new();
    let zero = heap.add(Value::Int(0)).unwrap();
    let id = heap.add(Value::Dict(vec![("n".to_string(), zero)])).unwrap();
    assert_eq!(agree(&v(false), &heap, id), Ok(Output::Dict(vec![])));
    let report = agree(&v(true), &heap, id).unwrap_err();
    assert_eq!(report.count(), 1);
    assert_eq!(report.violations[0].kind, ErrorKind::Missing);
    assert_eq!(report.violations[0].loc.items, vec![LocItem::Field("n".to_string())]);
    let list = heap.add(Value::List(vec![zero, zero])).unwrap();
    let in_list = whole(Validator::List { items: Box::new(wants_default()) });
    assert_eq!(agree(&in_list, &heap, list), Ok(Output::List(vec![])));
}

#[test]
fn custom_error_is_one_violation_in_the_applications_words() {
    let node = check(
        integer(),
        Trigger::Values(vec![Literal::Int(13)]),
        Signal::Custom { name: "unlucky".to_string(), message: "thirteen is not allowed".to_string() },
    );
    let v = whole(Validator::List { items: Box::new(node) });
    let mut heap = Heap::new();
    let list = ints(&mut heap, &[1, 13]);
    let report = agree(&v, &heap, list).unwrap_err();
    assert_eq!(report.count(), 1);
    let violation = &report.violations[0];
    assert_eq!(violation.kind, ErrorKind::Custom);
    assert_eq!(violation.loc.items, vec![LocItem::Index(1)]);
    assert_eq!(violation.context, Some(ErrorContext::Name("unlucky".to_string())));
    assert_eq!(violation.message, Some("thirteen is not allowed".to_string()));
}

#[test]
fn custom_error_replaces_the_engines_failure() {
    let node = check(
        Validator::List { items: Box::new(integer()) },
        Trigger::Failure,
        Signal::Custom { name: "bad_list".to_string(), message: "not a list of integers".to_string() },
    );
    let v = whole(node);
    let mut heap = Heap::new();
    let a = heap.add(Value::Null).unwrap();
    let list = heap.add(Value::List(vec![a, a, a])).unwrap();
    let report = agree(&v, &heap, list).unwrap_err();
    assert_eq!(report.count(), 1);
    assert_eq!(report.violations[0].kind, ErrorKind::Custom);
    assert!(report.violations[0].loc.items.is_empty());
    assert_eq!(report.violations[0].input, list);
}

#[test]
fn known_error_is_one_violation_of_that_kind() {
    let node = check(integer(), Trigger::Values(vec![Literal::Int(0)]), Signal::Known { kind: ErrorKind::GreaterThanEqual });
    let v = whole(node);
    let mut heap = Heap::new();
    let zero = heap.add(Value::Int(0)).unwrap();
    let report = agree(&v, &heap, zero).unwrap_err();
    assert_eq!(report.count(), 1);
    assert_eq!(report.violations[0].kind, ErrorKind::GreaterThanEqual);
    assert_eq!(report.violations[0].context, None);
    assert_eq!(report.violations[0].message, None);
}

#[test]
fn signal_that_reaches_the_root_is_a_violation() {
    let mut heap = Heap::new();
    let zero = heap.add(Value::Int(0)).unwrap();
    let omit = whole(check(integer(), Trigger::Values(vec![Literal::Int(0)]), Signal::Omit));
    let report = agree(&omit, &heap, zero).unwrap_err();
    assert_eq!(report.count(), 1);
    assert_eq!(report.violations[0].kind, ErrorKind::OmitUncaught);
    let default = whole(check(integer(), Trigger::Values(vec![Literal::Int(0)]), Signal::UseDefault));
    let report = agree(&default, &heap, zero).unwrap_err();
    assert_eq!(report.violations[0].kind, ErrorKind::UseDefaultUncaught);
}

#[test]
fn check_that_does_not_fire_hands_the_outcome_on() {
    let node = check(integer(), Trigger::Values(vec![Literal::Str("0".to_string())]), Signal::Omit);
    let v = whole(node);
    let mut heap = Heap::new();
    let zero = heap.add(Value::Int(0)).unwrap();
    let text = heap.add(Value::Str("x".to_string())).unwrap();
    assert_eq!(agree(&v, &heap, zero), Ok(Output::Int(0)));
    assert_eq!(agree(&v, &heap, text).unwrap_err().violations[0].kind, ErrorKind::IntType);
}

#[test]
fn check_on_values_sees_the_value_after_coercion() {
    let node = check(integer(), Trigger::Values(vec![Literal::Int(7)]), Signal::Omit);
    let v = whole(Validator::List { items: Box::new(node) });
    let mut heap = Heap::new();
    let seven = heap.add(Value::Str("7".to_string())).unwrap();
    let list = heap.add(Value::List(vec![seven])).unwrap();
    assert_eq!(v.validate(&heap, list, Mode::Lax), Ok(Output::List(vec![])));
    assert!(v.check(&heap, list, Mode::Lax));
    assert!(!v.check(&heap, list, Mode::Strict));
}
