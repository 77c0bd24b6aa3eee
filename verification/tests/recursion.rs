use pydantic_core::compile::compile;
use pydantic_core::errors::{ErrorKind, LocItem};
use pydantic_core::output::Output;
use pydantic_core::schema::{ParamValue, Schema};
use pydantic_core::validator::{Definition, ExtraPolicy, Field, Mode, SchemaValidator, Validator};
use pydantic_core::value::{Heap, Value};

fn sub(s: Schema) -> ParamValue {
    ParamValue::Schema(Box::new(s))
}

fn reference(name: &str) -> Schema {
    Schema::new("ref").with("name", ParamValue::Text(name.to_string()))
}

fn optional(s: Schema) -> Schema {
    Schema::new("field").with("schema", sub(s)).with("required", ParamValue::Flag(false))
}

/// A node of a tree: a number, and a next node where there is one.
fn node_schema() -> SchemaValidator {
    let node = Schema::new("record")
        .with(
            "fields",
            ParamValue::Named(vec![
                ("value".to_string(), Schema::new("field").with("schema", sub(Schema::new("int")))),
                ("next".to_string(), optional(reference("node"))),
            ]),
        )
        .with("extra", ParamValue::Text("reject".to_string()));
    let root = Schema::new("definitions")
        .with("definitions", ParamValue::Named(vec![("node".to_string(), node)]))
        .with("schema", sub(reference("node")));
    compile(&root, &Vec::new()).unwrap()
}

fn chain(heap: &mut Heap, length: usize) -> usize {
    let value = heap.add(Value::Int(1)).unwrap();
    let mut node = heap.add(Value::Dict(vec![("value".to_string(), value)])).unwrap();
    for _ in 1..length {
        node = heap.add(Value::Dict(vec![("value".to_string(), value), ("next".to_string(), node)])).unwrap();
    }
    node
}

#[test]
fn recursive_schema_takes_finite_data() {
    let v = node_schema();
    let mut heap = Heap::new();
    let head = chain(&mut heap, 3);
    let leaf = Output::Dict(vec![("value".to_string(), Output::Int(1))]);
    let mid = Output::Dict(vec![("value".to_string(), Output::Int(1)), ("next".to_string(), leaf)]);
    let top = Output::Dict(vec![("value".to_string(), Output::Int(1)), ("next".to_string(), mid)]);
    assert_eq!(v.validate(&heap, head, Mode::Strict), Ok(top));
    assert!(v.check(&heap, head, Mode::Strict));
}

#[test]
fn value_that_holds_itself_is_a_recursion_loop() {
    let v = node_schema();
    let mut heap = Heap::new();
    let value = heap.add(Value::Int(1)).unwrap();
    let node = heap.add(Value::Dict(vec![("value".to_string(), value)])).unwrap();
    assert!(heap.insert(node, "next".to_string(), node));
    let report = v.validate(&heap, node, Mode::Strict).unwrap_err();
    assert_eq!(report.count(), 1);
    assert_eq!(report.violations[0].kind, ErrorKind::RecursionLoop);
    assert_eq!(report.violations[0].loc.items, vec![LocItem::Field("next".to_string())]);
    assert_eq!(report.violations[0].input, node);
    assert!(!v.check(&heap, node, Mode::Strict));
}

#[test]
fn cycle_through_several_values_is_a_recursion_loop() {
    let v = node_schema();
    let mut heap = Heap::new();
    let value = heap.add(Value::Int(1)).unwrap();
    let a = heap.add(Value::Dict(vec![("value".to_string(), value)])).unwrap();
    let b = heap.add(Value::Dict(vec![("value".to_string(), value), ("next".to_string(), a)])).unwrap();
    let c = heap.add(Value::Dict(vec![("value".to_string(), value), ("next".to_string(), b)])).unwrap();
    assert!(heap.insert(a, "next".to_string(), c));
    let report = v.validate(&heap, c, Mode::Strict).unwrap_err();
    assert_eq!(report.count(), 1);
    assert_eq!(report.violations[0].kind, ErrorKind::RecursionLoop);
    let next = || LocItem::Field("next".to_string());
    assert_eq!(report.violations[0].loc.items, vec![next(), next(), next()]);
    assert_eq!(report.violations[0].input, c);
    assert!(!v.check(&heap, c, Mode::Lax));
}

#[test]
fn sequence_that_holds_itself_is_a_recursion_loop() {
    let nested = Schema::new("list").with("items", sub(reference("nested")));
    let v = compile(&reference("nested"), &vec![("nested".to_string(), nested)]).unwrap();
    let mut heap = Heap::new();
    let list = heap.add(Value::List(vec![0, 0])).unwrap();
    assert_eq!(list, 0);
    let report = v.validate(&heap, list, Mode::Strict).unwrap_err();
    let found: Vec<_> = report.violations.iter().map(|v| (v.kind, v.loc.items.clone())).collect();
    assert_eq!(
        found,
        vec![
            (ErrorKind::RecursionLoop, vec![LocItem::Index(0)]),
            (ErrorKind::RecursionLoop, vec![LocItem::Index(1)]),
        ]
    );
    let empty = heap.add(Value::List(vec![])).unwrap();
    let shared = heap.add(Value::List(vec![empty, empty])).unwrap();
    assert_eq!(v.validate(&heap, shared, Mode::Strict), Ok(Output::List(vec![Output::List(vec![]), Output::List(vec![])])));
}

#[test]
fn references_nested_beyond_the_bound_are_a_recursion_loop() {
    let mut heap = Heap::new();
    let head = chain(&mut heap, 4);
    assert!(node_schema().with_max_depth(4).validate(&heap, head, Mode::Strict).is_ok());
    let report = node_schema().with_max_depth(3).validate(&heap, head, Mode::Strict).unwrap_err();
    assert_eq!(report.count(), 1);
    assert_eq!(report.violations[0].kind, ErrorKind::RecursionLoop);
    assert_eq!(report.violations[0].loc.items.len(), 3);
    assert!(!node_schema().with_max_depth(3).check(&heap, head, Mode::Strict));
    let report = node_schema().with_max_depth(0).validate(&heap, head, Mode::Strict).unwrap_err();
    assert!(report.violations[0].loc.items.is_empty());
}

#[test]
fn default_bound_is_255() {
    assert_eq!(node_schema().max_depth(), 255);
    let mut heap = Heap::new();
    let fits = chain(&mut heap, 255);
    assert!(node_schema().check(&heap, fits, Mode::Strict));
    let too_deep = chain(&mut heap, 256);
    assert!(!node_schema().check(&heap, too_deep, Mode::Strict));
    let report = node_schema().validate(&heap, too_deep, Mode::Strict).unwrap_err();
    assert_eq!(report.violations[0].kind, ErrorKind::RecursionLoop);
}

#[test]
fn mutual_recursion_resolves_forward_references() {
    let a = Schema::new("list").with("items", sub(reference("b")));
    let b = Schema::new("dict").with("values", sub(reference("a")));
    let v = compile(&reference("a"), &vec![("a".to_string(), a), ("b".to_string(), b)]).unwrap();
    let mut heap = Heap::new();
    let inner = heap.add(Value::List(vec![])).unwrap();
    let dict = heap.add(Value::Dict(vec![("k".to_string(), inner)])).unwrap();
    let outer = heap.add(Value::List(vec![dict])).unwrap();
    assert_eq!(
        v.validate(&heap, outer, Mode::Strict),
        Ok(Output::List(vec![Output::Dict(vec![("k".to_string(), Output::List(vec![]))])]))
    );
    let wrong = heap.add(Value::List(vec![inner])).unwrap();
    let report = v.validate(&heap, wrong, Mode::Strict).unwrap_err();
    assert_eq!(report.violations[0].kind, ErrorKind::DictType);
}

#[test]
fn mapping_that_holds_itself_is_a_recursion_loop_at_the_key() {
    let nested = Schema::new("dict").with("values", sub(reference("nested")));
    let v = compile(&reference("nested"), &vec![("nested".to_string(), nested)]).unwrap();
    let mut heap = Heap::new();
    let empty = heap.add(Value::Dict(vec![])).unwrap();
    let dict = heap.add(Value::Dict(vec![("plain".to_string(), empty)])).unwrap();
    assert!(heap.insert(dict, "self".to_string(), dict));
    let report = v.validate(&heap, dict, Mode::Strict).unwrap_err();
    assert_eq!(report.count(), 1);
    assert_eq!(report.violations[0].kind, ErrorKind::RecursionLoop);
    assert_eq!(report.violations[0].loc.items, vec![LocItem::Key("self".to_string())]);
    assert_eq!(report.violations[0].input, dict);
    assert!(!v.check(&heap, dict, Mode::Strict));
    assert!(v.check(&heap, empty, Mode::Strict));
}

/// A branch: a name, and a sub-branch or null.
fn branch_schema() -> SchemaValidator {
    let branch = Schema::new("record").with(
        "fields",
        ParamValue::Named(vec![
            ("name".to_string(), Schema::new("field").with("schema", sub(Schema::new("str")))),
            (
                "sub".to_string(),
                Schema::new("field").with("schema", sub(Schema::new("nullable").with("schema", sub(reference("Branch"))))),
            ),
        ]),
    );
    compile(&reference("Branch"), &vec![("Branch".to_string(), branch)]).unwrap()
}

#[test]
fn branch_that_is_its_own_sub_branch_is_a_recursion_loop_where_the_cycle_comes_back() {
    let v = branch_schema();
    let mut heap = Heap::new();
    let name = heap.add(Value::Str("x".to_string())).unwrap();
    let d = heap.add(Value::Dict(vec![("name".to_string(), name)])).unwrap();
    assert!(heap.insert(d, "sub".to_string(), d));
    let report = v.validate(&heap, d, Mode::Strict).unwrap_err();
    assert_eq!(report.count(), 1);
    assert_eq!(report.violations[0].kind, ErrorKind::RecursionLoop);
    assert_eq!(report.violations[0].loc.items, vec![LocItem::Field("sub".to_string())]);
    assert_eq!(report.violations[0].input, d);
    assert!(!v.check(&heap, d, Mode::Strict));
}

#[test]
fn branch_with_null_sub_branch_is_valid() {
    let v = branch_schema();
    let mut heap = Heap::new();
    let name = heap.add(Value::Str("x".to_string())).unwrap();
    let null = heap.add(Value::Null).unwrap();
    let leaf = heap.add(Value::Dict(vec![("name".to_string(), name), ("sub".to_string(), null)])).unwrap();
    let top = heap.add(Value::Dict(vec![("name".to_string(), name), ("sub".to_string(), leaf)])).unwrap();
    let leaf_out = Output::Dict(vec![("name".to_string(), Output::Str("x".to_string())), ("sub".to_string(), Output::Null)]);
    assert_eq!(
        v.validate(&heap, top, Mode::Strict),
        Ok(Output::Dict(vec![("name".to_string(), Output::Str("x".to_string())), ("sub".to_string(), leaf_out)]))
    );
    assert!(v.check(&heap, top, Mode::Strict));
    let wrong = heap.add(Value::Dict(vec![("name".to_string(), name), ("sub".to_string(), name)])).unwrap();
    let report = v.validate(&heap, wrong, Mode::Strict).unwrap_err();
    assert_eq!(report.violations[0].kind, ErrorKind::RecordType);
    assert_eq!(report.violations[0].loc.items, vec![LocItem::Field("sub".to_string())]);
}

#[test]
fn record_at_the_root_reports_the_loop_one_round_further_down() {
    let record = || Validator::Record {
        fields: vec![Field {
            name: "sub".to_string(),
            schema: Validator::Nullable { inner: Box::new(Validator::Ref { name: "Branch".to_string() }) },
            required: true,
        }],
        extra: ExtraPolicy::Ignore,
    };
    let v = SchemaValidator::assemble(
        record(),
        vec![Definition { name: "Branch".to_string(), body: record() }],
        "Branch".to_string(),
        255,
    )
    .unwrap();
    let mut heap = Heap::new();
    let d = heap.add(Value::Dict(vec![("sub".to_string(), 0)])).unwrap();
    let report = v.validate(&heap, d, Mode::Strict).unwrap_err();
    assert_eq!(report.count(), 1);
    assert_eq!(report.violations[0].kind, ErrorKind::RecursionLoop);
    let sub_step = || LocItem::Field("sub".to_string());
    assert_eq!(report.violations[0].loc.items, vec![sub_step(), sub_step()]);
    assert_eq!(report.violations[0].input, d);
}
