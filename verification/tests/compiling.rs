use pydantic_core::compile::{compile, CompileError};
use pydantic_core::errors::ErrorKind;
use pydantic_core::literal_set::LiteralSet;
use pydantic_core::schema::{ParamValue, Schema};
use pydantic_core::validator::{Definition, ExtraPolicy, Field, SchemaValidator, Signal, Trigger, Validator};
use pydantic_core::value::Literal;

fn sub(s: Schema) -> ParamValue {
    ParamValue::Schema(Box::new(s))
}

fn text(s: &str) -> ParamValue {
    ParamValue::Text(s.to_string())
}

fn root_of(s: Schema) -> Validator {
    let v = compile(&s, &Vec::new()).unwrap();
    let title = v.title().clone();
    let expected = SchemaValidator::assemble(Validator::Null, Vec::new(), title, 255).unwrap();
    assert_eq!(v.max_depth(), expected.max_depth());
    assert!(v.definitions().is_empty());
    clone_node(v.root())
}

fn clone_node(node: &Validator) -> Validator {
    match node {
        Validator::Null => Validator::Null,
        Validator::Bool => Validator::Bool,
        Validator::Int { ge, le } => Validator::Int { ge: *ge, le: *le },
        Validator::Str { min_len, max_len } => Validator::Str { min_len: *min_len, max_len: *max_len },
        Validator::Bytes => Validator::Bytes,
        Validator::Float => Validator::Float,
        Validator::List { items } => Validator::List { items: Box::new(clone_node(items)) },
        Validator::SetOf { items } => Validator::SetOf { items: Box::new(clone_node(items)) },
        Validator::Dict { values } => Validator::Dict { values: Box::new(clone_node(values)) },
        Validator::Record { fields, extra } => Validator::Record {
            fields: fields
                .iter()
                .map(|f| Field { name: f.name.clone(), schema: clone_node(&f.schema), required: f.required })
                .collect(),
            extra: *extra,
        },
        Validator::Literal { expected } => Validator::Literal { expected: LiteralSet::new(expected.literals().clone()) },
        Validator::Ref { name } => Validator::Ref { name: name.clone() },
        Validator::Nullable { inner } => Validator::Nullable { inner: Box::new(clone_node(inner)) },
        Validator::WithDefault { inner, default } => {
            Validator::WithDefault { inner: Box::new(clone_node(inner)), default: default.clone() }
        }
        Validator::Check { inner, trigger, signal } => Validator::Check {
            inner: Box::new(clone_node(inner)),
            trigger: match trigger {
                Trigger::Failure => Trigger::Failure,
                Trigger::Values(v) => Trigger::Values(v.clone()),
            },
            signal: match signal {
                Signal::Omit => Signal::Omit,
                Signal::UseDefault => Signal::UseDefault,
                Signal::Custom { name, message } => Signal::Custom { name: name.clone(), message: message.clone() },
                Signal::Known { kind } => Signal::Known { kind: *kind },
            },
        },
    }
}

fn bad(kind: &str, param: &str) -> CompileError {
    CompileError::BadParameters { kind: kind.to_string(), param: param.to_string() }
}

fn error_of(s: Schema) -> CompileError {
    compile(&s, &Vec::new()).unwrap_err()
}

#[test]
fn scalars_compile() {
    assert_eq!(root_of(Schema::new("null")), Validator::Null);
    assert_eq!(root_of(Schema::new("bool")), Validator::Bool);
    assert_eq!(root_of(Schema::new("bytes")), Validator::Bytes);
    assert_eq!(root_of(Schema::new("float")), Validator::Float);
    assert_eq!(root_of(Schema::new("int")), Validator::Int { ge: None, le: None });
    assert_eq!(
        root_of(Schema::new("int").with("le", ParamValue::Int(5)).with("ge", ParamValue::Int(-5))),
        Validator::Int { ge: Some(-5), le: Some(5) }
    );
    assert_eq!(
        root_of(Schema::new("str").with("min_length", ParamValue::Int(0)).with("max_length", ParamValue::Int(9))),
        Validator::Str { min_len: Some(0), max_len: Some(9) }
    );
    assert_eq!(root_of(Schema::new("str").with("other", ParamValue::Int(0))), Validator::Str { min_len: None, max_len: None });
}

#[test]
fn containers_compile() {
    assert_eq!(
        root_of(Schema::new("list").with("items", sub(Schema::new("bool")))),
        Validator::List { items: Box::new(Validator::Bool) }
    );
    assert_eq!(
        root_of(Schema::new("set").with("items", sub(Schema::new("null")))),
        Validator::SetOf { items: Box::new(Validator::Null) }
    );
    assert_eq!(
        root_of(Schema::new("dict").with("values", sub(Schema::new("bytes")))),
        Validator::Dict { values: Box::new(Validator::Bytes) }
    );
}

#[test]
fn record_compiles_fields_in_order() {
    let fields = vec![
        ("a".to_string(), Schema::new("field").with("schema", sub(Schema::new("int")))),
        (
            "b".to_string(),
            Schema::new("field").with("required", ParamValue::Flag(false)).with("schema", sub(Schema::new("bool"))),
        ),
    ];
    let field = |name: &str, schema, required| Field { name: name.to_string(), schema, required };
    let expected =
        |extra| Validator::Record { fields: vec![field("a", Validator::Int { ge: None, le: None }, true), field("b", Validator::Bool, false)], extra };
    let description = |extra: Option<&str>| {
        let mut s = Schema::new("record").with(
            "fields",
            ParamValue::Named(vec![
                ("a".to_string(), Schema::new("field").with("schema", sub(Schema::new("int")))),
                (
                    "b".to_string(),
                    Schema::new("field").with("required", ParamValue::Flag(false)).with("schema", sub(Schema::new("bool"))),
                ),
            ]),
        );
        if let Some(e) = extra {
            s = s.with("extra", text(e));
        }
        s
    };
    drop(fields);
    assert_eq!(root_of(description(None)), expected(ExtraPolicy::Ignore));
    assert_eq!(root_of(description(Some("ignore"))), expected(ExtraPolicy::Ignore));
    assert_eq!(root_of(description(Some("reject"))), expected(ExtraPolicy::Reject));
    assert_eq!(root_of(description(Some("keep"))), expected(ExtraPolicy::Keep));
    assert_eq!(error_of(description(Some("allow"))), bad("record", "extra"));
}

#[test]
fn wrappers_and_literals_compile() {
    assert_eq!(
        root_of(Schema::new("literal").with("expected", ParamValue::Consts(vec![Literal::Int(1), Literal::Null]))),
        Validator::Literal { expected: LiteralSet::new(vec![Literal::Int(1), Literal::Null]) }
    );
    assert_eq!(
        root_of(
            Schema::new("default").with("schema", sub(Schema::new("int"))).with("default", ParamValue::Const(Literal::Int(3)))
        ),
        Validator::WithDefault { inner: Box::new(Validator::Int { ge: None, le: None }), default: Literal::Int(3) }
    );
    assert_eq!(
        root_of(Schema::new("nullable").with("schema", sub(Schema::new("int")))),
        Validator::Nullable { inner: Box::new(Validator::Int { ge: None, le: None }) }
    );
    let check = |raise: &str| Schema::new("check").with("schema", sub(Schema::new("bool"))).with("raise", text(raise));
    assert_eq!(
        root_of(check("omit")),
        Validator::Check { inner: Box::new(Validator::Bool), trigger: Trigger::Failure, signal: Signal::Omit }
    );
    assert_eq!(
        root_of(check("use-default").with("when", ParamValue::Consts(vec![Literal::Bool(false)]))),
        Validator::Check {
            inner: Box::new(Validator::Bool),
            trigger: Trigger::Values(vec![Literal::Bool(false)]),
            signal: Signal::UseDefault
        }
    );
    assert_eq!(
        root_of(check("error").with("error", text("too_odd")).with("message", text("odd"))),
        Validator::Check {
            inner: Box::new(Validator::Bool),
            trigger: Trigger::Failure,
            signal: Signal::Custom { name: "too_odd".to_string(), message: "odd".to_string() }
        }
    );
    assert_eq!(
        root_of(check("error").with("error", text("too_odd"))),
        Validator::Check {
            inner: Box::new(Validator::Bool),
            trigger: Trigger::Failure,
            signal: Signal::Custom { name: "too_odd".to_string(), message: String::new() }
        }
    );
    assert_eq!(
        root_of(check("error").with("error", text("missing")).with("message", text("dropped"))),
        Validator::Check {
            inner: Box::new(Validator::Bool),
            trigger: Trigger::Failure,
            signal: Signal::Known { kind: ErrorKind::Missing }
        }
    );
}

#[test]
fn unknown_kind_is_refused() {
    assert_eq!(error_of(Schema::new("integer")), CompileError::UnknownKind { kind: "integer".to_string() });
    assert_eq!(error_of(Schema::new("")), CompileError::UnknownKind { kind: String::new() });
    assert_eq!(
        error_of(Schema::new("list").with("items", sub(Schema::new("tuple")))),
        CompileError::UnknownKind { kind: "tuple".to_string() }
    );
    assert_eq!(
        error_of(Schema::new("list").with("items", sub(Schema::new("definitions")))),
        CompileError::UnknownKind { kind: "definitions".to_string() }
    );
    assert_eq!(
        error_of(Schema::new("record").with("fields", ParamValue::Named(vec![("a".to_string(), Schema::new("int"))]))),
        CompileError::UnknownKind { kind: "int".to_string() }
    );
    assert_eq!(error_of(Schema::new("field")), CompileError::UnknownKind { kind: "field".to_string() });
}

#[test]
fn malformed_parameters_are_refused() {
    assert_eq!(error_of(Schema::new("int").with("ge", text("1"))), bad("int", "ge"));
    assert_eq!(error_of(Schema::new("int").with("le", ParamValue::Flag(true)).with("ge", text("1"))), bad("int", "ge"));
    assert_eq!(error_of(Schema::new("int").with("le", ParamValue::Flag(true))), bad("int", "le"));
    assert_eq!(error_of(Schema::new("str").with("min_length", ParamValue::Int(-1))), bad("str", "min_length"));
    assert_eq!(error_of(Schema::new("str").with("max_length", text("9"))), bad("str", "max_length"));
    assert_eq!(error_of(Schema::new("list")), bad("list", "items"));
    assert_eq!(error_of(Schema::new("list").with("items", text("int"))), bad("list", "items"));
    assert_eq!(error_of(Schema::new("set")), bad("set", "items"));
    assert_eq!(error_of(Schema::new("dict")), bad("dict", "values"));
    assert_eq!(error_of(Schema::new("record")), bad("record", "fields"));
    assert_eq!(error_of(Schema::new("literal")), bad("literal", "expected"));
    assert_eq!(error_of(Schema::new("literal").with("expected", ParamValue::Consts(vec![]))), bad("literal", "expected"));
    assert_eq!(error_of(Schema::new("ref")), bad("ref", "name"));
    assert_eq!(error_of(Schema::new("nullable")), bad("nullable", "schema"));
    assert_eq!(error_of(Schema::new("nullable").with("schema", text("int"))), bad("nullable", "schema"));
    assert_eq!(error_of(Schema::new("default").with("schema", sub(Schema::new("int")))), bad("default", "default"));
    assert_eq!(error_of(Schema::new("default").with("default", ParamValue::Const(Literal::Null))), bad("default", "schema"));
    assert_eq!(error_of(Schema::new("check").with("schema", sub(Schema::new("int")))), bad("check", "raise"));
    assert_eq!(
        error_of(Schema::new("check").with("schema", sub(Schema::new("int"))).with("raise", text("panic"))),
        bad("check", "raise")
    );
    assert_eq!(
        error_of(Schema::new("check").with("schema", sub(Schema::new("int"))).with("raise", text("error"))),
        bad("check", "error")
    );
    assert_eq!(
        error_of(
            Schema::new("check")
                .with("schema", sub(Schema::new("int")))
                .with("raise", text("error"))
                .with("error", text("e"))
                .with("message", ParamValue::Int(1))
        ),
        bad("check", "message")
    );
    assert_eq!(
        error_of(Schema::new("check").with("raise", text("omit")).with("when", text("x"))),
        bad("check", "when")
    );
    assert_eq!(error_of(Schema::new("check").with("raise", text("omit"))), bad("check", "schema"));
    let fields = |f: Schema| Schema::new("record").with("fields", ParamValue::Named(vec![("a".to_string(), f)]));
    assert_eq!(error_of(fields(Schema::new("field"))), bad("field", "schema"));
    assert_eq!(
        error_of(fields(Schema::new("field").with("schema", sub(Schema::new("int"))).with("required", ParamValue::Int(1)))),
        bad("field", "required")
    );
    assert_eq!(error_of(Schema::new("definitions").with("schema", sub(Schema::new("int")))), bad("definitions", "definitions"));
    assert_eq!(error_of(Schema::new("definitions").with("definitions", ParamValue::Named(vec![]))), bad("definitions", "schema"));
}

#[test]
fn first_parameter_of_a_name_is_the_one_read() {
    assert_eq!(
        root_of(Schema::new("int").with("ge", ParamValue::Int(1)).with("ge", ParamValue::Int(2))),
        Validator::Int { ge: Some(1), le: None }
    );
}

#[test]
fn unresolved_reference_is_refused() {
    let reference = |name: &str| Schema::new("ref").with("name", text(name));
    assert_eq!(error_of(reference("nowhere")), CompileError::UnresolvedReference { name: "nowhere".to_string() });
    let defs = vec![("a".to_string(), Schema::new("list").with("items", sub(reference("b"))))];
    assert_eq!(
        compile(&reference("a"), &defs).unwrap_err(),
        CompileError::UnresolvedReference { name: "b".to_string() }
    );
    let nested = Schema::new("record").with(
        "fields",
        ParamValue::Named(vec![
            ("x".to_string(), Schema::new("field").with("schema", sub(reference("a")))),
            ("y".to_string(), Schema::new("field").with("schema", sub(Schema::new("set").with("items", sub(reference("c")))))),
            ("z".to_string(), Schema::new("field").with("schema", sub(reference("d")))),
        ]),
    );
    let defs = vec![("a".to_string(), Schema::new("int"))];
    assert_eq!(compile(&nested, &defs).unwrap_err(), CompileError::UnresolvedReference { name: "c".to_string() });
    assert_eq!(
        compile(&Schema::new("list").with("items", sub(Schema::new("what"))), &vec![("a".to_string(), reference("b"))])
            .unwrap_err(),
        CompileError::UnknownKind { kind: "what".to_string() }
    );
}

#[test]
fn definitions_supplied_and_embedded_share_one_registry() {
    let reference = |name: &str| Schema::new("ref").with("name", text(name));
    let root = Schema::new("definitions")
        .with("definitions", ParamValue::Named(vec![("own".to_string(), reference("given"))]))
        .with("schema", sub(Schema::new("list").with("items", sub(reference("own")))))
        .with("title", text("not read"));
    let v = compile(&root, &vec![("given".to_string(), Schema::new("bool"))]).unwrap();
    assert_eq!(
        v.definitions(),
        &vec![
            Definition { name: "given".to_string(), body: Validator::Bool },
            Definition { name: "own".to_string(), body: Validator::Ref { name: "given".to_string() } },
        ]
    );
    assert_eq!(clone_node(v.root()), Validator::List { items: Box::new(Validator::Ref { name: "own".to_string() }) });
    assert_eq!(v.title(), "list");
}

#[test]
fn title_is_the_text_given_or_the_kind() {
    assert_eq!(compile(&Schema::new("int"), &Vec::new()).unwrap().title(), "int");
    assert_eq!(compile(&Schema::new("int").with("title", text("Age")), &Vec::new()).unwrap().title(), "Age");
    assert_eq!(compile(&Schema::new("int").with("title", ParamValue::Int(1)), &Vec::new()).unwrap().title(), "int");
    let inner = Schema::new("bool").with("title", text("Flag"));
    let root = Schema::new("definitions").with("definitions", ParamValue::Named(vec![])).with("schema", sub(inner));
    assert_eq!(compile(&root, &Vec::new()).unwrap().title(), "Flag");
}

#[test]
fn kinds_have_names() {
    assert_eq!(ErrorKind::from_name("int_type"), Some(ErrorKind::IntType));
    assert_eq!(ErrorKind::from_name("float_type"), Some(ErrorKind::FloatType));
    assert_eq!(ErrorKind::from_name("float_parsing"), Some(ErrorKind::FloatParsing));
    assert_eq!(ErrorKind::from_name("json_invalid"), Some(ErrorKind::JsonInvalid));
    assert_eq!(ErrorKind::from_name("recursion_loop"), Some(ErrorKind::RecursionLoop));
    assert_eq!(ErrorKind::from_name("custom"), None);
    assert_eq!(ErrorKind::from_name(""), None);
}

#[test]
fn name_that_stands_for_two_definitions_is_refused() {
    let twice = vec![("a".to_string(), Schema::new("int")), ("b".to_string(), Schema::new("int")), ("a".to_string(), Schema::new("bool"))];
    assert_eq!(compile(&Schema::new("int"), &twice).unwrap_err(), bad("definitions", "a"));
    let root = Schema::new("definitions")
        .with("definitions", ParamValue::Named(vec![("b".to_string(), Schema::new("nothing"))]))
        .with("schema", sub(Schema::new("int")));
    let supplied = vec![("a".to_string(), Schema::new("int")), ("b".to_string(), Schema::new("int"))];
    assert_eq!(compile(&root, &supplied).unwrap_err(), bad("definitions", "b"));
}

#[test]
fn schema_is_assembled_only_where_every_reference_resolves() {
    let reference = |name: &str| Validator::Ref { name: name.to_string() };
    let def = |name: &str, body| Definition { name: name.to_string(), body };
    assert!(SchemaValidator::assemble(reference("a"), Vec::new(), String::new(), 1).is_none());
    assert!(SchemaValidator::assemble(reference("a"), vec![def("a", reference("b"))], String::new(), 1).is_none());
    assert!(SchemaValidator::assemble(
        Validator::List { items: Box::new(reference("b")) },
        vec![def("a", Validator::Null)],
        String::new(),
        1
    )
    .is_none());
    let made = SchemaValidator::assemble(reference("a"), vec![def("a", reference("a"))], "t".to_string(), 7).unwrap();
    assert_eq!(made.title(), "t");
    assert_eq!(made.max_depth(), 7);
    assert_eq!(made.with_max_depth(9).max_depth(), 9);
}
