//! Compiling schema descriptions into validator nodes and a registry of definitions.

use crate::context::DEFAULT_MAX_DEPTH;
use crate::errors::kinds::kind_named;
use crate::errors::ErrorKind;
use crate::literal_set::LiteralSet;
use crate::names::{lemma_first_index_found, lemma_first_index_some};
use crate::schema::{named_view, params_view, ParamValue, ParamValueModel, Schema, SchemaModel};
use crate::references::{
    closed, find_unresolved, find_unresolved_in_definitions, opt_name_view, unresolved, unresolved_in_definitions,
};
use crate::semantics::first_index;
use crate::validator::{
    definitions_view, fields_view, Definition, DefinitionModel, ExtraPolicy, Field, FieldModel, GraphModel, NodeModel,
    SchemaValidator, Signal, SignalModel, Trigger, TriggerModel, Validator,
};
use crate::value::{copy_literals};
use vstd::prelude::*;
use vstd::string::StringExecFns;

verus! {

/// Why a schema description cannot be compiled.
#[derive(Debug, PartialEq, Eq)]
pub enum CompileError {
    /// The description names a kind that there is not.
    UnknownKind { kind: String },
    /// A parameter that the kind needs is absent, or a parameter is not of
    /// the form that the kind takes.
    BadParameters { kind: String, param: String },
    /// A reference names a definition that there is not.
    UnresolvedReference { name: String },
}

/// A compile error as contracts see it.
pub enum CompileErrorModel {
    UnknownKind { kind: Seq<char> },
    BadParameters { kind: Seq<char>, param: Seq<char> },
    UnresolvedReference { name: Seq<char> },
}

impl View for CompileError {
    type V = CompileErrorModel;

    open spec fn view(&self) -> CompileErrorModel {
        match self {
            CompileError::UnknownKind { kind } => CompileErrorModel::UnknownKind { kind: kind@ },
            CompileError::BadParameters { kind, param } => CompileErrorModel::BadParameters { kind: kind@, param: param@ },
            CompileError::UnresolvedReference { name } => CompileErrorModel::UnresolvedReference { name: name@ },
        }
    }
}

/// The names of the parameters of a description, in their order.
pub open spec fn param_names(params: Seq<(Seq<char>, ParamValueModel)>) -> Seq<Seq<char>> {
    Seq::new(params.len(), |i: int| params[i].0)
}

/// The value of the first parameter of a name, if there is one.
pub open spec fn param(params: Seq<(Seq<char>, ParamValueModel)>, name: Seq<char>) -> Option<ParamValueModel> {
    match first_index(param_names(params), name, params.len()) {
        Some(i) => if i < params.len() {
            Some(params[i as int].1)
        } else {
            None
        },
        None => None,
    }
}

/// The error for a parameter of a description that is absent or malformed.
pub open spec fn bad(s: SchemaModel, param: Seq<char>) -> CompileErrorModel {
    CompileErrorModel::BadParameters { kind: s.kind, param }
}

/// An integer parameter that may be absent; `Err` where it is no integer.
pub open spec fn int_param(params: Seq<(Seq<char>, ParamValueModel)>, name: Seq<char>) -> Result<Option<i64>, ()> {
    match param(params, name) {
        None => Ok(None),
        Some(ParamValueModel::Int(i)) => Ok(Some(i)),
        Some(_) => Err(()),
    }
}

/// A length parameter that may be absent; `Err` where it is no integer, or
/// one below zero or too large for a length.
pub open spec fn len_param(params: Seq<(Seq<char>, ParamValueModel)>, name: Seq<char>) -> Result<Option<usize>, ()> {
    match param(params, name) {
        None => Ok(None),
        Some(ParamValueModel::Int(i)) => if 0 <= i <= usize::MAX {
            Ok(Some(i as usize))
        } else {
            Err(())
        },
        Some(_) => Err(()),
    }
}

/// A text parameter that may be absent; `Err` where it is no text.
pub open spec fn text_param(params: Seq<(Seq<char>, ParamValueModel)>, name: Seq<char>) -> Result<Option<Seq<char>>, ()> {
    match param(params, name) {
        None => Ok(None),
        Some(ParamValueModel::Text(t)) => Ok(Some(t)),
        Some(_) => Err(()),
    }
}

/// A yes-or-no parameter that may be absent; `Err` where it is neither.
pub open spec fn flag_param(params: Seq<(Seq<char>, ParamValueModel)>, name: Seq<char>) -> Result<Option<bool>, ()> {
    match param(params, name) {
        None => Ok(None),
        Some(ParamValueModel::Flag(b)) => Ok(Some(b)),
        Some(_) => Err(()),
    }
}

/// What a record's description says of undeclared keys: to ignore them where
/// it says nothing; `Err` where it says anything but "reject", "ignore" or "keep".
pub open spec fn extra_param(params: Seq<(Seq<char>, ParamValueModel)>) -> Result<ExtraPolicy, ()> {
    match param(params, "extra"@) {
        None => Ok(ExtraPolicy::Ignore),
        Some(ParamValueModel::Text(t)) => if t == "reject"@ {
            Ok(ExtraPolicy::Reject)
        } else if t == "ignore"@ {
            Ok(ExtraPolicy::Ignore)
        } else if t == "keep"@ {
            Ok(ExtraPolicy::Keep)
        } else {
            Err(())
        },
        Some(_) => Err(()),
    }
}

/// When a check's description says that it raises its signal: on failure
/// where it names no values; `Err` where "when" is no list of constants.
pub open spec fn trigger_param(params: Seq<(Seq<char>, ParamValueModel)>) -> Result<TriggerModel, ()> {
    match param(params, "when"@) {
        None => Ok(TriggerModel::Failure),
        Some(ParamValueModel::Consts(values)) => Ok(TriggerModel::Values(values)),
        Some(_) => Err(()),
    }
}

/// The signal that a check's description names under "raise": "omit",
/// "use-default", or "error" with the name of the error under "error" and its
/// wording under "message". An error whose name is that of a kind of the
/// engine's own is of that kind. `Err` gives the parameter that is wrong.
pub open spec fn signal_param(params: Seq<(Seq<char>, ParamValueModel)>) -> Result<SignalModel, Seq<char>> {
    match param(params, "raise"@) {
        Some(ParamValueModel::Text(r)) => if r == "omit"@ {
            Ok(SignalModel::Omit)
        } else if r == "use-default"@ {
            Ok(SignalModel::UseDefault)
        } else if r == "error"@ {
            match param(params, "error"@) {
                Some(ParamValueModel::Text(name)) => match text_param(params, "message"@) {
                    Err(_) => Err("message"@),
                    Ok(message) => match kind_named(name) {
                        Some(kind) => Ok(SignalModel::Known { kind }),
                        None => Ok(
                            SignalModel::Custom {
                                name,
                                message: match message {
                                    Some(m) => m,
                                    None => Seq::empty(),
                                },
                            },
                        ),
                    },
                },
                _ => Err("error"@),
            }
        } else {
            Err("raise"@)
        },
        _ => Err("raise"@),
    }
}

/// The node that a description compiles to, or the first error that a walk
/// of the description comes upon. The kinds and their parameters:
/// "null", "bool", "float" and "bytes" take none; "int" takes the bounds "ge" and "le";
/// "str" the lengths "min_length" and "max_length"; "list" and "set" the
/// description "items"; "dict" the description "values"; "record" the named
/// descriptions "fields" and the policy "extra"; "literal" the constants
/// "expected", at least one; "ref" the text "name"; "nullable" the
/// description "schema"; "default" the constant
/// "default" and the description "schema"; "check" the description "schema",
/// the constants "when" and the signal under "raise".
pub open spec fn node_for(s: SchemaModel) -> Result<NodeModel, CompileErrorModel>
    decreases s, 0nat,
{
    if s.kind == "null"@ {
        Ok(NodeModel::Null)
    } else if s.kind == "bool"@ {
        Ok(NodeModel::Bool)
    } else if s.kind == "bytes"@ {
        Ok(NodeModel::Bytes)
    } else if s.kind == "float"@ {
        Ok(NodeModel::Float)
    } else if s.kind == "int"@ {
        match int_param(s.params, "ge"@) {
            Err(_) => Err(bad(s, "ge"@)),
            Ok(ge) => match int_param(s.params, "le"@) {
                Err(_) => Err(bad(s, "le"@)),
                Ok(le) => Ok(NodeModel::Int { ge, le }),
            },
        }
    } else if s.kind == "str"@ {
        match len_param(s.params, "min_length"@) {
            Err(_) => Err(bad(s, "min_length"@)),
            Ok(min_len) => match len_param(s.params, "max_length"@) {
                Err(_) => Err(bad(s, "max_length"@)),
                Ok(max_len) => Ok(NodeModel::Str { min_len, max_len }),
            },
        }
    } else if s.kind == "list"@ {
        match param(s.params, "items"@) {
            Some(ParamValueModel::Schema(sub)) => match node_for(*sub) {
                Err(e) => Err(e),
                Ok(items) => Ok(NodeModel::List { items: Box::new(items) }),
            },
            _ => Err(bad(s, "items"@)),
        }
    } else if s.kind == "set"@ {
        match param(s.params, "items"@) {
            Some(ParamValueModel::Schema(sub)) => match node_for(*sub) {
                Err(e) => Err(e),
                Ok(items) => Ok(NodeModel::SetOf { items: Box::new(items) }),
            },
            _ => Err(bad(s, "items"@)),
        }
    } else if s.kind == "dict"@ {
        match param(s.params, "values"@) {
            Some(ParamValueModel::Schema(sub)) => match node_for(*sub) {
                Err(e) => Err(e),
                Ok(values) => Ok(NodeModel::Dict { values: Box::new(values) }),
            },
            _ => Err(bad(s, "values"@)),
        }
    } else if s.kind == "record"@ {
        match param(s.params, "fields"@) {
            Some(ParamValueModel::Named(list)) => match extra_param(s.params) {
                Err(_) => Err(bad(s, "extra"@)),
                Ok(extra) => match fields_for(list, list.len()) {
                    Err(e) => Err(e),
                    Ok(fields) => Ok(NodeModel::Record { fields, extra }),
                },
            },
            _ => Err(bad(s, "fields"@)),
        }
    } else if s.kind == "literal"@ {
        match param(s.params, "expected"@) {
            Some(ParamValueModel::Consts(expected)) => if expected.len() > 0 {
                Ok(NodeModel::Literal { expected })
            } else {
                Err(bad(s, "expected"@))
            },
            _ => Err(bad(s, "expected"@)),
        }
    } else if s.kind == "ref"@ {
        match param(s.params, "name"@) {
            Some(ParamValueModel::Text(name)) => Ok(NodeModel::Ref { name }),
            _ => Err(bad(s, "name"@)),
        }
    } else if s.kind == "nullable"@ {
        match param(s.params, "schema"@) {
            Some(ParamValueModel::Schema(sub)) => match node_for(*sub) {
                Err(e) => Err(e),
                Ok(inner) => Ok(NodeModel::Nullable { inner: Box::new(inner) }),
            },
            _ => Err(bad(s, "schema"@)),
        }
    } else if s.kind == "default"@ {
        match param(s.params, "default"@) {
            Some(ParamValueModel::Const(default)) => match param(s.params, "schema"@) {
                Some(ParamValueModel::Schema(sub)) => match node_for(*sub) {
                    Err(e) => Err(e),
                    Ok(inner) => Ok(NodeModel::WithDefault { inner: Box::new(inner), default }),
                },
                _ => Err(bad(s, "schema"@)),
            },
            _ => Err(bad(s, "default"@)),
        }
    } else if s.kind == "check"@ {
        match trigger_param(s.params) {
            Err(_) => Err(bad(s, "when"@)),
            Ok(trigger) => match signal_param(s.params) {
                Err(p) => Err(bad(s, p)),
                Ok(signal) => match param(s.params, "schema"@) {
                    Some(ParamValueModel::Schema(sub)) => match node_for(*sub) {
                        Err(e) => Err(e),
                        Ok(inner) => Ok(NodeModel::Check { inner: Box::new(inner), trigger, signal }),
                    },
                    _ => Err(bad(s, "schema"@)),
                },
            },
        }
    } else {
        Err(CompileErrorModel::UnknownKind { kind: s.kind })
    }
}

/// The field that the description of a field compiles to: a description of
/// the kind "field", with the description "schema" and the flag "required",
/// which is taken as set where it is absent.
pub open spec fn field_for(name: Seq<char>, s: SchemaModel) -> Result<FieldModel, CompileErrorModel>
    decreases s, 1nat,
{
    if s.kind == "field"@ {
        match flag_param(s.params, "required"@) {
            Err(_) => Err(bad(s, "required"@)),
            Ok(required) => match param(s.params, "schema"@) {
                Some(ParamValueModel::Schema(sub)) => match node_for(*sub) {
                    Err(e) => Err(e),
                    Ok(schema) => Ok(
                        FieldModel {
                            name,
                            schema,
                            required: match required {
                                Some(r) => r,
                                None => true,
                            },
                        },
                    ),
                },
                _ => Err(bad(s, "schema"@)),
            },
        }
    } else {
        Err(CompileErrorModel::UnknownKind { kind: s.kind })
    }
}

/// The fields that the first `n` descriptions of fields compile to, or the
/// error of the first that does not compile.
pub open spec fn fields_for(list: Seq<(Seq<char>, SchemaModel)>, n: nat) -> Result<Seq<FieldModel>, CompileErrorModel>
    decreases list, n,
{
    if n == 0 || n > list.len() {
        Ok(Seq::empty())
    } else {
        match fields_for(list, (n - 1) as nat) {
            Err(e) => Err(e),
            Ok(before) => match field_for(list[n - 1].0, list[n - 1].1) {
                Err(e) => Err(e),
                Ok(field) => Ok(before.push(field)),
            },
        }
    }
}

/// The definitions that the first `n` named descriptions compile to, or the
/// error of the first that does not compile.
pub open spec fn definitions_for(list: Seq<(Seq<char>, SchemaModel)>, n: nat) -> Result<
    Seq<DefinitionModel>,
    CompileErrorModel,
>
    decreases n,
{
    if n == 0 || n > list.len() {
        Ok(Seq::empty())
    } else {
        match definitions_for(list, (n - 1) as nat) {
            Err(e) => Err(e),
            Ok(before) => match node_for(list[n - 1].1) {
                Err(e) => Err(e),
                Ok(body) => Ok(before.push(DefinitionModel { name: list[n - 1].0, body })),
            },
        }
    }
}

/// The description at the root and the definitions that come with it. A
/// description of the kind "definitions" holds both: the description
/// "schema" and the named descriptions "definitions". Any other description
/// is the root itself and brings no definitions.
pub open spec fn split(s: SchemaModel) -> Result<(SchemaModel, Seq<(Seq<char>, SchemaModel)>), CompileErrorModel> {
    if s.kind == "definitions"@ {
        match param(s.params, "definitions"@) {
            Some(ParamValueModel::Named(list)) => match param(s.params, "schema"@) {
                Some(ParamValueModel::Schema(root)) => Ok((*root, list)),
                _ => Err(bad(s, "schema"@)),
            },
            _ => Err(bad(s, "definitions"@)),
        }
    } else {
        Ok((s, Seq::empty()))
    }
}

/// The display name of a schema: the text "title" of its description, or the
/// name of its kind where it has none.
pub open spec fn title_of(s: SchemaModel) -> Seq<char> {
    match param(s.params, "title"@) {
        Some(ParamValueModel::Text(t)) => t,
        _ => s.kind,
    }
}

/// The names of a list of named descriptions, in their order.
pub open spec fn names_of(list: Seq<(Seq<char>, SchemaModel)>) -> Seq<Seq<char>> {
    Seq::new(list.len(), |i: int| list[i].0)
}

/// The first of the first `n` names that an earlier one equals.
pub open spec fn repeated(names: Seq<Seq<char>>, n: nat) -> Option<Seq<char>>
    decreases n,
{
    if n == 0 || n > names.len() {
        None
    } else {
        match repeated(names, (n - 1) as nat) {
            Some(name) => Some(name),
            None => if first_index(names, names[n - 1], (n - 1) as nat) is Some {
                Some(names[n - 1])
            } else {
                None
            },
        }
    }
}

/// The compiled schema for the description of a root and all the named
/// descriptions of its registry, or why there is none. A name that stands
/// for two definitions is refused first. Then the definitions are compiled,
/// then the root; last, every reference is looked up, first those of the
/// definitions, then those of the root.
pub open spec fn built(root: SchemaModel, all: Seq<(Seq<char>, SchemaModel)>) -> Result<GraphModel, CompileErrorModel> {
    match repeated(names_of(all), all.len()) {
        Some(name) => Err(CompileErrorModel::BadParameters { kind: "definitions"@, param: name }),
        None => match definitions_for(all, all.len()) {
            Err(e) => Err(e),
            Ok(defs) => match node_for(root) {
                Err(e) => Err(e),
                Ok(node) => match unresolved_in_definitions(defs, defs.len()) {
                    Some(name) => Err(CompileErrorModel::UnresolvedReference { name }),
                    None => match unresolved(node, defs) {
                        Some(name) => Err(CompileErrorModel::UnresolvedReference { name }),
                        None => Ok(
                            GraphModel { root: node, defs, title: title_of(root), max_depth: DEFAULT_MAX_DEPTH },
                        ),
                    },
                },
            },
        },
    }
}

/// The compiled schema for a description and the definitions supplied beside
/// it, or why there is none. The registry holds the supplied definitions,
/// then those that the description brings itself.
pub open spec fn compiled(s: SchemaModel, definitions: Seq<(Seq<char>, SchemaModel)>) -> Result<GraphModel, CompileErrorModel> {
    match split(s) {
        Err(e) => Err(e),
        Ok((root, own)) => built(root, definitions + own),
    }
}

/// Whether a text is the one written.
fn is_text(text: &String, written: &str) -> (same: bool)
    ensures
        same == (text@ == written@),
{
    *text == String::from_str(written)
}

/// The value of the first parameter of a name, if there is one.
fn lookup<'a>(params: &'a Vec<(String, ParamValue)>, name: &str) -> (r: Option<&'a ParamValue>)
    ensures
        match r {
            Some(v) => param(params_view(params), name@) == Some(v@) && decreases_to!(params => v),
            None => param(params_view(params), name@) is None,
        },
{
    let ghost names = param_names(params_view(params));
    let key = String::from_str(name);
    let mut i: usize = 0;
    while i < params.len()
        invariant
            i <= params.len(),
            key@ == name@,
            names == param_names(params_view(params)),
            forall|j: int| 0 <= j < i ==> names[j] != name@,
        decreases params.len() - i,
    {
        if params[i].0 == key {
            proof {
                assert(names[i as int] == name@);
                lemma_first_index_found(names, name@, i as nat, params.len() as nat);
                assert(decreases_to!(params => params[i as int]));
                assert(decreases_to!(params[i as int] => params[i as int].1));
            }
            return Some(&params[i].1);
        }
        i = i + 1;
    }
    proof {
        lemma_first_index_some(names, name@, params.len() as nat);
    }
    None
}

/// The error for a parameter of a description that is absent or malformed.
fn bad_param(schema: &Schema, param: &str) -> (e: CompileError)
    ensures
        e@ == bad(schema@, param@),
{
    CompileError::BadParameters { kind: schema.kind.clone(), param: String::from_str(param) }
}

/// An integer parameter that may be absent.
fn get_int(params: &Vec<(String, ParamValue)>, name: &str) -> (r: Result<Option<i64>, ()>)
    ensures
        r == int_param(params_view(params), name@),
{
    match lookup(params, name) {
        None => Ok(None),
        Some(ParamValue::Int(i)) => Ok(Some(*i)),
        Some(_) => Err(()),
    }
}

/// A length parameter that may be absent.
fn get_len(params: &Vec<(String, ParamValue)>, name: &str) -> (r: Result<Option<usize>, ()>)
    ensures
        r == len_param(params_view(params), name@),
{
    match lookup(params, name) {
        None => Ok(None),
        Some(ParamValue::Int(i)) => {
            if *i >= 0 && (*i as u64) <= (usize::MAX as u64) {
                Ok(Some(*i as usize))
            } else {
                Err(())
            }
        },
        Some(_) => Err(()),
    }
}

/// A text parameter that may be absent.
fn get_text<'a>(params: &'a Vec<(String, ParamValue)>, name: &str) -> (r: Result<Option<&'a String>, ()>)
    ensures
        match r {
            Ok(Some(t)) => text_param(params_view(params), name@) == Ok::<Option<Seq<char>>, ()>(Some(t@)),
            Ok(None) => text_param(params_view(params), name@) == Ok::<Option<Seq<char>>, ()>(None),
            Err(_) => text_param(params_view(params), name@) is Err,
        },
{
    match lookup(params, name) {
        None => Ok(None),
        Some(ParamValue::Text(t)) => Ok(Some(t)),
        Some(_) => Err(()),
    }
}

/// A yes-or-no parameter that may be absent.
fn get_flag(params: &Vec<(String, ParamValue)>, name: &str) -> (r: Result<Option<bool>, ()>)
    ensures
        r == flag_param(params_view(params), name@),
{
    match lookup(params, name) {
        None => Ok(None),
        Some(ParamValue::Flag(b)) => Ok(Some(*b)),
        Some(_) => Err(()),
    }
}

/// What a record's description says of undeclared keys.
fn get_extra(params: &Vec<(String, ParamValue)>) -> (r: Result<ExtraPolicy, ()>)
    ensures
        r == extra_param(params_view(params)),
{
    match lookup(params, "extra") {
        None => Ok(ExtraPolicy::Ignore),
        Some(ParamValue::Text(t)) => {
            if is_text(t, "reject") {
                Ok(ExtraPolicy::Reject)
            } else if is_text(t, "ignore") {
                Ok(ExtraPolicy::Ignore)
            } else if is_text(t, "keep") {
                Ok(ExtraPolicy::Keep)
            } else {
                Err(())
            }
        },
        Some(_) => Err(()),
    }
}

/// When a check's description says that it raises its signal.
fn get_trigger(params: &Vec<(String, ParamValue)>) -> (r: Result<Trigger, ()>)
    ensures
        match r {
            Ok(t) => trigger_param(params_view(params)) == Ok::<TriggerModel, ()>(t@),
            Err(_) => trigger_param(params_view(params)) is Err,
        },
{
    match lookup(params, "when") {
        None => Ok(Trigger::Failure),
        Some(ParamValue::Consts(values)) => Ok(Trigger::Values(copy_literals(values))),
        Some(_) => Err(()),
    }
}

/// The signal that a check's description names.
fn get_signal(params: &Vec<(String, ParamValue)>) -> (r: Result<Signal, String>)
    ensures
        match r {
            Ok(s) => signal_param(params_view(params)) == Ok::<SignalModel, Seq<char>>(s@),
            Err(p) => signal_param(params_view(params)) == Err::<SignalModel, Seq<char>>(p@),
        },
{
    match lookup(params, "raise") {
        Some(ParamValue::Text(r)) => {
            if is_text(r, "omit") {
                Ok(Signal::Omit)
            } else if is_text(r, "use-default") {
                Ok(Signal::UseDefault)
            } else if is_text(r, "error") {
                match lookup(params, "error") {
                    Some(ParamValue::Text(name)) => match get_text(params, "message") {
                        Err(_) => Err(String::from_str("message")),
                        Ok(message) => match ErrorKind::from_name(name.as_str()) {
                            Some(kind) => Ok(Signal::Known { kind }),
                            None => Ok(
                                Signal::Custom {
                                    name: name.clone(),
                                    message: match message {
                                        Some(m) => m.clone(),
                                        None => String::new(),
                                    },
                                },
                            ),
                        },
                    },
                    _ => Err(String::from_str("error")),
                }
            } else {
                Err(String::from_str("raise"))
            }
        },
        _ => Err(String::from_str("raise")),
    }
}

/// The description nested under a name, where there is one.
fn get_schema<'a>(params: &'a Vec<(String, ParamValue)>, name: &str) -> (r: Option<&'a Schema>)
    ensures
        match r {
            Some(sub) => param(params_view(params), name@) == Some(ParamValueModel::Schema(Box::new(sub@)))
                && decreases_to!(params => sub),
            None => !(param(params_view(params), name@) matches Some(ParamValueModel::Schema(_))),
        },
{
    match lookup(params, name) {
        Some(ParamValue::Schema(sub)) => Some(sub),
        _ => None,
    }
}

/// The named descriptions under a name, where there are any.
fn get_named<'a>(params: &'a Vec<(String, ParamValue)>, name: &str) -> (r: Option<&'a Vec<(String, Schema)>>)
    ensures
        match r {
            Some(list) => param(params_view(params), name@) == Some(ParamValueModel::Named(named_view(list)))
                && decreases_to!(params => list),
            None => !(param(params_view(params), name@) matches Some(ParamValueModel::Named(_))),
        },
{
    match lookup(params, name) {
        Some(ParamValue::Named(list)) => {
            proof {
                ParamValue::lemma_model_named(*list);
            }
            Some(list)
        },
        _ => None,
    }
}

/// Compiles one description to a node.
pub fn compile_node(schema: &Schema) -> (r: Result<Validator, CompileError>)
    ensures
        match r {
            Ok(node) => node_for(schema@) == Ok::<NodeModel, CompileErrorModel>(node@),
            Err(e) => node_for(schema@) == Err::<NodeModel, CompileErrorModel>(e@),
        },
    decreases schema, 0nat,
{
    proof {
        schema.lemma_model();
    }
    let params = &schema.params;
    if is_text(&schema.kind, "null") {
        Ok(Validator::Null)
    } else if is_text(&schema.kind, "bool") {
        Ok(Validator::Bool)
    } else if is_text(&schema.kind, "bytes") {
        Ok(Validator::Bytes)
    } else if is_text(&schema.kind, "float") {
        Ok(Validator::Float)
    } else if is_text(&schema.kind, "int") {
        match get_int(params, "ge") {
            Err(_) => Err(bad_param(schema, "ge")),
            Ok(ge) => match get_int(params, "le") {
                Err(_) => Err(bad_param(schema, "le")),
                Ok(le) => Ok(Validator::Int { ge, le }),
            },
        }
    } else if is_text(&schema.kind, "str") {
        match get_len(params, "min_length") {
            Err(_) => Err(bad_param(schema, "min_length")),
            Ok(min_len) => match get_len(params, "max_length") {
                Err(_) => Err(bad_param(schema, "max_length")),
                Ok(max_len) => Ok(Validator::Str { min_len, max_len }),
            },
        }
    } else if is_text(&schema.kind, "list") {
        match get_schema(params, "items") {
            Some(sub) => match compile_node(sub) {
                Err(e) => Err(e),
                Ok(items) => Ok(Validator::List { items: Box::new(items) }),
            },
            None => Err(bad_param(schema, "items")),
        }
    } else if is_text(&schema.kind, "set") {
        match get_schema(params, "items") {
            Some(sub) => match compile_node(sub) {
                Err(e) => Err(e),
                Ok(items) => Ok(Validator::SetOf { items: Box::new(items) }),
            },
            None => Err(bad_param(schema, "items")),
        }
    } else if is_text(&schema.kind, "dict") {
        match get_schema(params, "values") {
            Some(sub) => match compile_node(sub) {
                Err(e) => Err(e),
                Ok(values) => Ok(Validator::Dict { values: Box::new(values) }),
            },
            None => Err(bad_param(schema, "values")),
        }
    } else if is_text(&schema.kind, "record") {
        match get_named(params, "fields") {
            Some(list) => match get_extra(params) {
                Err(_) => Err(bad_param(schema, "extra")),
                Ok(extra) => match compile_fields(list) {
                    Err(e) => Err(e),
                    Ok(fields) => {
                        proof {
                            Validator::lemma_model_record(fields, extra);
                        }
                        Ok(Validator::Record { fields, extra })
                    },
                },
            },
            None => Err(bad_param(schema, "fields")),
        }
    } else if is_text(&schema.kind, "literal") {
        match lookup(params, "expected") {
            Some(ParamValue::Consts(expected)) => {
                if expected.len() > 0 {
                    Ok(Validator::Literal { expected: LiteralSet::new(copy_literals(expected)) })
                } else {
                    Err(bad_param(schema, "expected"))
                }
            },
            _ => Err(bad_param(schema, "expected")),
        }
    } else if is_text(&schema.kind, "ref") {
        match lookup(params, "name") {
            Some(ParamValue::Text(name)) => Ok(Validator::Ref { name: name.clone() }),
            _ => Err(bad_param(schema, "name")),
        }
    } else if is_text(&schema.kind, "nullable") {
        match get_schema(params, "schema") {
            Some(sub) => match compile_node(sub) {
                Err(e) => Err(e),
                Ok(inner) => Ok(Validator::Nullable { inner: Box::new(inner) }),
            },
            None => Err(bad_param(schema, "schema")),
        }
    } else if is_text(&schema.kind, "default") {
        match lookup(params, "default") {
            Some(ParamValue::Const(default)) => match get_schema(params, "schema") {
                Some(sub) => match compile_node(sub) {
                    Err(e) => Err(e),
                    Ok(inner) => Ok(Validator::WithDefault { inner: Box::new(inner), default: default.clone() }),
                },
                None => Err(bad_param(schema, "schema")),
            },
            _ => Err(bad_param(schema, "default")),
        }
    } else if is_text(&schema.kind, "check") {
        match get_trigger(params) {
            Err(_) => Err(bad_param(schema, "when")),
            Ok(trigger) => match get_signal(params) {
                Err(p) => Err(CompileError::BadParameters { kind: schema.kind.clone(), param: p }),
                Ok(signal) => match get_schema(params, "schema") {
                    Some(sub) => match compile_node(sub) {
                        Err(e) => Err(e),
                        Ok(inner) => Ok(Validator::Check { inner: Box::new(inner), trigger, signal }),
                    },
                    None => Err(bad_param(schema, "schema")),
                },
            },
        }
    } else {
        Err(CompileError::UnknownKind { kind: schema.kind.clone() })
    }
}

/// Compiles the description of one field of a record.
pub fn compile_field(name: &String, schema: &Schema) -> (r: Result<Field, CompileError>)
    ensures
        match r {
            Ok(field) => field_for(name@, schema@) == Ok::<FieldModel, CompileErrorModel>(field@),
            Err(e) => field_for(name@, schema@) == Err::<FieldModel, CompileErrorModel>(e@),
        },
    decreases schema, 1nat,
{
    proof {
        schema.lemma_model();
    }
    let params = &schema.params;
    if is_text(&schema.kind, "field") {
        match get_flag(params, "required") {
            Err(_) => Err(bad_param(schema, "required")),
            Ok(required) => match get_schema(params, "schema") {
                Some(sub) => match compile_node(sub) {
                    Err(e) => Err(e),
                    Ok(node) => Ok(
                        Field {
                            name: name.clone(),
                            schema: node,
                            required: match required {
                                Some(r) => r,
                                None => true,
                            },
                        },
                    ),
                },
                None => Err(bad_param(schema, "schema")),
            },
        }
    } else {
        Err(CompileError::UnknownKind { kind: schema.kind.clone() })
    }
}

/// Compiles the descriptions of the fields of a record, in their order.
pub fn compile_fields(list: &Vec<(String, Schema)>) -> (r: Result<Vec<Field>, CompileError>)
    ensures
        match r {
            Ok(fields) => fields_for(named_view(list), list@.len()) == Ok::<Seq<FieldModel>, CompileErrorModel>(
                fields_view(&fields),
            ),
            Err(e) => fields_for(named_view(list), list@.len()) == Err::<Seq<FieldModel>, CompileErrorModel>(e@),
        },
    decreases list, 0nat,
{
    let ghost model = named_view(list);
    let mut fields: Vec<Field> = Vec::new();
    let mut i: usize = 0;
    assert(fields_view(&fields) =~= Seq::empty());
    while i < list.len()
        invariant
            i <= list.len(),
            model == named_view(list),
            fields_for(model, i as nat) == Ok::<Seq<FieldModel>, CompileErrorModel>(fields_view(&fields)),
        decreases list.len() - i,
    {
        let ghost before = fields_view(&fields);
        assert(model[i as int] == (list[i as int].0@, list[i as int].1@));
        match compile_field(&list[i].0, &list[i].1) {
            Err(e) => {
                proof {
                    lemma_compile_fields_err(model, (i + 1) as nat, list@.len() as nat);
                }
                return Err(e);
            },
            Ok(field) => {
                fields.push(field);
                assert(fields_view(&fields) =~= before.push(field@));
            },
        }
        i = i + 1;
    }
    Ok(fields)
}

/// Once a field does not compile, the error stays whatever follows.
pub proof fn lemma_compile_fields_err(list: Seq<(Seq<char>, SchemaModel)>, m: nat, n: nat)
    requires
        m <= n <= list.len(),
        fields_for(list, m) is Err,
    ensures
        fields_for(list, n) == fields_for(list, m),
    decreases n - m,
{
    if m < n {
        lemma_compile_fields_err(list, m, (n - 1) as nat);
    }
}

/// Once a definition does not compile, the error stays whatever follows.
pub proof fn lemma_compile_definitions_err(list: Seq<(Seq<char>, SchemaModel)>, m: nat, n: nat)
    requires
        m <= n <= list.len(),
        definitions_for(list, m) is Err,
    ensures
        definitions_for(list, n) == definitions_for(list, m),
    decreases n - m,
{
    if m < n {
        lemma_compile_definitions_err(list, m, (n - 1) as nat);
    }
}

/// Compiles the supplied definitions, then the description's own, into one registry.
fn compile_definitions(supplied: &Vec<(String, Schema)>, own: &Vec<(String, Schema)>) -> (r: Result<Vec<Definition>, CompileError>)
    ensures
        match r {
            Ok(defs) => definitions_for(named_view(supplied) + named_view(own), (supplied@.len() + own@.len()) as nat)
                == Ok::<Seq<DefinitionModel>, CompileErrorModel>(definitions_view(&defs)),
            Err(e) => definitions_for(named_view(supplied) + named_view(own), (supplied@.len() + own@.len()) as nat)
                == Err::<Seq<DefinitionModel>, CompileErrorModel>(e@),
        },
{
    let ghost all = named_view(supplied) + named_view(own);
    let mut defs: Vec<Definition> = Vec::new();
    assert(definitions_view(&defs) =~= Seq::empty());
    let mut i: usize = 0;
    while i < supplied.len()
        invariant
            i <= supplied.len(),
            all == named_view(supplied) + named_view(own),
            definitions_for(all, i as nat) == Ok::<Seq<DefinitionModel>, CompileErrorModel>(definitions_view(&defs)),
        decreases supplied.len() - i,
    {
        let ghost before = definitions_view(&defs);
        assert(all[i as int] == (supplied[i as int].0@, supplied[i as int].1@));
        match compile_node(&supplied[i].1) {
            Err(e) => {
                proof {
                    lemma_compile_definitions_err(all, (i + 1) as nat, all.len());
                }
                return Err(e);
            },
            Ok(body) => {
                let def = Definition { name: supplied[i].0.clone(), body };
                defs.push(def);
                assert(definitions_view(&defs) =~= before.push(def@));
            },
        }
        i = i + 1;
    }
    let mut j: usize = 0;
    while j < own.len()
        invariant
            j <= own.len(),
            all == named_view(supplied) + named_view(own),
            definitions_for(all, (supplied@.len() + j) as nat) == Ok::<Seq<DefinitionModel>, CompileErrorModel>(
                definitions_view(&defs),
            ),
        decreases own.len() - j,
    {
        let ghost before = definitions_view(&defs);
        assert(all[supplied@.len() + j] == (own[j as int].0@, own[j as int].1@));
        match compile_node(&own[j].1) {
            Err(e) => {
                proof {
                    lemma_compile_definitions_err(all, (supplied@.len() + j + 1) as nat, all.len());
                }
                return Err(e);
            },
            Ok(body) => {
                let def = Definition { name: own[j].0.clone(), body };
                defs.push(def);
                assert(definitions_view(&defs) =~= before.push(def@));
            },
        }
        j = j + 1;
    }
    Ok(defs)
}

/// The display name of a schema.
fn title(schema: &Schema) -> (t: String)
    ensures
        t@ == title_of(schema@),
{
    proof {
        schema.lemma_model();
    }
    match lookup(&schema.params, "title") {
        Some(ParamValue::Text(t)) => t.clone(),
        _ => schema.kind.clone(),
    }
}

/// The compiled definitions go by the names of their descriptions, in the
/// same order.
pub proof fn lemma_definitions_keep_names(list: Seq<(Seq<char>, SchemaModel)>, n: nat)
    requires
        n <= list.len(),
        definitions_for(list, n) is Ok,
    ensures
        definitions_for(list, n)->Ok_0.len() == n,
        crate::semantics::definition_names(definitions_for(list, n)->Ok_0) == names_of(list).subrange(0, n as int),
    decreases n,
{
    if n > 0 {
        lemma_definitions_keep_names(list, (n - 1) as nat);
        let before = definitions_for(list, (n - 1) as nat)->Ok_0;
        let now = definitions_for(list, n)->Ok_0;
        assert(now == before.push(now[n - 1]));
        assert(crate::semantics::definition_names(now) =~= names_of(list).subrange(0, n as int)) by {
            assert forall|i: int| 0 <= i < n implies crate::semantics::definition_names(now)[i] == names_of(list)[i] by {
                if i < n - 1 {
                    assert(now[i] == before[i]);
                    assert(crate::semantics::definition_names(before)[i] == names_of(list).subrange(0, n - 1)[i]);
                }
            }
        }
    } else {
        assert(crate::semantics::definition_names(definitions_for(list, n)->Ok_0) =~= names_of(list).subrange(0, 0));
    }
}

/// Whether no name stands for two definitions of a registry.
pub open spec fn names_distinct(defs: Seq<DefinitionModel>) -> bool {
    repeated(crate::semantics::definition_names(defs), defs.len()) is None
}

/// What compiles goes by distinct names: in the registry of a compiled
/// schema a name stands for one definition.
pub proof fn law_compiled_names_are_distinct(s: SchemaModel, definitions: Seq<(Seq<char>, SchemaModel)>)
    requires
        compiled(s, definitions) is Ok,
    ensures
        names_distinct(compiled(s, definitions)->Ok_0.defs),
{
    let (root, own) = split(s)->Ok_0;
    let all = definitions + own;
    lemma_definitions_keep_names(all, all.len());
    assert(names_of(all).subrange(0, all.len() as int) =~= names_of(all));
}

/// Once a name is found twice, that one stays the first.
pub proof fn lemma_repeated_stays(names: Seq<Seq<char>>, m: nat, n: nat)
    requires
        m <= n <= names.len(),
        repeated(names, m) is Some,
    ensures
        repeated(names, n) == repeated(names, m),
    decreases n - m,
{
    if m < n {
        lemma_repeated_stays(names, m, (n - 1) as nat);
    }
}

/// A name is found among the first `n` exactly where one of them is that name.
pub proof fn lemma_first_index_is_some(names: Seq<Seq<char>>, name: Seq<char>, n: nat)
    requires
        n <= names.len(),
    ensures
        first_index(names, name, n) is Some <==> exists|k: int| 0 <= k < n && names[k] == name,
    decreases n,
{
    if n > 0 {
        lemma_first_index_is_some(names, name, (n - 1) as nat);
        if first_index(names, name, n) is Some {
            if first_index(names, name, (n - 1) as nat) is Some {
                let k = choose|k: int| 0 <= k < n - 1 && names[k] == name;
                assert(0 <= k < n && names[k] == name);
            } else {
                assert(names[n - 1] == name);
            }
        }
        if exists|k: int| 0 <= k < n && names[k] == name {
            let k = choose|k: int| 0 <= k < n && names[k] == name;
            if k < n - 1 {
                assert(0 <= k < n - 1 && names[k] == name);
            }
        }
    }
}

/// Whether `name` is one of the first `given` of the supplied names, or of
/// the first `held` of the description's own.
fn named_before(supplied: &Vec<(String, Schema)>, own: &Vec<(String, Schema)>, name: &String, given: usize, held: usize) -> (r: bool)
    requires
        given <= supplied@.len(),
        held <= own@.len(),
        held > 0 ==> given == supplied@.len(),
    ensures
        r == (first_index(names_of(named_view(supplied) + named_view(own)), name@, (given + held) as nat) is Some),
{
    let ghost names = names_of(named_view(supplied) + named_view(own));
    let ghost want = first_index(names, name@, (given + held) as nat) is Some;
    proof {
        lemma_first_index_is_some(names, name@, (given + held) as nat);
    }
    let mut i: usize = 0;
    while i < given
        invariant
            i <= given <= supplied@.len(),
            held <= own@.len(),
            names == names_of(named_view(supplied) + named_view(own)),
            want == (first_index(names, name@, (given + held) as nat) is Some),
            want == (exists|k: int| 0 <= k < given + held && names[k] == name@),
            forall|k: int| 0 <= k < i ==> names[k] != name@,
        decreases given - i,
    {
        if supplied[i].0 == *name {
            assert(names[i as int] == name@);
            return true;
        }
        i = i + 1;
    }
    let mut j: usize = 0;
    while j < held
        invariant
            j <= held <= own@.len(),
            held > 0 ==> given == supplied@.len(),
            given <= supplied@.len(),
            names == names_of(named_view(supplied) + named_view(own)),
            want == (first_index(names, name@, (given + held) as nat) is Some),
            want == (exists|k: int| 0 <= k < given + held && names[k] == name@),
            forall|k: int| 0 <= k < given + j ==> names[k] != name@,
        decreases held - j,
    {
        if own[j].0 == *name {
            assert(names[given + j] == name@);
            return true;
        }
        assert(names[given + j] == own[j as int].0@);
        j = j + 1;
    }
    false
}

/// The first name that stands for two of the definitions.
fn find_repeated(supplied: &Vec<(String, Schema)>, own: &Vec<(String, Schema)>) -> (r: Option<String>)
    ensures
        opt_name_view(r) == repeated(
            names_of(named_view(supplied) + named_view(own)),
            (supplied@.len() + own@.len()) as nat,
        ),
{
    let ghost names = names_of(named_view(supplied) + named_view(own));
    let ghost n = (supplied@.len() + own@.len()) as nat;
    let mut j: usize = 0;
    while j < supplied.len()
        invariant
            j <= supplied@.len(),
            n == supplied@.len() + own@.len(),
            names == names_of(named_view(supplied) + named_view(own)),
            repeated(names, j as nat) is None,
        decreases supplied.len() - j,
    {
        assert(names[j as int] == supplied[j as int].0@);
        if named_before(supplied, own, &supplied[j].0, j, 0) {
            proof {
                assert(repeated(names, (j + 1) as nat) == Some(names[j as int]));
                lemma_repeated_stays(names, (j + 1) as nat, n);
            }
            return Some(supplied[j].0.clone());
        }
        assert(repeated(names, (j + 1) as nat) is None);
        j = j + 1;
    }
    let mut k: usize = 0;
    while k < own.len()
        invariant
            k <= own@.len(),
            n == supplied@.len() + own@.len(),
            names == names_of(named_view(supplied) + named_view(own)),
            repeated(names, (supplied@.len() + k) as nat) is None,
        decreases own.len() - k,
    {
        let ghost at = supplied@.len() + k;
        assert(names[at] == own[k as int].0@);
        if named_before(supplied, own, &own[k].0, supplied.len(), k) {
            proof {
                assert(repeated(names, (at + 1) as nat) == Some(names[at]));
                lemma_repeated_stays(names, (at + 1) as nat, n);
            }
            return Some(own[k].0.clone());
        }
        assert(repeated(names, (at + 1) as nat) is None);
        k = k + 1;
    }
    None
}

/// Compiles the registry and the root, and looks every reference up.
fn build(root: &Schema, supplied: &Vec<(String, Schema)>, own: &Vec<(String, Schema)>) -> (r: Result<SchemaValidator, CompileError>)
    ensures
        match r {
            Ok(v) => built(root@, named_view(supplied) + named_view(own)) == Ok::<GraphModel, CompileErrorModel>(v@),
            Err(e) => built(root@, named_view(supplied) + named_view(own)) == Err::<GraphModel, CompileErrorModel>(e@),
        },
{
    match find_repeated(supplied, own) {
        Some(name) => {
            return Err(CompileError::BadParameters { kind: String::from_str("definitions"), param: name });
        },
        None => {},
    }
    let defs = match compile_definitions(supplied, own) {
        Err(e) => {
            return Err(e);
        },
        Ok(defs) => defs,
    };
    let node = match compile_node(root) {
        Err(e) => {
            return Err(e);
        },
        Ok(node) => node,
    };
    match find_unresolved_in_definitions(&defs) {
        Some(name) => {
            return Err(CompileError::UnresolvedReference { name });
        },
        None => {},
    }
    match find_unresolved(&node, &defs) {
        Some(name) => {
            return Err(CompileError::UnresolvedReference { name });
        },
        None => {},
    }
    Ok(SchemaValidator::sealed(node, defs, title(root), DEFAULT_MAX_DEPTH))
}

/// Compiles a schema description, with the definitions supplied beside it,
/// into a schema that values can be held against, or says why it cannot.
pub fn compile(schema: &Schema, definitions: &Vec<(String, Schema)>) -> (r: Result<SchemaValidator, CompileError>)
    ensures
        match r {
            Ok(v) => compiled(schema@, named_view(definitions)) == Ok::<GraphModel, CompileErrorModel>(v@) && closed(v@)
                && names_distinct(v@.defs),
            Err(e) => compiled(schema@, named_view(definitions)) == Err::<GraphModel, CompileErrorModel>(e@),
        },
{
    proof {
        schema.lemma_model();
        if compiled(schema@, named_view(definitions)) is Ok {
            law_compiled_names_are_distinct(schema@, named_view(definitions));
        }
    }
    if is_text(&schema.kind, "definitions") {
        match get_named(&schema.params, "definitions") {
            Some(own) => match get_schema(&schema.params, "schema") {
                Some(root) => build(root, definitions, own),
                None => Err(bad_param(schema, "schema")),
            },
            None => Err(bad_param(schema, "definitions")),
        }
    } else {
        let own: Vec<(String, Schema)> = Vec::new();
        assert(named_view(&own) =~= Seq::empty());
        assert(named_view(definitions) + named_view(&own) =~= named_view(definitions));
        build(schema, definitions, &own)
    }
}

} // verus!
