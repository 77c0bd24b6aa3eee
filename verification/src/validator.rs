//! The nodes of a compiled schema, and the compiled schema as a whole.

use crate::errors::ErrorKind;
use crate::literal_set::LiteralSet;
use crate::references::{closed, find_unresolved, find_unresolved_in_definitions};
use crate::value::{literals_view, Literal, LiteralModel};
use vstd::prelude::*;

verus! {

/// What a record does with the keys of its input that it does not declare.
#[derive(Clone, Copy, Debug, PartialEq, Eq, Structural)]
pub enum ExtraPolicy {
    /// Each such key is a violation.
    Reject,
    /// They are dropped without a word.
    Ignore,
    /// They are handed through to the output as they are.
    Keep,
}

/// What a check raises in place of a value or of the engine's own failure.
#[derive(Debug, PartialEq, Eq)]
pub enum Signal {
    /// Leave the item or field out of the output, with no violation.
    Omit,
    /// Put the declared default in place of the value, with no violation.
    UseDefault,
    /// One violation of a kind that the application names, in its wording.
    Custom { name: String, message: String },
    /// One violation of a kind of the engine's own list.
    Known { kind: ErrorKind },
}

/// A signal as contracts see it.
pub enum SignalModel {
    Omit,
    UseDefault,
    Custom { name: Seq<char>, message: Seq<char> },
    Known { kind: ErrorKind },
}

impl View for Signal {
    type V = SignalModel;

    open spec fn view(&self) -> SignalModel {
        match self {
            Signal::Omit => SignalModel::Omit,
            Signal::UseDefault => SignalModel::UseDefault,
            Signal::Custom { name, message } => SignalModel::Custom { name: name@, message: message@ },
            Signal::Known { kind } => SignalModel::Known { kind: *kind },
        }
    }
}

/// When a check raises its signal.
#[derive(Debug, PartialEq, Eq)]
pub enum Trigger {
    /// Whenever the schema under it fails.
    Failure,
    /// Whenever the schema under it produces one of these constants.
    Values(Vec<Literal>),
}

/// A trigger as contracts see it.
pub enum TriggerModel {
    Failure,
    Values(Seq<LiteralModel>),
}

impl View for Trigger {
    type V = TriggerModel;

    open spec fn view(&self) -> TriggerModel {
        match self {
            Trigger::Failure => TriggerModel::Failure,
            Trigger::Values(v) => TriggerModel::Values(literals_view(v)),
        }
    }
}

/// One declared field of a record.
#[derive(Debug, PartialEq, Eq)]
pub struct Field {
    /// The key under which the input holds the field.
    pub name: String,
    /// What the field's value is held against.
    pub schema: Validator,
    /// Whether the input must hold the field, where the schema declares no default.
    pub required: bool,
}

/// One node of a compiled schema. A node owns the nodes under it; only a
/// reference names its target, which the registry of definitions holds.
#[derive(Debug, PartialEq, Eq)]
pub enum Validator {
    /// Null and nothing else.
    Null,
    /// A boolean.
    Bool,
    /// An integer, at least `ge` and at most `le` where these are given.
    Int { ge: Option<i64>, le: Option<i64> },
    /// A number, whole or not.
    Float,
    /// A text of at least `min_len` and at most `max_len` characters, where given.
    Str { min_len: Option<usize>, max_len: Option<usize> },
    /// A byte string.
    Bytes,
    /// A sequence whose members each meet `items`.
    List { items: Box<Validator> },
    /// A set whose members each meet `items`.
    SetOf { items: Box<Validator> },
    /// A mapping whose values each meet `values`.
    Dict { values: Box<Validator> },
    /// A mapping with declared fields.
    Record { fields: Vec<Field>, extra: ExtraPolicy },
    /// One of a finite list of constants.
    Literal { expected: LiteralSet },
    /// Whatever the definition of this name asks for.
    Ref { name: String },
    /// Null, or what `inner` asks for.
    Nullable { inner: Box<Validator> },
    /// What `inner` asks for, with a default for where the value is absent or
    /// a check asks for it.
    WithDefault { inner: Box<Validator>, default: Literal },
    /// What `inner` asks for, then a check of the outcome that may raise a signal.
    Check { inner: Box<Validator>, trigger: Trigger, signal: Signal },
}

/// A declared field as contracts see it.
pub struct FieldModel {
    pub name: Seq<char>,
    pub schema: NodeModel,
    pub required: bool,
}

/// A node of a compiled schema as contracts see it.
pub enum NodeModel {
    Null,
    Bool,
    Int { ge: Option<i64>, le: Option<i64> },
    Float,
    Str { min_len: Option<usize>, max_len: Option<usize> },
    Bytes,
    List { items: Box<NodeModel> },
    SetOf { items: Box<NodeModel> },
    Dict { values: Box<NodeModel> },
    Record { fields: Seq<FieldModel>, extra: ExtraPolicy },
    Literal { expected: Seq<LiteralModel> },
    Ref { name: Seq<char> },
    Nullable { inner: Box<NodeModel> },
    WithDefault { inner: Box<NodeModel>, default: LiteralModel },
    Check { inner: Box<NodeModel>, trigger: TriggerModel, signal: SignalModel },
}

/// The models of a list of declared fields.
pub open spec fn fields_view(fields: &Vec<Field>) -> Seq<FieldModel> {
    Seq::new(fields.len() as nat, |i: int| fields[i].model())
}

impl Field {
    /// The field by its model.
    pub open spec fn model(&self) -> FieldModel
        decreases self,
    {
        FieldModel { name: self.name@, schema: self.schema.model(), required: self.required }
    }
}

impl View for Field {
    type V = FieldModel;

    open spec fn view(&self) -> FieldModel {
        self.model()
    }
}

impl Validator {
    /// The node by its model.
    pub open spec fn model(&self) -> NodeModel
        decreases self,
    {
        match self {
            Validator::Null => NodeModel::Null,
            Validator::Bool => NodeModel::Bool,
            Validator::Int { ge, le } => NodeModel::Int { ge: *ge, le: *le },
            Validator::Float => NodeModel::Float,
            Validator::Str { min_len, max_len } => NodeModel::Str { min_len: *min_len, max_len: *max_len },
            Validator::Bytes => NodeModel::Bytes,
            Validator::List { items } => NodeModel::List { items: Box::new(items.model()) },
            Validator::SetOf { items } => NodeModel::SetOf { items: Box::new(items.model()) },
            Validator::Dict { values } => NodeModel::Dict { values: Box::new(values.model()) },
            Validator::Record { fields, extra } => NodeModel::Record {
                fields: Seq::new(
                    fields.len() as nat,
                    |i: int|
                        if 0 <= i < fields.len() {
                            fields[i].model()
                        } else {
                            FieldModel { name: Seq::empty(), schema: NodeModel::Null, required: false }
                        },
                ),
                extra: *extra,
            },
            Validator::Literal { expected } => NodeModel::Literal { expected: expected@ },
            Validator::Ref { name } => NodeModel::Ref { name: name@ },
            Validator::Nullable { inner } => NodeModel::Nullable { inner: Box::new(inner.model()) },
            Validator::WithDefault { inner, default } => NodeModel::WithDefault {
                inner: Box::new(inner.model()),
                default: default@,
            },
            Validator::Check { inner, trigger, signal } => NodeModel::Check {
                inner: Box::new(inner.model()),
                trigger: trigger@,
                signal: signal@,
            },
        }
    }

    /// The model of a record is made of the models of its fields.
    pub proof fn lemma_model_record(fields: Vec<Field>, extra: ExtraPolicy)
        ensures
            (Validator::Record { fields, extra }).model() == (NodeModel::Record { fields: fields_view(&fields), extra }),
    {
        assert((Validator::Record { fields, extra }).model()->Record_fields =~= fields_view(&fields));
    }
}

impl View for Validator {
    type V = NodeModel;

    open spec fn view(&self) -> NodeModel {
        self.model()
    }
}

/// One entry of the registry of definitions: a schema under a name.
#[derive(Debug, PartialEq, Eq)]
pub struct Definition {
    pub name: String,
    pub body: Validator,
}

/// A definition as contracts see it.
pub struct DefinitionModel {
    pub name: Seq<char>,
    pub body: NodeModel,
}

impl View for Definition {
    type V = DefinitionModel;

    open spec fn view(&self) -> DefinitionModel {
        DefinitionModel { name: self.name@, body: self.body@ }
    }
}

/// The models of a registry of definitions.
pub open spec fn definitions_view(defs: &Vec<Definition>) -> Seq<DefinitionModel> {
    Seq::new(defs.len() as nat, |i: int| defs[i]@)
}

/// Whether only the exact kind of value will do, or what stands for it as well.
#[derive(Clone, Copy, Debug, PartialEq, Eq, Structural)]
pub enum Mode {
    /// Only a value of the kind that the schema names.
    Strict,
    /// Also the values that the table of each kind lets stand for it.
    Lax,
}

/// A compiled schema: the node at its root, the registry of the definitions
/// that its references name, its display name, and how many references may be
/// inside one another. Nothing of it changes once it is made, so that any
/// number of validations can read it at once.
#[derive(Debug, PartialEq, Eq)]
pub struct SchemaValidator {
    root: Validator,
    definitions: Vec<Definition>,
    title: String,
    max_depth: usize,
}

/// A compiled schema as contracts see it.
pub struct GraphModel {
    pub root: NodeModel,
    pub defs: Seq<DefinitionModel>,
    pub title: Seq<char>,
    pub max_depth: usize,
}

impl View for SchemaValidator {
    type V = GraphModel;

    closed spec fn view(&self) -> GraphModel {
        GraphModel {
            root: self.root@,
            defs: definitions_view(&self.definitions),
            title: self.title@,
            max_depth: self.max_depth,
        }
    }
}

impl SchemaValidator {
    #[verifier::type_invariant]
    spec fn every_reference_resolves(&self) -> bool {
        closed(self@)
    }

    /// Puts a compiled schema together from its parts, if every reference in
    /// them names a definition among them. Where a name stands for several
    /// definitions, a reference to it is one to the first of them.
    pub fn assemble(root: Validator, definitions: Vec<Definition>, title: String, max_depth: usize) -> (v: Option<
        SchemaValidator,
    >)
        ensures
            v is Some <==> closed(
                GraphModel { root: root@, defs: definitions_view(&definitions), title: title@, max_depth },
            ),
            v matches Some(made) ==> made@ == (GraphModel {
                root: root@,
                defs: definitions_view(&definitions),
                title: title@,
                max_depth,
            }),
    {
        match find_unresolved_in_definitions(&definitions) {
            Some(_) => {
                return None;
            },
            None => {},
        }
        match find_unresolved(&root, &definitions) {
            Some(_) => {
                return None;
            },
            None => {},
        }
        Some(SchemaValidator { root, definitions, title, max_depth })
    }

    /// Puts a compiled schema together from parts of which the caller has
    /// shown that every reference in them names a definition among them.
    pub(crate) fn sealed(root: Validator, definitions: Vec<Definition>, title: String, max_depth: usize) -> (made: SchemaValidator)
        requires
            closed(GraphModel { root: root@, defs: definitions_view(&definitions), title: title@, max_depth }),
        ensures
            made@ == (GraphModel { root: root@, defs: definitions_view(&definitions), title: title@, max_depth }),
    {
        SchemaValidator { root, definitions, title, max_depth }
    }

    /// The node at the root.
    pub fn root(&self) -> (node: &Validator)
        ensures
            node@ == self@.root,
            closed(self@),
    {
        proof {
            use_type_invariant(self);
        }
        &self.root
    }

    /// The registry of definitions.
    pub fn definitions(&self) -> (defs: &Vec<Definition>)
        ensures
            definitions_view(defs) == self@.defs,
            closed(self@),
    {
        proof {
            use_type_invariant(self);
        }
        &self.definitions
    }

    /// The display name.
    pub fn title(&self) -> (title: &String)
        ensures
            title@ == self@.title,
    {
        &self.title
    }

    /// How many references may be inside one another.
    pub fn max_depth(&self) -> (n: usize)
        ensures
            n == self@.max_depth,
    {
        self.max_depth
    }

    /// The same schema with another bound on how many references may be
    /// inside one another.
    pub fn with_max_depth(self, max_depth: usize) -> (v: SchemaValidator)
        ensures
            v@ == (GraphModel { max_depth, ..self@ }),
    {
        proof {
            use_type_invariant(&self);
        }
        SchemaValidator { root: self.root, definitions: self.definitions, title: self.title, max_depth }
    }
}

} // verus!
