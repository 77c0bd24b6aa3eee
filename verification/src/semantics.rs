//! What validation means: the outcome of holding a value against a node, over the models of the data.

use crate::errors::violation::{plain, with_context};
use crate::errors::{ErrorContextModel, ErrorKind, LocItemModel, ReportModel, ViolationModel};
use crate::json::lexical::is_number_text;
use crate::numeral::{numeral_read, Numeral};
use crate::output::{literal_output, OutputModel};
use crate::validator::{DefinitionModel, ExtraPolicy, FieldModel, NodeModel, SignalModel, TriggerModel};
use crate::value::{LiteralModel, ValueModel};
use vstd::prelude::*;
use vstd::utf8::encode_utf8;

verus! {

/// What stays the same all through one validation: the registry of
/// definitions, the store of host values, the mode, and the bound on how
/// deeply definitions may be nested.
pub struct Env {
    pub defs: Seq<DefinitionModel>,
    pub heap: Seq<ValueModel>,
    pub strict: bool,
    pub max_depth: usize,
}

/// The references that are being expanded: for each, the definition's place
/// in the registry and the place of the value it is held against.
pub type Guard = Seq<(usize, usize)>;

/// What holding one value against one node gives.
pub enum OutcomeModel {
    /// The value that was produced.
    Value(OutputModel),
    /// The violations, in the order of discovery; there is at least one.
    Errors(Seq<ViolationModel>),
    /// A check asked to leave the value out.
    Omit,
    /// A check asked for the declared default.
    UseDefault,
}

/// One violation, as an outcome.
pub open spec fn fail(v: ViolationModel) -> OutcomeModel {
    OutcomeModel::Errors(seq![v])
}

/// The violations of an outcome; none unless it is a failure.
pub open spec fn errors_of(o: OutcomeModel) -> Seq<ViolationModel> {
    match o {
        OutcomeModel::Errors(e) => e,
        _ => Seq::empty(),
    }
}

/// The place of the first of the first `n` names that is `name`.
pub open spec fn first_index(names: Seq<Seq<char>>, name: Seq<char>, n: nat) -> Option<usize>
    decreases n,
{
    if n == 0 || n > names.len() {
        None
    } else {
        match first_index(names, name, (n - 1) as nat) {
            Some(i) => Some(i),
            None => if names[n - 1] == name {
                Some((n - 1) as usize)
            } else {
                None
            },
        }
    }
}

/// The names of the definitions of a registry, in their order.
pub open spec fn definition_names(defs: Seq<DefinitionModel>) -> Seq<Seq<char>> {
    Seq::new(defs.len(), |i: int| defs[i].name)
}

/// The keys of the entries of a mapping, in their order.
pub open spec fn entry_keys(entries: Seq<(Seq<char>, usize)>) -> Seq<Seq<char>> {
    Seq::new(entries.len(), |i: int| entries[i].0)
}

/// The names of the declared fields of a record, in their order.
pub open spec fn field_names(fields: Seq<FieldModel>) -> Seq<Seq<char>> {
    Seq::new(fields.len(), |i: int| fields[i].name)
}

/// The place in the registry of the definition that a name refers to: the
/// first of that name.
pub open spec fn resolve(defs: Seq<DefinitionModel>, name: Seq<char>) -> Option<usize> {
    first_index(definition_names(defs), name, defs.len())
}

/// The place among the entries of the one that a record reads for a key: the
/// first under that key.
pub open spec fn find_entry(entries: Seq<(Seq<char>, usize)>, key: Seq<char>) -> Option<usize> {
    first_index(entry_keys(entries), key, entries.len())
}

/// Whether a record declares a field of this name.
pub open spec fn declared(fields: Seq<FieldModel>, key: Seq<char>) -> bool {
    first_index(field_names(fields), key, fields.len()) is Some
}

/// Null: only null will do, in either mode.
pub open spec fn null_outcome(v: ValueModel, loc: Seq<LocItemModel>, id: usize) -> OutcomeModel {
    match v {
        ValueModel::Null => OutcomeModel::Value(OutputModel::Null),
        _ => fail(plain(ErrorKind::NoneRequired, loc, id)),
    }
}

/// A boolean. Strictly, only a boolean will do. Laxly, the integers 0 and 1
/// and the texts "false" and "true" stand for one as well.
pub open spec fn bool_outcome(strict: bool, v: ValueModel, loc: Seq<LocItemModel>, id: usize) -> OutcomeModel {
    match v {
        ValueModel::Bool(b) => OutcomeModel::Value(OutputModel::Bool(b)),
        ValueModel::Int(i) => if strict {
            fail(plain(ErrorKind::BoolType, loc, id))
        } else if i == 0 {
            OutcomeModel::Value(OutputModel::Bool(false))
        } else if i == 1 {
            OutcomeModel::Value(OutputModel::Bool(true))
        } else {
            fail(plain(ErrorKind::BoolParsing, loc, id))
        },
        ValueModel::Str(s) => if strict {
            fail(plain(ErrorKind::BoolType, loc, id))
        } else if s == "false"@ {
            OutcomeModel::Value(OutputModel::Bool(false))
        } else if s == "true"@ {
            OutcomeModel::Value(OutputModel::Bool(true))
        } else {
            fail(plain(ErrorKind::BoolParsing, loc, id))
        },
        _ => fail(plain(ErrorKind::BoolType, loc, id)),
    }
}

/// The integer that a value is or stands for, or the kind of violation.
/// Strictly, only an integer will do. Laxly, a boolean stands for 0 or 1, and
/// a text that is a decimal numeral for the integer it writes. A number that
/// is not held as an integer is one too large if its numeral writes an
/// integer, and no integer at all otherwise.
pub open spec fn int_read(strict: bool, v: ValueModel) -> Result<i64, ErrorKind> {
    match v {
        ValueModel::Int(i) => Ok(i),
        ValueModel::Bool(b) => if strict {
            Err(ErrorKind::IntType)
        } else {
            Ok(if b { 1i64 } else { 0i64 })
        },
        ValueModel::Str(s) => if strict {
            Err(ErrorKind::IntType)
        } else {
            match numeral_read(encode_utf8(s)) {
                Numeral::Malformed => Err(ErrorKind::IntParsing),
                Numeral::OutOfRange => Err(ErrorKind::IntOverflow),
                Numeral::Number(i) => Ok(i),
            }
        },
        ValueModel::Real(t) => match numeral_read(encode_utf8(t)) {
            Numeral::Malformed => Err(ErrorKind::IntType),
            _ => Err(ErrorKind::IntOverflow),
        },
        _ => Err(ErrorKind::IntType),
    }
}

/// An integer within its bounds.
pub open spec fn int_outcome(
    strict: bool,
    ge: Option<i64>,
    le: Option<i64>,
    v: ValueModel,
    loc: Seq<LocItemModel>,
    id: usize,
) -> OutcomeModel {
    match int_read(strict, v) {
        Err(kind) => fail(plain(kind, loc, id)),
        Ok(i) => if ge is Some && i < ge->0 {
            fail(with_context(ErrorKind::GreaterThanEqual, loc, id, ErrorContextModel::Bound(ge->0)))
        } else if le is Some && i > le->0 {
            fail(with_context(ErrorKind::LessThanEqual, loc, id, ErrorContextModel::Bound(le->0)))
        } else {
            OutcomeModel::Value(OutputModel::Int(i))
        },
    }
}

/// A number. An integer is one as it is, in either mode. A number that is
/// not held as an integer is one where its numeral writes a number: a minus
/// sign or none, digits without a leading zero, a fraction or none, an
/// exponent or none. Laxly, a text that writes a number stands for it. The
/// engine computes with integers only, so a number that is no integer is
/// produced as its numeral.
pub open spec fn float_outcome(strict: bool, v: ValueModel, loc: Seq<LocItemModel>, id: usize) -> OutcomeModel {
    match v {
        ValueModel::Int(i) => OutcomeModel::Value(OutputModel::Int(i)),
        ValueModel::Real(t) => if is_number_text(encode_utf8(t)) {
            OutcomeModel::Value(OutputModel::Real(t))
        } else {
            fail(plain(ErrorKind::FloatParsing, loc, id))
        },
        ValueModel::Str(s) => if strict {
            fail(plain(ErrorKind::FloatType, loc, id))
        } else if is_number_text(encode_utf8(s)) {
            OutcomeModel::Value(OutputModel::Real(s))
        } else {
            fail(plain(ErrorKind::FloatParsing, loc, id))
        },
        _ => fail(plain(ErrorKind::FloatType, loc, id)),
    }
}

/// A text within its lengths, counted in characters. Only a text will do, in
/// either mode.
pub open spec fn str_outcome(
    min_len: Option<usize>,
    max_len: Option<usize>,
    v: ValueModel,
    loc: Seq<LocItemModel>,
    id: usize,
) -> OutcomeModel {
    match v {
        ValueModel::Str(s) => if min_len is Some && s.len() < min_len->0 {
            fail(with_context(ErrorKind::StringTooShort, loc, id, ErrorContextModel::Length(min_len->0)))
        } else if max_len is Some && s.len() > max_len->0 {
            fail(with_context(ErrorKind::StringTooLong, loc, id, ErrorContextModel::Length(max_len->0)))
        } else {
            OutcomeModel::Value(OutputModel::Str(s))
        },
        _ => fail(plain(ErrorKind::StringType, loc, id)),
    }
}

/// A byte string. Strictly, only a byte string will do. Laxly, a text stands
/// for its bytes in UTF-8.
pub open spec fn bytes_outcome(strict: bool, v: ValueModel, loc: Seq<LocItemModel>, id: usize) -> OutcomeModel {
    match v {
        ValueModel::Bytes(b) => OutcomeModel::Value(OutputModel::Bytes(b)),
        ValueModel::Str(s) => if strict {
            fail(plain(ErrorKind::BytesType, loc, id))
        } else {
            OutcomeModel::Value(OutputModel::Bytes(encode_utf8(s)))
        },
        _ => fail(plain(ErrorKind::BytesType, loc, id)),
    }
}

/// Whether a value is the constant: of the same kind, and equal.
pub open spec fn literal_matches(literal: LiteralModel, v: ValueModel) -> bool {
    match (literal, v) {
        (LiteralModel::Null, ValueModel::Null) => true,
        (LiteralModel::Bool(a), ValueModel::Bool(b)) => a == b,
        (LiteralModel::Int(a), ValueModel::Int(b)) => a == b,
        (LiteralModel::Str(a), ValueModel::Str(b)) => a == b,
        (LiteralModel::Bytes(a), ValueModel::Bytes(b)) => a == b,
        _ => false,
    }
}

/// Whether a value is one of the constants.
pub open spec fn literal_found(expected: Seq<LiteralModel>, v: ValueModel) -> bool {
    exists|i: int| 0 <= i < expected.len() && literal_matches(#[trigger] expected[i], v)
}

/// The produced value that a scalar of the host is, unchanged.
pub open spec fn scalar_output(v: ValueModel, id: usize) -> OutputModel {
    match v {
        ValueModel::Null => OutputModel::Null,
        ValueModel::Bool(b) => OutputModel::Bool(b),
        ValueModel::Int(i) => OutputModel::Int(i),
        ValueModel::Str(s) => OutputModel::Str(s),
        ValueModel::Bytes(b) => OutputModel::Bytes(b),
        _ => OutputModel::Kept(id),
    }
}

/// One of a list of constants: the value as it is if it is one of them, in
/// either mode; else one violation that carries the whole list.
pub open spec fn literal_outcome(expected: Seq<LiteralModel>, v: ValueModel, loc: Seq<LocItemModel>, id: usize) -> OutcomeModel {
    if literal_found(expected, v) {
        OutcomeModel::Value(scalar_output(v, id))
    } else {
        fail(with_context(ErrorKind::LiteralError, loc, id, ErrorContextModel::Expected(expected)))
    }
}

/// The members that a sequence is held against: those of a sequence, and
/// laxly those of a set as well.
pub open spec fn list_members(strict: bool, v: ValueModel) -> Option<Seq<usize>> {
    match v {
        ValueModel::List(m) => Some(m),
        ValueModel::SetOf(m) => if strict { None } else { Some(m) },
        _ => None,
    }
}

/// The members that a set is held against: those of a set, and laxly those of
/// a sequence as well.
pub open spec fn set_members(strict: bool, v: ValueModel) -> Option<Seq<usize>> {
    match v {
        ValueModel::SetOf(m) => Some(m),
        ValueModel::List(m) => if strict { None } else { Some(m) },
        _ => None,
    }
}

/// The first `n` of `items` without those that an earlier one equals.
pub open spec fn distinct(items: Seq<OutputModel>, n: nat) -> Seq<OutputModel>
    decreases n,
{
    if n == 0 || n > items.len() {
        Seq::empty()
    } else {
        let before = distinct(items, (n - 1) as nat);
        if before.contains(items[n - 1]) {
            before
        } else {
            before.push(items[n - 1])
        }
    }
}

/// The default that a schema declares, if it is one that declares any.
pub open spec fn default_of(node: NodeModel) -> Option<LiteralModel> {
    match node {
        NodeModel::WithDefault { default, .. } => Some(default),
        _ => None,
    }
}

/// Whether one of the constants is the produced value.
pub open spec fn output_among(values: Seq<LiteralModel>, out: OutputModel) -> bool {
    exists|i: int| 0 <= i < values.len() && literal_output(#[trigger] values[i]) == out
}

/// Whether a check raises its signal on the outcome of the schema under it.
pub open spec fn fires(trigger: TriggerModel, o: OutcomeModel) -> bool {
    match trigger {
        TriggerModel::Failure => o is Errors,
        TriggerModel::Values(values) => o is Value && output_among(values, o->Value_0),
    }
}

/// What a check's signal makes of the value at `loc`.
pub open spec fn raised(signal: SignalModel, loc: Seq<LocItemModel>, id: usize) -> OutcomeModel {
    match signal {
        SignalModel::Omit => OutcomeModel::Omit,
        SignalModel::UseDefault => OutcomeModel::UseDefault,
        SignalModel::Custom { name, message } => fail(
            ViolationModel {
                kind: ErrorKind::Custom,
                loc,
                input: id,
                context: Some(ErrorContextModel::Name(name)),
                message: Some(message),
            },
        ),
        SignalModel::Known { kind } => fail(plain(kind, loc, id)),
    }
}

/// What a record makes of a declared field that its input does not hold, or
/// for which a check asked for the default: the default where the field's
/// schema declares one; else a violation where the field is required; else
/// the field is left out.
pub open spec fn absent_outcome(field: FieldModel, loc: Seq<LocItemModel>, id: usize) -> OutcomeModel {
    match default_of(field.schema) {
        Some(d) => OutcomeModel::Value(literal_output(d)),
        None => if field.required {
            fail(plain(ErrorKind::Missing, loc.push(LocItemModel::Field(field.name)), id))
        } else {
            OutcomeModel::Omit
        },
    }
}

/// The violations for the first `n` entries of a record's input, for the keys
/// that the record does not declare: one each where the record rejects them.
pub open spec fn extra_errors(
    fields: Seq<FieldModel>,
    entries: Seq<(Seq<char>, usize)>,
    extra: ExtraPolicy,
    n: nat,
    loc: Seq<LocItemModel>,
) -> Seq<ViolationModel>
    decreases n,
{
    if n == 0 || n > entries.len() {
        Seq::empty()
    } else {
        let before = extra_errors(fields, entries, extra, (n - 1) as nat, loc);
        let entry = entries[n - 1];
        if extra == ExtraPolicy::Reject && !declared(fields, entry.0) {
            before.push(plain(ErrorKind::ExtraForbidden, loc.push(LocItemModel::Key(entry.0)), entry.1))
        } else {
            before
        }
    }
}

/// The entries that the first `n` entries of a record's input add to its
/// output, for the keys that the record does not declare: each as it is where
/// the record keeps them.
pub open spec fn extra_values(
    fields: Seq<FieldModel>,
    entries: Seq<(Seq<char>, usize)>,
    extra: ExtraPolicy,
    n: nat,
) -> Seq<(Seq<char>, OutputModel)>
    decreases n,
{
    if n == 0 || n > entries.len() {
        Seq::empty()
    } else {
        let before = extra_values(fields, entries, extra, (n - 1) as nat);
        let entry = entries[n - 1];
        if extra == ExtraPolicy::Keep && !declared(fields, entry.0) {
            before.push((entry.0, OutputModel::Kept(entry.1)))
        } else {
            before
        }
    }
}

/// What holding the value at `id` against `node` gives, at the location `loc`
/// and with the references of `guard` being expanded.
///
/// A scalar is held against the table of its kind. A sequence, a set, a
/// mapping and a record hold every member against the schema for it and
/// report all the violations of all the members, in their order. A check
/// may raise a signal in place of a value; a default above it turns the
/// signal that asks for the default into its default, and hands the signal
/// to leave the value out on. The sequence, set, mapping or record directly
/// above acts on a signal: the member is left out, and in a record a field
/// for which the default was asked is treated as absent. No signal goes
/// further up than that.
///
/// A schema that may be null takes null as it is, and holds any other value
/// against the schema under it.
///
/// A reference is expanded to the definition that it names, unless it is
/// already being expanded on this very value, or as many references are
/// being expanded as the bound allows: then it fails with the violation of a
/// recursion loop. A reference that names no definition fails in the same
/// way; a compiled schema holds none such.
pub open spec fn validate(env: Env, node: NodeModel, id: usize, loc: Seq<LocItemModel>, guard: Guard) -> OutcomeModel
    decreases env.max_depth - guard.len(), node, 0nat,
{
    let v = env.heap[id as int];
    match node {
        NodeModel::Null => null_outcome(v, loc, id),
        NodeModel::Bool => bool_outcome(env.strict, v, loc, id),
        NodeModel::Int { ge, le } => int_outcome(env.strict, ge, le, v, loc, id),
        NodeModel::Float => float_outcome(env.strict, v, loc, id),
        NodeModel::Str { min_len, max_len } => str_outcome(min_len, max_len, v, loc, id),
        NodeModel::Bytes => bytes_outcome(env.strict, v, loc, id),
        NodeModel::Literal { expected } => literal_outcome(expected, v, loc, id),
        NodeModel::List { items } => match list_members(env.strict, v) {
            None => fail(plain(ErrorKind::ListType, loc, id)),
            Some(members) => {
                let errors = items_errors(env, *items, members, members.len(), loc, guard);
                if errors.len() > 0 {
                    OutcomeModel::Errors(errors)
                } else {
                    OutcomeModel::Value(OutputModel::List(items_values(env, *items, members, members.len(), loc, guard)))
                }
            },
        },
        NodeModel::SetOf { items } => match set_members(env.strict, v) {
            None => fail(plain(ErrorKind::SetType, loc, id)),
            Some(members) => {
                let errors = items_errors(env, *items, members, members.len(), loc, guard);
                if errors.len() > 0 {
                    OutcomeModel::Errors(errors)
                } else {
                    let values = items_values(env, *items, members, members.len(), loc, guard);
                    OutcomeModel::Value(OutputModel::SetOf(distinct(values, values.len())))
                }
            },
        },
        NodeModel::Dict { values } => match v {
            ValueModel::Dict(entries) => {
                let errors = entries_errors(env, *values, entries, entries.len(), loc, guard);
                if errors.len() > 0 {
                    OutcomeModel::Errors(errors)
                } else {
                    OutcomeModel::Value(OutputModel::Dict(entries_values(env, *values, entries, entries.len(), loc, guard)))
                }
            },
            _ => fail(plain(ErrorKind::DictType, loc, id)),
        },
        NodeModel::Record { fields, extra } => match v {
            ValueModel::Dict(entries) => {
                let errors = fields_errors(env, fields, entries, id, fields.len(), loc, guard) + extra_errors(
                    fields,
                    entries,
                    extra,
                    entries.len(),
                    loc,
                );
                if errors.len() > 0 {
                    OutcomeModel::Errors(errors)
                } else {
                    OutcomeModel::Value(
                        OutputModel::Dict(
                            fields_values(env, fields, entries, id, fields.len(), loc, guard) + extra_values(
                                fields,
                                entries,
                                extra,
                                entries.len(),
                            ),
                        ),
                    )
                }
            },
            _ => fail(plain(ErrorKind::RecordType, loc, id)),
        },
        NodeModel::Ref { name } => match resolve(env.defs, name) {
            None => fail(plain(ErrorKind::RecursionLoop, loc, id)),
            Some(d) => if guard.contains((d, id)) || guard.len() >= env.max_depth {
                fail(plain(ErrorKind::RecursionLoop, loc, id))
            } else {
                validate(env, env.defs[d as int].body, id, loc, guard.push((d, id)))
            },
        },
        NodeModel::Nullable { inner } => match v {
            ValueModel::Null => OutcomeModel::Value(OutputModel::Null),
            _ => validate(env, *inner, id, loc, guard),
        },
        NodeModel::WithDefault { inner, default } => match validate(env, *inner, id, loc, guard) {
            OutcomeModel::UseDefault => OutcomeModel::Value(literal_output(default)),
            o => o,
        },
        NodeModel::Check { inner, trigger, signal } => {
            let o = validate(env, *inner, id, loc, guard);
            if fires(trigger, o) {
                raised(signal, loc, id)
            } else {
                o
            }
        },
    }
}

/// What holding member `i` of a sequence or a set against `items` gives.
pub open spec fn item_outcome(env: Env, items: NodeModel, members: Seq<usize>, i: int, loc: Seq<LocItemModel>, guard: Guard) -> OutcomeModel
    decreases env.max_depth - guard.len(), items, 1nat,
{
    validate(env, items, members[i], loc.push(LocItemModel::Index(i as usize)), guard)
}

/// The violations of the first `n` members of a sequence or a set, member
/// after member: every one of them, not only the first.
pub open spec fn items_errors(env: Env, items: NodeModel, members: Seq<usize>, n: nat, loc: Seq<LocItemModel>, guard: Guard) -> Seq<
    ViolationModel,
>
    decreases env.max_depth - guard.len(), items, n + 2,
{
    if n == 0 || n > members.len() {
        Seq::empty()
    } else {
        items_errors(env, items, members, (n - 1) as nat, loc, guard) + errors_of(
            item_outcome(env, items, members, n - 1, loc, guard),
        )
    }
}

/// The values produced for the first `n` members of a sequence or a set, in
/// their order; a member that failed, or that a check left out or wanted a
/// default for, adds none.
pub open spec fn items_values(env: Env, items: NodeModel, members: Seq<usize>, n: nat, loc: Seq<LocItemModel>, guard: Guard) -> Seq<
    OutputModel,
>
    decreases env.max_depth - guard.len(), items, n + 2,
{
    if n == 0 || n > members.len() {
        Seq::empty()
    } else {
        let before = items_values(env, items, members, (n - 1) as nat, loc, guard);
        match item_outcome(env, items, members, n - 1, loc, guard) {
            OutcomeModel::Value(out) => before.push(out),
            _ => before,
        }
    }
}

/// What holding the value of entry `i` of a mapping against `values` gives.
pub open spec fn entry_outcome(
    env: Env,
    values: NodeModel,
    entries: Seq<(Seq<char>, usize)>,
    i: int,
    loc: Seq<LocItemModel>,
    guard: Guard,
) -> OutcomeModel
    decreases env.max_depth - guard.len(), values, 1nat,
{
    validate(env, values, entries[i].1, loc.push(LocItemModel::Key(entries[i].0)), guard)
}

/// The violations of the first `n` entries of a mapping, entry after entry.
pub open spec fn entries_errors(
    env: Env,
    values: NodeModel,
    entries: Seq<(Seq<char>, usize)>,
    n: nat,
    loc: Seq<LocItemModel>,
    guard: Guard,
) -> Seq<ViolationModel>
    decreases env.max_depth - guard.len(), values, n + 2,
{
    if n == 0 || n > entries.len() {
        Seq::empty()
    } else {
        entries_errors(env, values, entries, (n - 1) as nat, loc, guard) + errors_of(
            entry_outcome(env, values, entries, n - 1, loc, guard),
        )
    }
}

/// The entries produced for the first `n` entries of a mapping, in their
/// order, each under its key.
pub open spec fn entries_values(
    env: Env,
    values: NodeModel,
    entries: Seq<(Seq<char>, usize)>,
    n: nat,
    loc: Seq<LocItemModel>,
    guard: Guard,
) -> Seq<(Seq<char>, OutputModel)>
    decreases env.max_depth - guard.len(), values, n + 2,
{
    if n == 0 || n > entries.len() {
        Seq::empty()
    } else {
        let before = entries_values(env, values, entries, (n - 1) as nat, loc, guard);
        match entry_outcome(env, values, entries, n - 1, loc, guard) {
            OutcomeModel::Value(out) => before.push((entries[n - 1].0, out)),
            _ => before,
        }
    }
}

/// What a record makes of one declared field: the outcome of the field's
/// schema on the first entry under the field's name, and what
/// [`absent_outcome`] says where there is no such entry or a check asked for
/// the default.
pub open spec fn field_outcome(
    env: Env,
    field: FieldModel,
    entries: Seq<(Seq<char>, usize)>,
    id: usize,
    loc: Seq<LocItemModel>,
    guard: Guard,
) -> OutcomeModel
    decreases env.max_depth - guard.len(), field, 0nat,
{
    match find_entry(entries, field.name) {
        None => absent_outcome(field, loc, id),
        Some(j) => match validate(env, field.schema, entries[j as int].1, loc.push(LocItemModel::Field(field.name)), guard) {
            OutcomeModel::UseDefault => absent_outcome(field, loc, id),
            o => o,
        },
    }
}

/// The violations of the first `n` declared fields of a record, field after
/// field in the order of declaration.
pub open spec fn fields_errors(
    env: Env,
    fields: Seq<FieldModel>,
    entries: Seq<(Seq<char>, usize)>,
    id: usize,
    n: nat,
    loc: Seq<LocItemModel>,
    guard: Guard,
) -> Seq<ViolationModel>
    decreases env.max_depth - guard.len(), fields, n,
{
    if n == 0 || n > fields.len() {
        Seq::empty()
    } else {
        fields_errors(env, fields, entries, id, (n - 1) as nat, loc, guard) + errors_of(
            field_outcome(env, fields[n - 1], entries, id, loc, guard),
        )
    }
}

/// The entries produced for the first `n` declared fields of a record, in
/// the order of declaration, each under the field's name.
pub open spec fn fields_values(
    env: Env,
    fields: Seq<FieldModel>,
    entries: Seq<(Seq<char>, usize)>,
    id: usize,
    n: nat,
    loc: Seq<LocItemModel>,
    guard: Guard,
) -> Seq<(Seq<char>, OutputModel)>
    decreases env.max_depth - guard.len(), fields, n,
{
    if n == 0 || n > fields.len() {
        Seq::empty()
    } else {
        let before = fields_values(env, fields, entries, id, (n - 1) as nat, loc, guard);
        match field_outcome(env, fields[n - 1], entries, id, loc, guard) {
            OutcomeModel::Value(out) => before.push((fields[n - 1].name, out)),
            _ => before,
        }
    }
}

/// What a whole validation gives: the produced value, or the report of every
/// violation. A signal that reaches the root with nothing above it to act on
/// it is one violation.
pub open spec fn outcome_result(title: Seq<char>, o: OutcomeModel, id: usize) -> Result<OutputModel, ReportModel> {
    match o {
        OutcomeModel::Value(out) => Ok(out),
        OutcomeModel::Errors(e) => Err(ReportModel { title, violations: e }),
        OutcomeModel::Omit => Err(
            ReportModel { title, violations: seq![plain(ErrorKind::OmitUncaught, Seq::empty(), id)] },
        ),
        OutcomeModel::UseDefault => Err(
            ReportModel { title, violations: seq![plain(ErrorKind::UseDefaultUncaught, Seq::empty(), id)] },
        ),
    }
}

} // verus!
