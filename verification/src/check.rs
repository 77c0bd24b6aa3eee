//! The quick pass: whether a value is valid, found without producing a value or recording violations.

use crate::context::guard_holds;
use crate::errors::LocItemModel;
use crate::laws::{
    lemma_entries_errors_grow, lemma_errors_nonempty, lemma_extra_errors_grow, lemma_field_errors_nonempty,
    lemma_fields_errors_grow, lemma_items_errors_grow,
};
use crate::names::{find_entry_of, is_declared, resolve_def};
use crate::output::{literal_output, OutputModel};
use crate::references::{lemma_definition_resolves, lemma_field_resolves, registry_resolves, resolves, unresolved_in_fields};
use crate::json::lexical::is_number;
use crate::scalar::read_int;
use crate::semantics::{
    absent_outcome, entries_errors, entry_outcome, extra_errors, field_outcome, fields_errors, fires,
    item_outcome, items_errors, output_among, validate, Env, OutcomeModel,
};
use crate::validate::{members_of_list, members_of_set};
use crate::validator::{definitions_view, fields_view, Definition, ExtraPolicy, Field, Signal, Trigger, Validator};
use crate::value::{
    copy_bytes, entries_below, entries_view, ids_below, literals_view, same_literal, Heap, Literal, LiteralModel, Value,
};
use vstd::prelude::*;
use vstd::string::{StrSliceExecFns, StringExecFns};

verus! {

/// What the quick pass finds of one value held against one node.
#[derive(Debug, PartialEq, Eq)]
pub enum Verdict {
    /// The value is valid. Where the caller asked for it and the produced
    /// value is a scalar, that scalar comes with the verdict.
    Pass(Option<Literal>),
    /// The value is not valid.
    Fail,
    /// A check asked to leave the value out.
    Omit,
    /// A check asked for the declared default.
    UseDefault,
}

/// A verdict as contracts see it.
pub enum VerdictModel {
    Pass(Option<LiteralModel>),
    Fail,
    Omit,
    UseDefault,
}

impl View for Verdict {
    type V = VerdictModel;

    open spec fn view(&self) -> VerdictModel {
        match self {
            Verdict::Pass(Some(l)) => VerdictModel::Pass(Some(l@)),
            Verdict::Pass(None) => VerdictModel::Pass(None),
            Verdict::Fail => VerdictModel::Fail,
            Verdict::Omit => VerdictModel::Omit,
            Verdict::UseDefault => VerdictModel::UseDefault,
        }
    }
}

/// The constant that a produced value is, if it is a scalar.
pub open spec fn as_literal(out: OutputModel) -> Option<LiteralModel> {
    match out {
        OutputModel::Null => Some(LiteralModel::Null),
        OutputModel::Bool(b) => Some(LiteralModel::Bool(b)),
        OutputModel::Int(i) => Some(LiteralModel::Int(i)),
        OutputModel::Str(s) => Some(LiteralModel::Str(s)),
        OutputModel::Bytes(b) => Some(LiteralModel::Bytes(b)),
        _ => None,
    }
}

/// The verdict that stands for an outcome: whether it is a value, a failure
/// or a signal, and the scalar where one is wanted.
pub open spec fn verdict_of(o: OutcomeModel, want: bool) -> VerdictModel {
    match o {
        OutcomeModel::Value(out) => VerdictModel::Pass(
            if want {
                as_literal(out)
            } else {
                None
            },
        ),
        OutcomeModel::Errors(_) => VerdictModel::Fail,
        OutcomeModel::Omit => VerdictModel::Omit,
        OutcomeModel::UseDefault => VerdictModel::UseDefault,
    }
}

/// What stays the same through a quick pass.
pub open spec fn quick_env(defs: &Vec<Definition>, heap: &Heap, strict: bool, max_depth: usize) -> Env {
    Env { defs: definitions_view(defs), heap: heap@, strict, max_depth }
}

/// A pass, with the scalar where it is wanted.
fn pass(want: bool, scalar: Literal) -> (r: Verdict)
    ensures
        r@ == VerdictModel::Pass(
            if want {
                Some(scalar@)
            } else {
                None
            },
        ),
{
    if want {
        Verdict::Pass(Some(scalar))
    } else {
        Verdict::Pass(None)
    }
}

/// The scalar that a value of the host is, where it is one and is wanted.
fn pass_as_it_is(want: bool, v: &Value) -> (r: Verdict)
    ensures
        r@ == VerdictModel::Pass(
            if want {
                as_literal(crate::semantics::scalar_output(v@, 0))
            } else {
                None
            },
        ),
{
    if !want {
        return Verdict::Pass(None);
    }
    match v {
        Value::Null => Verdict::Pass(Some(Literal::Null)),
        Value::Bool(b) => Verdict::Pass(Some(Literal::Bool(*b))),
        Value::Int(i) => Verdict::Pass(Some(Literal::Int(*i))),
        Value::Str(s) => Verdict::Pass(Some(Literal::Str(s.clone()))),
        Value::Bytes(b) => Verdict::Pass(Some(Literal::Bytes(copy_bytes(b)))),
        _ => Verdict::Pass(None),
    }
}

/// Whether one of the constants is `scalar`.
fn among(values: &Vec<Literal>, scalar: &Literal) -> (found: bool)
    ensures
        found == output_among(literals_view(values), literal_output(scalar@)),
{
    let mut i: usize = 0;
    while i < values.len()
        invariant
            i <= values.len(),
            forall|j: int| 0 <= j < i ==> literal_output(#[trigger] literals_view(values)[j]) != literal_output(scalar@),
        decreases values.len() - i,
    {
        if same_literal(&values[i], scalar) {
            assert(literal_output(literals_view(values)[i as int]) == literal_output(scalar@));
            return true;
        }
        proof {
            lemma_literal_output_injective(literals_view(values)[i as int], scalar@);
        }
        i = i + 1;
    }
    false
}

/// Two constants that give the same produced value are the same constant.
pub proof fn lemma_literal_output_injective(a: LiteralModel, b: LiteralModel)
    ensures
        literal_output(a) == literal_output(b) ==> a == b,
        as_literal(literal_output(a)) == Some(a),
{
}

/// A produced value that is a constant is the scalar that [`as_literal`] gives.
pub proof fn lemma_as_literal(out: OutputModel)
    ensures
        as_literal(out) matches Some(l) ==> literal_output(l) == out,
        as_literal(out) is None ==> forall|l: LiteralModel| literal_output(l) != out,
{
}

/// Whether a check raises its signal, told from the verdict on the schema
/// under it.
fn verdict_fires(trigger: &Trigger, inner: &Verdict, Ghost(o): Ghost<OutcomeModel>) -> (r: bool)
    requires
        inner@ == verdict_of(o, true),
    ensures
        r == fires(trigger@, o),
{
    match trigger {
        Trigger::Failure => match inner {
            Verdict::Fail => true,
            _ => false,
        },
        Trigger::Values(values) => match inner {
            Verdict::Pass(Some(scalar)) => {
                proof {
                    lemma_as_literal(o->Value_0);
                }
                among(values, scalar)
            },
            Verdict::Pass(None) => {
                proof {
                    lemma_as_literal(o->Value_0);
                }
                false
            },
            _ => false,
        },
    }
}

/// The verdict on what a check's signal makes of a value.
fn verdict_raised(signal: &Signal) -> (r: Verdict)
    ensures
        forall|loc: Seq<LocItemModel>, id: usize, want: bool|
            r@ == #[trigger] verdict_of(crate::semantics::raised(signal@, loc, id), want),
{
    match signal {
        Signal::Omit => Verdict::Omit,
        Signal::UseDefault => Verdict::UseDefault,
        Signal::Custom { name: _, message: _ } => Verdict::Fail,
        Signal::Known { kind: _ } => Verdict::Fail,
    }
}

/// The verdict on a declared field without a value.
fn verdict_absent(field: &Field) -> (r: Verdict)
    ensures
        forall|loc: Seq<LocItemModel>, id: usize| r@ == #[trigger] verdict_of(absent_outcome(field@, loc, id), false),
{
    match &field.schema {
        Validator::WithDefault { inner: _, default: _ } => Verdict::Pass(None),
        _ => {
            if field.required {
                Verdict::Fail
            } else {
                Verdict::Omit
            }
        },
    }
}

/// Drops the scalar from a verdict where it is not wanted.
fn only_wanted(v: Verdict, want: bool, Ghost(o): Ghost<OutcomeModel>) -> (r: Verdict)
    requires
        v@ == verdict_of(o, true),
    ensures
        r@ == verdict_of(o, want),
{
    if want {
        v
    } else {
        match v {
            Verdict::Pass(_) => Verdict::Pass(None),
            other => other,
        }
    }
}

/// The quick pass over the value at `id` held against `node`: whether it is
/// valid, without a produced value or a record of what is wrong. The guard is
/// left as it was found.
pub(crate) fn check_node(
    defs: &Vec<Definition>,
    node: &Validator,
    heap: &Heap,
    id: usize,
    guard: &mut Vec<(usize, usize)>,
    strict: bool,
    max_depth: usize,
    want: bool,
    Ghost(loc): Ghost<Seq<LocItemModel>>,
) -> (r: Verdict)
    requires
        heap.wf(),
        id < heap@.len(),
        registry_resolves(definitions_view(defs)),
        resolves(node@, definitions_view(defs)),
    ensures
        final(guard)@ == old(guard)@,
        r@ == verdict_of(validate(quick_env(defs, heap, strict, max_depth), node@, id, loc, old(guard)@), want),
    decreases max_depth - old(guard).len(), node, 0nat,
{
    let v = heap.get(id);
    match node {
        Validator::Null => match v {
            Value::Null => pass(want, Literal::Null),
            _ => Verdict::Fail,
        },
        Validator::Bool => match v {
            Value::Bool(b) => pass(want, Literal::Bool(*b)),
            Value::Int(i) => {
                if strict {
                    Verdict::Fail
                } else if *i == 0 {
                    pass(want, Literal::Bool(false))
                } else if *i == 1 {
                    pass(want, Literal::Bool(true))
                } else {
                    Verdict::Fail
                }
            },
            Value::Str(s) => {
                if strict {
                    Verdict::Fail
                } else if *s == String::from_str("false") {
                    pass(want, Literal::Bool(false))
                } else if *s == String::from_str("true") {
                    pass(want, Literal::Bool(true))
                } else {
                    Verdict::Fail
                }
            },
            _ => Verdict::Fail,
        },
        Validator::Int { ge, le } => match read_int(strict, v) {
            Err(_) => Verdict::Fail,
            Ok(i) => {
                if let Some(g) = ge {
                    if i < *g {
                        return Verdict::Fail;
                    }
                }
                if let Some(l) = le {
                    if i > *l {
                        return Verdict::Fail;
                    }
                }
                pass(want, Literal::Int(i))
            },
        },
        Validator::Float => match v {
            Value::Int(i) => pass(want, Literal::Int(*i)),
            Value::Real(t) => {
                if is_number(t.as_str().as_bytes()) {
                    Verdict::Pass(None)
                } else {
                    Verdict::Fail
                }
            },
            Value::Str(s) => {
                if !strict && is_number(s.as_str().as_bytes()) {
                    Verdict::Pass(None)
                } else {
                    Verdict::Fail
                }
            },
            _ => Verdict::Fail,
        },
        Validator::Str { min_len, max_len } => match v {
            Value::Str(s) => {
                let n = s.as_str().unicode_len();
                if let Some(m) = min_len {
                    if n < *m {
                        return Verdict::Fail;
                    }
                }
                if let Some(m) = max_len {
                    if n > *m {
                        return Verdict::Fail;
                    }
                }
                pass_as_it_is(want, v)
            },
            _ => Verdict::Fail,
        },
        Validator::Bytes => match v {
            Value::Bytes(_) => pass_as_it_is(want, v),
            Value::Str(s) => {
                if strict {
                    Verdict::Fail
                } else if want {
                    Verdict::Pass(Some(Literal::Bytes(s.as_str().as_bytes_vec())))
                } else {
                    Verdict::Pass(None)
                }
            },
            _ => Verdict::Fail,
        },
        Validator::Literal { expected } => {
            if expected.contains(v) {
                pass_as_it_is(want, v)
            } else {
                Verdict::Fail
            }
        },
        Validator::List { items } => match members_of_list(strict, v) {
            None => Verdict::Fail,
            Some(members) => {
                if check_items(defs, items, members, heap, guard, strict, max_depth, Ghost(loc)) {
                    Verdict::Pass(None)
                } else {
                    Verdict::Fail
                }
            },
        },
        Validator::SetOf { items } => match members_of_set(strict, v) {
            None => Verdict::Fail,
            Some(members) => {
                if check_items(defs, items, members, heap, guard, strict, max_depth, Ghost(loc)) {
                    Verdict::Pass(None)
                } else {
                    Verdict::Fail
                }
            },
        },
        Validator::Dict { values } => match v {
            Value::Dict(entries) => {
                if check_entries(defs, values, entries, heap, guard, strict, max_depth, Ghost(loc)) {
                    Verdict::Pass(None)
                } else {
                    Verdict::Fail
                }
            },
            _ => Verdict::Fail,
        },
        Validator::Record { fields, extra } => {
            proof {
                Validator::lemma_model_record(*fields, *extra);
            }
            match v {
                Value::Dict(entries) => {
                    if !check_fields(defs, fields, entries, heap, id, guard, strict, max_depth, Ghost(loc)) {
                        Verdict::Fail
                    } else if !check_extras(fields, entries, *extra, Ghost(loc)) {
                        Verdict::Fail
                    } else {
                        Verdict::Pass(None)
                    }
                },
                _ => Verdict::Fail,
            }
        },
        Validator::Ref { name } => match resolve_def(defs, name) {
            None => unreached(),
            Some(d) => {
                if guard_holds(guard, d, id) || guard.len() >= max_depth {
                    Verdict::Fail
                } else {
                    proof {
                        lemma_definition_resolves(definitions_view(defs), defs@.len(), d as int);
                    }
                    guard.push((d, id));
                    let r = check_node(defs, &defs[d].body, heap, id, guard, strict, max_depth, want, Ghost(loc));
                    let _ = guard.pop();
                    assert(guard@ =~= old(guard)@);
                    r
                }
            },
        },
        Validator::Nullable { inner } => match v {
            Value::Null => pass(want, Literal::Null),
            _ => check_node(defs, inner, heap, id, guard, strict, max_depth, want, Ghost(loc)),
        },
        Validator::WithDefault { inner, default } => {
            match check_node(defs, inner, heap, id, guard, strict, max_depth, want, Ghost(loc)) {
                Verdict::UseDefault => {
                    proof {
                        lemma_literal_output_injective(default@, default@);
                    }
                    if want {
                        Verdict::Pass(Some(default.clone()))
                    } else {
                        Verdict::Pass(None)
                    }
                },
                r => r,
            }
        },
        Validator::Check { inner, trigger, signal } => {
            let ghost o = validate(quick_env(defs, heap, strict, max_depth), inner@, id, loc, guard@);
            let r = check_node(defs, inner, heap, id, guard, strict, max_depth, true, Ghost(loc));
            if verdict_fires(trigger, &r, Ghost(o)) {
                let raised = verdict_raised(signal);
                assert(raised@ == verdict_of(crate::semantics::raised(signal@, loc, id), want));
                raised
            } else {
                only_wanted(r, want, Ghost(o))
            }
        },
    }
}

/// Whether every member passes `items`; the pass stops at the first that does not.
pub(crate) fn check_items(
    defs: &Vec<Definition>,
    items: &Validator,
    members: &Vec<usize>,
    heap: &Heap,
    guard: &mut Vec<(usize, usize)>,
    strict: bool,
    max_depth: usize,
    Ghost(loc): Ghost<Seq<LocItemModel>>,
) -> (ok: bool)
    requires
        heap.wf(),
        registry_resolves(definitions_view(defs)),
        resolves(items@, definitions_view(defs)),
        ids_below(members@, heap@.len() as int),
    ensures
        final(guard)@ == old(guard)@,
        ok == (items_errors(
            quick_env(defs, heap, strict, max_depth),
            items@,
            members@,
            members@.len(),
            loc,
            old(guard)@,
        ).len() == 0),
    decreases max_depth - old(guard).len(), items, 1nat,
{
    let ghost env = quick_env(defs, heap, strict, max_depth);
    let ghost g = guard@;
    let mut i: usize = 0;
    while i < members.len()
        invariant
            i <= members.len(),
            heap.wf(),
            registry_resolves(definitions_view(defs)),
            resolves(items@, definitions_view(defs)),
            ids_below(members@, heap@.len() as int),
            guard@ == old(guard)@,
            g == guard@,
            env == quick_env(defs, heap, strict, max_depth),
            items_errors(env, items@, members@, i as nat, loc, g).len() == 0,
        decreases members.len() - i,
    {
        let r = check_node(
            defs,
            items,
            heap,
            members[i],
            guard,
            strict,
            max_depth,
            false,
            Ghost(loc.push(LocItemModel::Index(i))),
        );
        assert(r@ == verdict_of(item_outcome(env, items@, members@, i as int, loc, g), false));
        match r {
            Verdict::Fail => {
                proof {
                    lemma_errors_nonempty(env, items@, members@[i as int], loc.push(LocItemModel::Index(i)), g);
                    lemma_items_errors_grow(env, items@, members@, (i + 1) as nat, members@.len(), loc, g);
                }
                return false;
            },
            _ => {},
        }
        i = i + 1;
    }
    true
}

/// Whether the value of every entry passes `values`; the pass stops at the
/// first that does not.
pub(crate) fn check_entries(
    defs: &Vec<Definition>,
    values: &Validator,
    entries: &Vec<(String, usize)>,
    heap: &Heap,
    guard: &mut Vec<(usize, usize)>,
    strict: bool,
    max_depth: usize,
    Ghost(loc): Ghost<Seq<LocItemModel>>,
) -> (ok: bool)
    requires
        heap.wf(),
        registry_resolves(definitions_view(defs)),
        resolves(values@, definitions_view(defs)),
        entries_below(entries_view(entries), heap@.len() as int),
    ensures
        final(guard)@ == old(guard)@,
        ok == (entries_errors(
            quick_env(defs, heap, strict, max_depth),
            values@,
            entries_view(entries),
            entries@.len(),
            loc,
            old(guard)@,
        ).len() == 0),
    decreases max_depth - old(guard).len(), values, 1nat,
{
    let ghost env = quick_env(defs, heap, strict, max_depth);
    let ghost g = guard@;
    let ghost model = entries_view(entries);
    let mut i: usize = 0;
    while i < entries.len()
        invariant
            i <= entries.len(),
            heap.wf(),
            registry_resolves(definitions_view(defs)),
            resolves(values@, definitions_view(defs)),
            model == entries_view(entries),
            entries_below(model, heap@.len() as int),
            guard@ == old(guard)@,
            g == guard@,
            env == quick_env(defs, heap, strict, max_depth),
            entries_errors(env, values@, model, i as nat, loc, g).len() == 0,
        decreases entries.len() - i,
    {
        let member = entries[i].1;
        assert(model[i as int] == (entries[i as int].0@, member));
        let r = check_node(
            defs,
            values,
            heap,
            member,
            guard,
            strict,
            max_depth,
            false,
            Ghost(loc.push(LocItemModel::Key(entries[i as int].0@))),
        );
        assert(r@ == verdict_of(entry_outcome(env, values@, model, i as int, loc, g), false));
        match r {
            Verdict::Fail => {
                proof {
                    lemma_errors_nonempty(env, values@, member, loc.push(LocItemModel::Key(entries[i as int].0@)), g);
                    lemma_entries_errors_grow(env, values@, model, (i + 1) as nat, entries@.len(), loc, g);
                }
                return false;
            },
            _ => {},
        }
        i = i + 1;
    }
    true
}

/// The verdict on what a record makes of one declared field.
pub(crate) fn check_field(
    defs: &Vec<Definition>,
    field: &Field,
    entries: &Vec<(String, usize)>,
    heap: &Heap,
    id: usize,
    guard: &mut Vec<(usize, usize)>,
    strict: bool,
    max_depth: usize,
    Ghost(loc): Ghost<Seq<LocItemModel>>,
) -> (r: Verdict)
    requires
        heap.wf(),
        registry_resolves(definitions_view(defs)),
        resolves(field@.schema, definitions_view(defs)),
        entries_below(entries_view(entries), heap@.len() as int),
    ensures
        final(guard)@ == old(guard)@,
        r@ == verdict_of(
            field_outcome(quick_env(defs, heap, strict, max_depth), field@, entries_view(entries), id, loc, old(guard)@),
            false,
        ),
    decreases max_depth - old(guard).len(), field, 0nat,
{
    match find_entry_of(entries, &field.name) {
        None => {
            let r = verdict_absent(field);
            assert(r@ == verdict_of(absent_outcome(field@, loc, id), false));
            r
        },
        Some(j) => {
            let member = entries[j].1;
            assert(entries_view(entries)[j as int].1 == member);
            let r = check_node(
                defs,
                &field.schema,
                heap,
                member,
                guard,
                strict,
                max_depth,
                false,
                Ghost(loc.push(LocItemModel::Field(field.name@))),
            );
            match r {
                Verdict::UseDefault => {
                    let r = verdict_absent(field);
                    assert(r@ == verdict_of(absent_outcome(field@, loc, id), false));
                    r
                },
                r => r,
            }
        },
    }
}

/// Whether every declared field of a record passes; the pass stops at the
/// first that does not.
pub(crate) fn check_fields(
    defs: &Vec<Definition>,
    fields: &Vec<Field>,
    entries: &Vec<(String, usize)>,
    heap: &Heap,
    id: usize,
    guard: &mut Vec<(usize, usize)>,
    strict: bool,
    max_depth: usize,
    Ghost(loc): Ghost<Seq<LocItemModel>>,
) -> (ok: bool)
    requires
        heap.wf(),
        registry_resolves(definitions_view(defs)),
        unresolved_in_fields(fields_view(fields), definitions_view(defs), fields@.len()) is None,
        entries_below(entries_view(entries), heap@.len() as int),
    ensures
        final(guard)@ == old(guard)@,
        ok == (fields_errors(
            quick_env(defs, heap, strict, max_depth),
            fields_view(fields),
            entries_view(entries),
            id,
            fields@.len(),
            loc,
            old(guard)@,
        ).len() == 0),
    decreases max_depth - old(guard).len(), fields, 0nat,
{
    let ghost env = quick_env(defs, heap, strict, max_depth);
    let ghost g = guard@;
    let ghost model = entries_view(entries);
    let ghost decl = fields_view(fields);
    let mut i: usize = 0;
    while i < fields.len()
        invariant
            i <= fields.len(),
            heap.wf(),
            registry_resolves(definitions_view(defs)),
            unresolved_in_fields(fields_view(fields), definitions_view(defs), fields@.len()) is None,
            model == entries_view(entries),
            decl == fields_view(fields),
            entries_below(model, heap@.len() as int),
            guard@ == old(guard)@,
            g == guard@,
            env == quick_env(defs, heap, strict, max_depth),
            fields_errors(env, decl, model, id, i as nat, loc, g).len() == 0,
        decreases fields.len() - i,
    {
        let field = &fields[i];
        assert(decl[i as int] == field@);
        proof {
            lemma_field_resolves(decl, definitions_view(defs), fields@.len(), i as int);
        }
        let r = check_field(defs, field, entries, heap, id, guard, strict, max_depth, Ghost(loc));
        match r {
            Verdict::Fail => {
                proof {
                    lemma_field_errors_nonempty(env, field@, model, id, loc, g);
                    lemma_fields_errors_grow(env, decl, model, id, (i + 1) as nat, fields@.len(), loc, g);
                }
                return false;
            },
            _ => {},
        }
        i = i + 1;
    }
    true
}

/// Whether a record has nothing against the keys of its input that it does
/// not declare.
pub(crate) fn check_extras(fields: &Vec<Field>, entries: &Vec<(String, usize)>, extra: ExtraPolicy, Ghost(loc): Ghost<Seq<LocItemModel>>) -> (ok: bool)
    ensures
        ok == (extra_errors(fields_view(fields), entries_view(entries), extra, entries@.len(), loc).len() == 0),
{
    let ghost model = entries_view(entries);
    let ghost decl = fields_view(fields);
    let mut i: usize = 0;
    while i < entries.len()
        invariant
            i <= entries.len(),
            model == entries_view(entries),
            decl == fields_view(fields),
            extra_errors(decl, model, extra, i as nat, loc).len() == 0,
        decreases entries.len() - i,
    {
        assert(model[i as int].0 == entries[i as int].0@);
        match extra {
            ExtraPolicy::Reject => {
                if !is_declared(fields, &entries[i].0) {
                    proof {
                        lemma_extra_errors_grow(decl, model, extra, (i + 1) as nat, entries@.len(), loc);
                    }
                    return false;
                }
            },
            _ => {},
        }
        i = i + 1;
    }
    true
}

} // verus!
