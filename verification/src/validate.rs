//! Validation: the produced value or every violation, computed as the meaning says.

use crate::context::{Context, ContextModel, Outcome};
use crate::errors::violation::{append_violations, violations_view, Violation};
use crate::errors::{ErrorContext, ErrorKind, LocItem, Location};
use crate::names::{find_entry_of, is_declared, resolve_def};
use crate::output::{literal_output, out_entries_view, outputs_view, Output};
use crate::references::{lemma_definition_resolves, lemma_field_resolves, registry_resolves, resolves, unresolved_in_fields};
use crate::scalar::{
    validate_bool, validate_bytes, validate_float, validate_int, validate_literal, validate_null, validate_str,
};
use crate::semantics::{
    absent_outcome, distinct, entries_errors, entries_values, entry_outcome, extra_errors, extra_values,
    field_outcome, fields_errors, fields_values, fires, item_outcome, items_errors, items_values, list_members,
    output_among, raised, set_members, validate, Env,
};
use crate::validator::{definitions_view, fields_view, Definition, ExtraPolicy, Field, Signal, Trigger, Validator};
use crate::value::{entries_below, entries_view, ids_below, literals_view, Heap, Literal, Value};
use vstd::prelude::*;

verus! {

/// What stays the same through a validation with these definitions, this
/// store and this context.
pub open spec fn env_of(defs: &Vec<Definition>, heap: &Heap, ctx: ContextModel) -> Env {
    Env { defs: definitions_view(defs), heap: heap@, strict: ctx.strict, max_depth: ctx.max_depth }
}

/// The members that a sequence is held against.
pub fn members_of_list(strict: bool, v: &Value) -> (r: Option<&Vec<usize>>)
    ensures
        match r {
            Some(m) => list_members(strict, v@) == Some(m@),
            None => list_members(strict, v@) is None,
        },
{
    match v {
        Value::List(m) => Some(m),
        Value::SetOf(m) => if strict {
            None
        } else {
            Some(m)
        },
        _ => None,
    }
}

/// The members that a set is held against.
pub fn members_of_set(strict: bool, v: &Value) -> (r: Option<&Vec<usize>>)
    ensures
        match r {
            Some(m) => set_members(strict, v@) == Some(m@),
            None => set_members(strict, v@) is None,
        },
{
    match v {
        Value::SetOf(m) => Some(m),
        Value::List(m) => if strict {
            None
        } else {
            Some(m)
        },
        _ => None,
    }
}

/// Whether the produced value is the constant.
fn output_is_literal(literal: &Literal, out: &Output) -> (same: bool)
    ensures
        same == (literal_output(literal@) == out@),
{
    match (literal, out) {
        (Literal::Null, Output::Null) => true,
        (Literal::Bool(a), Output::Bool(b)) => *a == *b,
        (Literal::Int(a), Output::Int(b)) => *a == *b,
        (Literal::Str(a), Output::Str(b)) => *a == *b,
        (Literal::Bytes(a), Output::Bytes(b)) => crate::value::same_bytes(a, b),
        _ => false,
    }
}

/// Whether one of the constants is the produced value.
fn among_outputs(values: &Vec<Literal>, out: &Output) -> (found: bool)
    ensures
        found == output_among(literals_view(values), out@),
{
    let mut i: usize = 0;
    while i < values.len()
        invariant
            i <= values.len(),
            forall|j: int| 0 <= j < i ==> literal_output(#[trigger] literals_view(values)[j]) != out@,
        decreases values.len() - i,
    {
        if output_is_literal(&values[i], out) {
            assert(literal_output(literals_view(values)[i as int]) == out@);
            return true;
        }
        i = i + 1;
    }
    false
}

/// Whether a check raises its signal on the outcome of the schema under it.
pub fn trigger_fires(trigger: &Trigger, out: &Outcome) -> (r: bool)
    ensures
        r == fires(trigger@, out@),
{
    match trigger {
        Trigger::Failure => match out {
            Outcome::Errors(_) => true,
            _ => false,
        },
        Trigger::Values(values) => match out {
            Outcome::Value(o) => among_outputs(values, o),
            _ => false,
        },
    }
}

/// What a check's signal makes of the value at `loc`.
pub fn raise(signal: &Signal, loc: &Location, id: usize) -> (out: Outcome)
    ensures
        out@ == raised(signal@, loc@, id),
{
    match signal {
        Signal::Omit => Outcome::Omit,
        Signal::UseDefault => Outcome::UseDefault,
        Signal::Custom { name, message } => Outcome::fail(
            Violation {
                kind: ErrorKind::Custom,
                loc: loc.clone(),
                input: id,
                context: Some(ErrorContext::Name(name.clone())),
                message: Some(message.clone()),
            },
        ),
        Signal::Known { kind } => Outcome::fail(Violation::new(*kind, loc, id)),
    }
}

/// What a record makes of a declared field without a value.
pub fn absent(field: &Field, loc: &mut Location, id: usize) -> (out: Outcome)
    ensures
        final(loc)@ == old(loc)@,
        out@ == absent_outcome(field@, old(loc)@, id),
{
    match &field.schema {
        Validator::WithDefault { inner: _, default } => Outcome::Value(Output::from_literal(default)),
        _ => {
            if field.required {
                loc.push(LocItem::Field(field.name.clone()));
                let out = Outcome::fail(Violation::new(ErrorKind::Missing, loc, id));
                loc.pop();
                assert(loc@ =~= old(loc)@);
                out
            } else {
                Outcome::Omit
            }
        },
    }
}

/// The violations and the kept entries for the keys of a record's input that
/// the record does not declare. The kept entries are gathered only where
/// `keep` says that they will be needed.
pub fn validate_extras(
    fields: &Vec<Field>,
    entries: &Vec<(String, usize)>,
    extra: ExtraPolicy,
    loc: &mut Location,
    keep: bool,
) -> (r: (Vec<Violation>, Vec<(String, Output)>))
    ensures
        final(loc)@ == old(loc)@,
        violations_view(&r.0) == extra_errors(
            fields_view(fields),
            entries_view(entries),
            extra,
            entries@.len(),
            old(loc)@,
        ),
        keep ==> out_entries_view(&r.1) == extra_values(fields_view(fields), entries_view(entries), extra, entries@.len()),
{
    let mut errors: Vec<Violation> = Vec::new();
    let mut values: Vec<(String, Output)> = Vec::new();
    let mut i: usize = 0;
    assert(violations_view(&errors) =~= Seq::empty());
    assert(out_entries_view(&values) =~= Seq::empty());
    while i < entries.len()
        invariant
            i <= entries.len(),
            loc@ == old(loc)@,
            violations_view(&errors) == extra_errors(fields_view(fields), entries_view(entries), extra, i as nat, loc@),
            keep ==> out_entries_view(&values) == extra_values(fields_view(fields), entries_view(entries), extra, i as nat),
        decreases entries.len() - i,
    {
        let ghost before_errors = violations_view(&errors);
        let ghost before_values = out_entries_view(&values);
        let key = &entries[i].0;
        let member = entries[i].1;
        assert(entries_view(entries)[i as int] == (key@, member));
        match extra {
            ExtraPolicy::Reject => {
                if !is_declared(fields, key) {
                    loc.push(LocItem::Key(key.clone()));
                    let v = Violation::new(ErrorKind::ExtraForbidden, loc, member);
                    loc.pop();
                    assert(loc@ =~= old(loc)@);
                    errors.push(v);
                    assert(violations_view(&errors) =~= before_errors.push(v@));
                }
            },
            ExtraPolicy::Keep => {
                if keep && !is_declared(fields, key) {
                    values.push((key.clone(), Output::Kept(member)));
                    assert(out_entries_view(&values) =~= before_values.push((key@, Output::Kept(member)@)));
                }
            },
            ExtraPolicy::Ignore => {},
        }
        i = i + 1;
    }
    (errors, values)
}

/// Holds the value at `id` against `node`: the produced value, or every
/// violation in the value, or the signal that a check raised. The context is
/// left as it was found.
pub fn validate_node(defs: &Vec<Definition>, node: &Validator, heap: &Heap, id: usize, ctx: &mut Context) -> (out: Outcome)
    requires
        heap.wf(),
        id < heap@.len(),
        registry_resolves(definitions_view(defs)),
        resolves(node@, definitions_view(defs)),
    ensures
        final(ctx)@ == old(ctx)@,
        out@ == validate(env_of(defs, heap, old(ctx)@), node@, id, old(ctx)@.loc, old(ctx)@.guard),
    decreases old(ctx).max_depth - old(ctx).guard.len(), node, 0nat,
{
    let v = heap.get(id);
    match node {
        Validator::Null => validate_null(v, &ctx.loc, id),
        Validator::Bool => validate_bool(ctx.strict, v, &ctx.loc, id),
        Validator::Int { ge, le } => validate_int(ctx.strict, *ge, *le, v, &ctx.loc, id),
        Validator::Float => validate_float(ctx.strict, v, &ctx.loc, id),
        Validator::Str { min_len, max_len } => validate_str(*min_len, *max_len, v, &ctx.loc, id),
        Validator::Bytes => validate_bytes(ctx.strict, v, &ctx.loc, id),
        Validator::Literal { expected } => validate_literal(expected, v, &ctx.loc, id),
        Validator::List { items } => {
            match members_of_list(ctx.strict, v) {
                None => Outcome::fail(Violation::new(ErrorKind::ListType, &ctx.loc, id)),
                Some(members) => {
                    let (errors, values) = validate_items(defs, items, members, heap, ctx);
                    if errors.len() > 0 {
                        Outcome::Errors(errors)
                    } else {
                        Outcome::Value(Output::list(values))
                    }
                },
            }
        },
        Validator::SetOf { items } => {
            match members_of_set(ctx.strict, v) {
                None => Outcome::fail(Violation::new(ErrorKind::SetType, &ctx.loc, id)),
                Some(members) => {
                    let (errors, values) = validate_items(defs, items, members, heap, ctx);
                    if errors.len() > 0 {
                        Outcome::Errors(errors)
                    } else {
                        Outcome::Value(Output::set_of(without_repeats(values)))
                    }
                },
            }
        },
        Validator::Dict { values } => {
            match v {
                Value::Dict(entries) => {
                    let (errors, outs) = validate_entries(defs, values, entries, heap, ctx);
                    if errors.len() > 0 {
                        Outcome::Errors(errors)
                    } else {
                        Outcome::Value(Output::dict(outs))
                    }
                },
                _ => Outcome::fail(Violation::new(ErrorKind::DictType, &ctx.loc, id)),
            }
        },
        Validator::Record { fields, extra } => {
            proof {
                Validator::lemma_model_record(*fields, *extra);
            }
            match v {
                Value::Dict(entries) => {
                    let (mut errors, mut outs) = validate_fields(defs, fields, entries, heap, id, ctx);
                    let (more_errors, mut more_outs) = validate_extras(fields, entries, *extra, &mut ctx.loc, errors.len() == 0);
                    let ghost field_outs = out_entries_view(&outs);
                    let ghost extra_outs = out_entries_view(&more_outs);
                    append_violations(&mut errors, more_errors);
                    if errors.len() > 0 {
                        Outcome::Errors(errors)
                    } else {
                        outs.append(&mut more_outs);
                        assert(out_entries_view(&outs) =~= field_outs + extra_outs);
                        Outcome::Value(Output::dict(outs))
                    }
                },
                _ => Outcome::fail(Violation::new(ErrorKind::RecordType, &ctx.loc, id)),
            }
        },
        Validator::Ref { name } => {
            match resolve_def(defs, name) {
                None => unreached(),
                Some(d) => {
                    if ctx.inside(d, id) || ctx.guard.len() >= ctx.max_depth {
                        Outcome::fail(Violation::new(ErrorKind::RecursionLoop, &ctx.loc, id))
                    } else {
                        proof {
                            lemma_definition_resolves(definitions_view(defs), defs@.len(), d as int);
                        }
                        ctx.guard.push((d, id));
                        let out = validate_node(defs, &defs[d].body, heap, id, ctx);
                        let _ = ctx.guard.pop();
                        assert(ctx.guard@ =~= old(ctx).guard@);
                        out
                    }
                },
            }
        },
        Validator::Nullable { inner } => {
            match v {
                Value::Null => Outcome::Value(Output::Null),
                _ => validate_node(defs, inner, heap, id, ctx),
            }
        },
        Validator::WithDefault { inner, default } => {
            match validate_node(defs, inner, heap, id, ctx) {
                Outcome::UseDefault => Outcome::Value(Output::from_literal(default)),
                out => out,
            }
        },
        Validator::Check { inner, trigger, signal } => {
            let out = validate_node(defs, inner, heap, id, ctx);
            if trigger_fires(trigger, &out) {
                raise(signal, &ctx.loc, id)
            } else {
                out
            }
        },
    }
}

/// The produced values without those that an earlier one equals.
pub fn without_repeats(values: Vec<Output>) -> (kept: Vec<Output>)
    ensures
        outputs_view(&kept) == distinct(outputs_view(&values), values@.len()),
{
    let ghost all = outputs_view(&values);
    let n = values.len();
    let mut values = values;
    let mut kept: Vec<Output> = Vec::new();
    let mut rest: Vec<Output> = Vec::new();
    // Turn the list round, so that its members can be taken off in order.
    while values.len() > 0
        invariant
            values.len() + rest.len() == n,
            n == all.len(),
            forall|j: int| 0 <= j < values.len() ==> (#[trigger] values[j])@ == all[j],
            forall|j: int| 0 <= j < rest.len() ==> (#[trigger] rest[j])@ == all[n - 1 - j],
        decreases values.len(),
    {
        let last = values.pop().unwrap();
        rest.push(last);
    }
    let mut i: usize = 0;
    assert(outputs_view(&kept) =~= distinct(all, 0));
    while rest.len() > 0
        invariant
            i + rest.len() == n,
            n == all.len(),
            forall|j: int| 0 <= j < rest.len() ==> (#[trigger] rest[j])@ == all[n - 1 - j],
            outputs_view(&kept) == distinct(all, i as nat),
        decreases rest.len(),
    {
        let next = rest.pop().unwrap();
        assert(next@ == all[i as int]);
        let ghost before = outputs_view(&kept);
        if !holds(&kept, &next) {
            kept.push(next);
            assert(outputs_view(&kept) =~= before.push(all[i as int]));
        }
        i = i + 1;
    }
    kept
}

/// Whether one of the produced values equals `out`.
fn holds(list: &Vec<Output>, out: &Output) -> (found: bool)
    ensures
        found == outputs_view(list).contains(out@),
{
    let mut i: usize = 0;
    while i < list.len()
        invariant
            i <= list.len(),
            forall|j: int| 0 <= j < i ==> outputs_view(list)[j] != out@,
        decreases list.len() - i,
    {
        if list[i].same(out) {
            assert(outputs_view(list)[i as int] == out@);
            return true;
        }
        i = i + 1;
    }
    false
}

/// Holds each member against `items`: every violation, member after member,
/// and, where there is none, the produced values.
pub fn validate_items(defs: &Vec<Definition>, items: &Validator, members: &Vec<usize>, heap: &Heap, ctx: &mut Context) -> (r: (
    Vec<Violation>,
    Vec<Output>,
))
    requires
        heap.wf(),
        registry_resolves(definitions_view(defs)),
        resolves(items@, definitions_view(defs)),
        ids_below(members@, heap@.len() as int),
    ensures
        final(ctx)@ == old(ctx)@,
        violations_view(&r.0) == items_errors(
            env_of(defs, heap, old(ctx)@),
            items@,
            members@,
            members@.len(),
            old(ctx)@.loc,
            old(ctx)@.guard,
        ),
        r.0.len() == 0 ==> outputs_view(&r.1) == items_values(
            env_of(defs, heap, old(ctx)@),
            items@,
            members@,
            members@.len(),
            old(ctx)@.loc,
            old(ctx)@.guard,
        ),
    decreases old(ctx).max_depth - old(ctx).guard.len(), items, 1nat,
{
    let ghost env = env_of(defs, heap, ctx@);
    let ghost loc = ctx@.loc;
    let ghost guard = ctx@.guard;
    let mut errors: Vec<Violation> = Vec::new();
    let mut values: Vec<Output> = Vec::new();
    let mut i: usize = 0;
    assert(violations_view(&errors) =~= Seq::empty());
    assert(outputs_view(&values) =~= Seq::empty());
    while i < members.len()
        invariant
            i <= members.len(),
            heap.wf(),
            registry_resolves(definitions_view(defs)),
            resolves(items@, definitions_view(defs)),
            ids_below(members@, heap@.len() as int),
            ctx@ == old(ctx)@,
            env == env_of(defs, heap, ctx@),
            loc == ctx@.loc,
            guard == ctx@.guard,
            violations_view(&errors) == items_errors(env, items@, members@, i as nat, loc, guard),
            errors.len() == 0 ==> outputs_view(&values) == items_values(env, items@, members@, i as nat, loc, guard),
        decreases members.len() - i,
    {
        let ghost before_errors = violations_view(&errors);
        let ghost before_values = outputs_view(&values);
        ctx.loc.push(LocItem::Index(i));
        let out = validate_node(defs, items, heap, members[i], ctx);
        ctx.loc.pop();
        assert(ctx.loc@ =~= loc);
        assert(out@ == item_outcome(env, items@, members@, i as int, loc, guard));
        match out {
            Outcome::Value(o) => {
                if errors.len() == 0 {
                    values.push(o);
                    assert(outputs_view(&values) =~= before_values.push(o@));
                }
            },
            Outcome::Errors(e) => {
                append_violations(&mut errors, e);
            },
            _ => {},
        }
        assert(violations_view(&errors) =~= before_errors + crate::semantics::errors_of(out@));
        i = i + 1;
    }
    (errors, values)
}

/// Holds the value of each entry against `values`: every violation, entry
/// after entry, and, where there is none, the produced entries.
pub fn validate_entries(defs: &Vec<Definition>, values: &Validator, entries: &Vec<(String, usize)>, heap: &Heap, ctx: &mut Context) -> (r: (
    Vec<Violation>,
    Vec<(String, Output)>,
))
    requires
        heap.wf(),
        registry_resolves(definitions_view(defs)),
        resolves(values@, definitions_view(defs)),
        entries_below(entries_view(entries), heap@.len() as int),
    ensures
        final(ctx)@ == old(ctx)@,
        violations_view(&r.0) == entries_errors(
            env_of(defs, heap, old(ctx)@),
            values@,
            entries_view(entries),
            entries@.len(),
            old(ctx)@.loc,
            old(ctx)@.guard,
        ),
        r.0.len() == 0 ==> out_entries_view(&r.1) == entries_values(
            env_of(defs, heap, old(ctx)@),
            values@,
            entries_view(entries),
            entries@.len(),
            old(ctx)@.loc,
            old(ctx)@.guard,
        ),
    decreases old(ctx).max_depth - old(ctx).guard.len(), values, 1nat,
{
    let ghost env = env_of(defs, heap, ctx@);
    let ghost loc = ctx@.loc;
    let ghost guard = ctx@.guard;
    let ghost model = entries_view(entries);
    let mut errors: Vec<Violation> = Vec::new();
    let mut outs: Vec<(String, Output)> = Vec::new();
    let mut i: usize = 0;
    assert(violations_view(&errors) =~= Seq::empty());
    assert(out_entries_view(&outs) =~= Seq::empty());
    while i < entries.len()
        invariant
            i <= entries.len(),
            heap.wf(),
            registry_resolves(definitions_view(defs)),
            resolves(values@, definitions_view(defs)),
            model == entries_view(entries),
            entries_below(model, heap@.len() as int),
            ctx@ == old(ctx)@,
            env == env_of(defs, heap, ctx@),
            loc == ctx@.loc,
            guard == ctx@.guard,
            violations_view(&errors) == entries_errors(env, values@, model, i as nat, loc, guard),
            errors.len() == 0 ==> out_entries_view(&outs) == entries_values(env, values@, model, i as nat, loc, guard),
        decreases entries.len() - i,
    {
        let ghost before_errors = violations_view(&errors);
        let ghost before_outs = out_entries_view(&outs);
        let key = &entries[i].0;
        let member = entries[i].1;
        assert(model[i as int] == (key@, member));
        ctx.loc.push(LocItem::Key(key.clone()));
        let out = validate_node(defs, values, heap, member, ctx);
        ctx.loc.pop();
        assert(ctx.loc@ =~= loc);
        assert(out@ == entry_outcome(env, values@, model, i as int, loc, guard));
        match out {
            Outcome::Value(o) => {
                if errors.len() == 0 {
                    outs.push((key.clone(), o));
                    assert(out_entries_view(&outs) =~= before_outs.push((key@, o@)));
                }
            },
            Outcome::Errors(e) => {
                append_violations(&mut errors, e);
            },
            _ => {},
        }
        assert(violations_view(&errors) =~= before_errors + crate::semantics::errors_of(out@));
        i = i + 1;
    }
    (errors, outs)
}

/// What a record makes of one declared field.
pub fn validate_field(defs: &Vec<Definition>, field: &Field, entries: &Vec<(String, usize)>, heap: &Heap, id: usize, ctx: &mut Context) -> (out: Outcome)
    requires
        heap.wf(),
        registry_resolves(definitions_view(defs)),
        resolves(field@.schema, definitions_view(defs)),
        entries_below(entries_view(entries), heap@.len() as int),
    ensures
        final(ctx)@ == old(ctx)@,
        out@ == field_outcome(
            env_of(defs, heap, old(ctx)@),
            field@,
            entries_view(entries),
            id,
            old(ctx)@.loc,
            old(ctx)@.guard,
        ),
    decreases old(ctx).max_depth - old(ctx).guard.len(), field, 0nat,
{
    match find_entry_of(entries, &field.name) {
        None => absent(field, &mut ctx.loc, id),
        Some(j) => {
            let member = entries[j].1;
            assert(entries_view(entries)[j as int].1 == member);
            ctx.loc.push(LocItem::Field(field.name.clone()));
            let out = validate_node(defs, &field.schema, heap, member, ctx);
            ctx.loc.pop();
            assert(ctx.loc@ =~= old(ctx).loc@);
            match out {
                Outcome::UseDefault => absent(field, &mut ctx.loc, id),
                out => out,
            }
        },
    }
}

/// Holds the input of a record against its declared fields: every violation,
/// field after field, and, where there is none, the produced entries.
pub fn validate_fields(defs: &Vec<Definition>, fields: &Vec<Field>, entries: &Vec<(String, usize)>, heap: &Heap, id: usize, ctx: &mut Context) -> (r: (
    Vec<Violation>,
    Vec<(String, Output)>,
))
    requires
        heap.wf(),
        registry_resolves(definitions_view(defs)),
        unresolved_in_fields(fields_view(fields), definitions_view(defs), fields@.len()) is None,
        entries_below(entries_view(entries), heap@.len() as int),
    ensures
        final(ctx)@ == old(ctx)@,
        violations_view(&r.0) == fields_errors(
            env_of(defs, heap, old(ctx)@),
            fields_view(fields),
            entries_view(entries),
            id,
            fields@.len(),
            old(ctx)@.loc,
            old(ctx)@.guard,
        ),
        r.0.len() == 0 ==> out_entries_view(&r.1) == fields_values(
            env_of(defs, heap, old(ctx)@),
            fields_view(fields),
            entries_view(entries),
            id,
            fields@.len(),
            old(ctx)@.loc,
            old(ctx)@.guard,
        ),
    decreases old(ctx).max_depth - old(ctx).guard.len(), fields, 0nat,
{
    let ghost env = env_of(defs, heap, ctx@);
    let ghost loc = ctx@.loc;
    let ghost guard = ctx@.guard;
    let ghost model = entries_view(entries);
    let ghost decl = fields_view(fields);
    let mut errors: Vec<Violation> = Vec::new();
    let mut outs: Vec<(String, Output)> = Vec::new();
    let mut i: usize = 0;
    assert(violations_view(&errors) =~= Seq::empty());
    assert(out_entries_view(&outs) =~= Seq::empty());
    while i < fields.len()
        invariant
            i <= fields.len(),
            heap.wf(),
            registry_resolves(definitions_view(defs)),
            unresolved_in_fields(fields_view(fields), definitions_view(defs), fields@.len()) is None,
            model == entries_view(entries),
            decl == fields_view(fields),
            entries_below(model, heap@.len() as int),
            ctx@ == old(ctx)@,
            env == env_of(defs, heap, ctx@),
            loc == ctx@.loc,
            guard == ctx@.guard,
            violations_view(&errors) == fields_errors(env, decl, model, id, i as nat, loc, guard),
            errors.len() == 0 ==> out_entries_view(&outs) == fields_values(env, decl, model, id, i as nat, loc, guard),
        decreases fields.len() - i,
    {
        let ghost before_errors = violations_view(&errors);
        let ghost before_outs = out_entries_view(&outs);
        let field = &fields[i];
        assert(decl[i as int] == field@);
        proof {
            lemma_field_resolves(decl, definitions_view(defs), fields@.len(), i as int);
        }
        let out = validate_field(defs, field, entries, heap, id, ctx);
        match out {
            Outcome::Value(o) => {
                if errors.len() == 0 {
                    outs.push((field.name.clone(), o));
                    assert(out_entries_view(&outs) =~= before_outs.push((field.name@, o@)));
                }
            },
            Outcome::Errors(e) => {
                append_violations(&mut errors, e);
            },
            _ => {},
        }
        assert(violations_view(&errors) =~= before_errors + crate::semantics::errors_of(out@));
        i = i + 1;
    }
    (errors, outs)
}

} // verus!
