//! Stores that hold the same values at other places: what validation gives
//! does not depend on where the values of the host were placed.

use crate::check::{as_literal, lemma_as_literal};
use crate::engine::{graph_env, validation};
use crate::errors::{LocItemModel, ReportModel, ViolationModel};
use crate::json::document::decoded;
use crate::names::lemma_first_index_below;
use crate::semantics::{
    entries_errors, entry_keys, entry_outcome, errors_of, extra_errors, field_outcome, fields_errors, find_entry,
    fires, item_outcome, items_errors, list_members, output_among, resolve, set_members, validate, Env, Guard,
    OutcomeModel,
};
use crate::validator::{ExtraPolicy, FieldModel, GraphModel, Mode, NodeModel, TriggerModel};
use crate::value::{entries_below, heap_closed, ids_below, ValueModel};
use vstd::prelude::*;

verus! {

/// The places in another store of the values at the places `ids`.
pub open spec fn moved_ids(ids: Seq<usize>, to: Seq<usize>) -> Seq<usize> {
    Seq::new(ids.len(), |i: int| to[ids[i] as int])
}

/// The entries of a mapping with the places of their values in another store.
pub open spec fn moved_entries(entries: Seq<(Seq<char>, usize)>, to: Seq<usize>) -> Seq<(Seq<char>, usize)> {
    Seq::new(entries.len(), |i: int| (entries[i].0, to[entries[i].1 as int]))
}

/// A value as it stands in another store: the same, holding the same
/// members in the same order, at the places that they have there.
pub open spec fn moved_value(v: ValueModel, to: Seq<usize>) -> ValueModel {
    match v {
        ValueModel::List(m) => ValueModel::List(moved_ids(m, to)),
        ValueModel::SetOf(m) => ValueModel::SetOf(moved_ids(m, to)),
        ValueModel::Dict(e) => ValueModel::Dict(moved_entries(e, to)),
        other => other,
    }
}

/// Whether no two places are sent to the same place.
pub open spec fn one_to_one(to: Seq<usize>) -> bool {
    forall|i: int, j: int| 0 <= i < to.len() && 0 <= j < to.len() && i != j ==> to[i] != to[j]
}

/// Whether store `b` holds every value of store `a`, the value at place `i`
/// of `a` at place `to[i]` of `b`, and different values at different places.
/// The order of the places need not be the same, and `b` may hold more.
pub open spec fn same_values(a: Seq<ValueModel>, b: Seq<ValueModel>, to: Seq<usize>) -> bool {
    &&& to.len() == a.len()
    &&& forall|i: int| 0 <= i < a.len() ==> (#[trigger] to[i]) < b.len() && b[to[i] as int] == moved_value(a[i], to)
    &&& one_to_one(to)
}

/// A guard with the places of its values in another store.
pub open spec fn moved_guard(guard: Guard, to: Seq<usize>) -> Guard {
    Seq::new(guard.len(), |i: int| (guard[i].0, to[guard[i].1 as int]))
}

/// Whether a guard names places below `bound` only.
pub open spec fn guard_within(guard: Guard, bound: int) -> bool {
    forall|i: int| 0 <= i < guard.len() ==> (#[trigger] guard[i]).1 < bound
}

/// A violation as it is reported of another store: of the same kind, at the
/// same location, with the same context and message; only the place of its
/// input is the place that the value has there.
pub open spec fn moved_violation(v: ViolationModel, to: Seq<usize>) -> ViolationModel {
    ViolationModel { input: to[v.input as int], ..v }
}

/// The violations of a list as they are reported of another store, in the
/// same order.
pub open spec fn moved_errors(errors: Seq<ViolationModel>, to: Seq<usize>) -> Seq<ViolationModel> {
    Seq::new(errors.len(), |i: int| moved_violation(errors[i], to))
}

/// Whether two outcomes are the same but for the places they name: both a
/// value, and the same scalar where the value is one; or both a failure with
/// the same violations in the same order; or both the same signal.
pub open spec fn alike(o1: OutcomeModel, o2: OutcomeModel, to: Seq<usize>) -> bool {
    match o1 {
        OutcomeModel::Value(a) => o2 matches OutcomeModel::Value(b) && as_literal(a) == as_literal(b),
        OutcomeModel::Errors(e) => o2 == OutcomeModel::Errors(moved_errors(e, to)),
        OutcomeModel::Omit => o2 is Omit,
        OutcomeModel::UseDefault => o2 is UseDefault,
    }
}

/// Whether two environments differ in their stores only.
pub open spec fn same_but_store(env1: Env, env2: Env) -> bool {
    env1.defs == env2.defs && env1.strict == env2.strict && env1.max_depth == env2.max_depth
}

/// The violations of two lists joined are reported of another store as the
/// violations of each, joined.
pub proof fn lemma_moved_joined(a: Seq<ViolationModel>, b: Seq<ViolationModel>, to: Seq<usize>)
    ensures
        moved_errors(a + b, to) == moved_errors(a, to) + moved_errors(b, to),
{
    assert(moved_errors(a + b, to) =~= moved_errors(a, to) + moved_errors(b, to));
}

/// Outcomes that are alike fail with violations that are alike.
pub proof fn lemma_alike_errors(o1: OutcomeModel, o2: OutcomeModel, to: Seq<usize>)
    requires
        alike(o1, o2, to),
    ensures
        errors_of(o2) == moved_errors(errors_of(o1), to),
{
    assert(errors_of(o2) =~= moved_errors(errors_of(o1), to));
}

/// A failure with one violation is alike to the failure with that violation
/// as it is reported of the other store.
pub proof fn lemma_fail_alike(v: ViolationModel, to: Seq<usize>)
    ensures
        alike(crate::semantics::fail(v), crate::semantics::fail(moved_violation(v, to)), to),
{
    assert(moved_errors(seq![v], to) =~= seq![moved_violation(v, to)]);
}

/// A guard holds a value of one store where the other store's guard holds
/// that value at its place there.
pub proof fn lemma_guard_moved(guard: Guard, to: Seq<usize>, d: usize, id: usize)
    requires
        one_to_one(to),
        guard_within(guard, to.len() as int),
        id < to.len(),
    ensures
        moved_guard(guard, to).len() == guard.len(),
        guard.contains((d, id)) <==> moved_guard(guard, to).contains((d, to[id as int])),
        moved_guard(guard.push((d, id)), to) == moved_guard(guard, to).push((d, to[id as int])),
        guard_within(guard.push((d, id)), to.len() as int),
{
    let moved = moved_guard(guard, to);
    if guard.contains((d, id)) {
        let j = choose|j: int| 0 <= j < guard.len() && guard[j] == (d, id);
        assert(moved[j] == (d, to[id as int]));
    }
    if moved.contains((d, to[id as int])) {
        let j = choose|j: int| 0 <= j < moved.len() && moved[j] == (d, to[id as int]);
        assert(guard[j].1 < to.len());
        assert(to[guard[j].1 as int] == to[id as int]);
        assert(guard[j].1 == id);
        assert(guard[j] == (d, id));
    }
    assert(moved_guard(guard.push((d, id)), to) =~= moved.push((d, to[id as int])));
    assert forall|i: int| 0 <= i < guard.push((d, id)).len() implies (#[trigger] guard.push((d, id))[i]).1 < to.len() by {
        if i < guard.len() {
            assert(guard.push((d, id))[i] == guard[i]);
        }
    }
}

/// Whether a check raises its signal is the same on outcomes that are alike.
pub proof fn lemma_fires_alike(trigger: TriggerModel, o1: OutcomeModel, o2: OutcomeModel, to: Seq<usize>)
    requires
        alike(o1, o2, to),
    ensures
        fires(trigger, o1) == fires(trigger, o2),
{
    match trigger {
        TriggerModel::Values(values) => {
            match (o1, o2) {
                (OutcomeModel::Value(a), OutcomeModel::Value(b)) => {
                    lemma_as_literal(a);
                    lemma_as_literal(b);
                    if output_among(values, a) {
                        let i = choose|i: int| 0 <= i < values.len() && crate::output::literal_output(#[trigger] values[i]) == a;
                        assert(as_literal(a) == Some(values[i]));
                        assert(crate::output::literal_output(values[i]) == b);
                    }
                    if output_among(values, b) {
                        let i = choose|i: int| 0 <= i < values.len() && crate::output::literal_output(#[trigger] values[i]) == b;
                        assert(as_literal(b) == Some(values[i]));
                        assert(crate::output::literal_output(values[i]) == a);
                    }
                },
                _ => {},
            }
        },
        _ => {},
    }
}

/// Where the values are the same, the outcome is the same: holding a value
/// against a node gives, in two stores that hold the same values at other
/// places, outcomes that are alike. Every violation is of the same kind, at
/// the same location, with the same context and message, in the same order.
pub proof fn law_same_values_same_outcome(
    env1: Env,
    env2: Env,
    to: Seq<usize>,
    node: NodeModel,
    id: usize,
    loc: Seq<LocItemModel>,
    guard: Guard,
)
    requires
        same_but_store(env1, env2),
        heap_closed(env1.heap),
        same_values(env1.heap, env2.heap, to),
        id < env1.heap.len(),
        guard_within(guard, env1.heap.len() as int),
    ensures
        alike(
            validate(env1, node, id, loc, guard),
            validate(env2, node, to[id as int], loc, moved_guard(guard, to)),
            to,
        ),
    decreases env1.max_depth - guard.len(), node, 0nat,
{
    let v1 = env1.heap[id as int];
    let id2 = to[id as int];
    let v2 = env2.heap[id2 as int];
    let g2 = moved_guard(guard, to);
    let bound = env1.heap.len() as int;
    assert(v2 == moved_value(v1, to));
    assert(v1.members_below(bound));
    let o1 = validate(env1, node, id, loc, guard);
    let o2 = validate(env2, node, id2, loc, g2);
    match node {
        NodeModel::List { items } => {
            match list_members(env1.strict, v1) {
                Some(members) => {
                    assert(list_members(env2.strict, v2) == Some(moved_ids(members, to)));
                    lemma_items_alike(env1, env2, to, *items, members, members.len(), loc, guard);
                },
                None => {
                    assert(list_members(env2.strict, v2) is None);
                    lemma_fail_alike(errors_of(o1)[0], to);
                },
            }
        },
        NodeModel::SetOf { items } => {
            match set_members(env1.strict, v1) {
                Some(members) => {
                    assert(set_members(env2.strict, v2) == Some(moved_ids(members, to)));
                    lemma_items_alike(env1, env2, to, *items, members, members.len(), loc, guard);
                },
                None => {
                    assert(set_members(env2.strict, v2) is None);
                    lemma_fail_alike(errors_of(o1)[0], to);
                },
            }
        },
        NodeModel::Dict { values } => {
            match v1 {
                ValueModel::Dict(entries) => {
                    lemma_entries_alike(env1, env2, to, *values, entries, entries.len(), loc, guard);
                },
                _ => {
                    lemma_fail_alike(errors_of(o1)[0], to);
                },
            }
        },
        NodeModel::Record { fields, extra } => {
            match v1 {
                ValueModel::Dict(entries) => {
                    lemma_fields_alike(env1, env2, to, fields, entries, id, fields.len(), loc, guard);
                    lemma_extras_alike(to, fields, entries, extra, entries.len(), loc);
                    lemma_moved_joined(
                        fields_errors(env1, fields, entries, id, fields.len(), loc, guard),
                        extra_errors(fields, entries, extra, entries.len(), loc),
                        to,
                    );
                },
                _ => {
                    lemma_fail_alike(errors_of(o1)[0], to);
                },
            }
        },
        NodeModel::Ref { name } => {
            match resolve(env1.defs, name) {
                None => {
                    lemma_fail_alike(errors_of(o1)[0], to);
                },
                Some(d) => {
                    lemma_guard_moved(guard, to, d, id);
                    if guard.contains((d, id)) || guard.len() >= env1.max_depth {
                        lemma_fail_alike(errors_of(o1)[0], to);
                    } else {
                        law_same_values_same_outcome(env1, env2, to, env1.defs[d as int].body, id, loc, guard.push((d, id)));
                    }
                },
            }
        },
        NodeModel::Nullable { inner } => {
            law_same_values_same_outcome(env1, env2, to, *inner, id, loc, guard);
        },
        NodeModel::WithDefault { inner, default } => {
            law_same_values_same_outcome(env1, env2, to, *inner, id, loc, guard);
        },
        NodeModel::Check { inner, trigger, signal } => {
            law_same_values_same_outcome(env1, env2, to, *inner, id, loc, guard);
            let i1 = validate(env1, *inner, id, loc, guard);
            let i2 = validate(env2, *inner, id2, loc, g2);
            lemma_fires_alike(trigger, i1, i2, to);
            if fires(trigger, i1) {
                if o1 is Errors {
                    lemma_fail_alike(errors_of(o1)[0], to);
                }
            }
        },
        _ => {
            if o1 is Errors {
                lemma_fail_alike(errors_of(o1)[0], to);
            }
        },
    }
}

/// The members of a sequence or a set yield violations that are alike in
/// two stores that hold the same values.
pub proof fn lemma_items_alike(
    env1: Env,
    env2: Env,
    to: Seq<usize>,
    items: NodeModel,
    members: Seq<usize>,
    n: nat,
    loc: Seq<LocItemModel>,
    guard: Guard,
)
    requires
        same_but_store(env1, env2),
        heap_closed(env1.heap),
        same_values(env1.heap, env2.heap, to),
        ids_below(members, env1.heap.len() as int),
        guard_within(guard, env1.heap.len() as int),
        n <= members.len(),
    ensures
        items_errors(env2, items, moved_ids(members, to), n, loc, moved_guard(guard, to)) == moved_errors(
            items_errors(env1, items, members, n, loc, guard),
            to,
        ),
    decreases env1.max_depth - guard.len(), items, n + 2,
{
    let g2 = moved_guard(guard, to);
    let members2 = moved_ids(members, to);
    if n > 0 {
        lemma_items_alike(env1, env2, to, items, members, (n - 1) as nat, loc, guard);
        assert(members[n - 1] < env1.heap.len());
        law_same_values_same_outcome(
            env1,
            env2,
            to,
            items,
            members[n - 1],
            loc.push(LocItemModel::Index((n - 1) as usize)),
            guard,
        );
        let o1 = item_outcome(env1, items, members, n - 1, loc, guard);
        let o2 = item_outcome(env2, items, members2, n - 1, loc, g2);
        assert(members2[n - 1] == to[members[n - 1] as int]);
        lemma_alike_errors(o1, o2, to);
        lemma_moved_joined(items_errors(env1, items, members, (n - 1) as nat, loc, guard), errors_of(o1), to);
    } else {
        assert(moved_errors(Seq::empty(), to) =~= Seq::empty());
    }
}

/// The values of a mapping yield violations that are alike in two stores
/// that hold the same values.
pub proof fn lemma_entries_alike(
    env1: Env,
    env2: Env,
    to: Seq<usize>,
    values: NodeModel,
    entries: Seq<(Seq<char>, usize)>,
    n: nat,
    loc: Seq<LocItemModel>,
    guard: Guard,
)
    requires
        same_but_store(env1, env2),
        heap_closed(env1.heap),
        same_values(env1.heap, env2.heap, to),
        entries_below(entries, env1.heap.len() as int),
        guard_within(guard, env1.heap.len() as int),
        n <= entries.len(),
    ensures
        entries_errors(env2, values, moved_entries(entries, to), n, loc, moved_guard(guard, to)) == moved_errors(
            entries_errors(env1, values, entries, n, loc, guard),
            to,
        ),
    decreases env1.max_depth - guard.len(), values, n + 2,
{
    let g2 = moved_guard(guard, to);
    let entries2 = moved_entries(entries, to);
    if n > 0 {
        lemma_entries_alike(env1, env2, to, values, entries, (n - 1) as nat, loc, guard);
        assert(entries[n - 1].1 < env1.heap.len());
        law_same_values_same_outcome(
            env1,
            env2,
            to,
            values,
            entries[n - 1].1,
            loc.push(LocItemModel::Key(entries[n - 1].0)),
            guard,
        );
        let o1 = entry_outcome(env1, values, entries, n - 1, loc, guard);
        let o2 = entry_outcome(env2, values, entries2, n - 1, loc, g2);
        assert(entries2[n - 1] == (entries[n - 1].0, to[entries[n - 1].1 as int]));
        lemma_alike_errors(o1, o2, to);
        lemma_moved_joined(entries_errors(env1, values, entries, (n - 1) as nat, loc, guard), errors_of(o1), to);
    } else {
        assert(moved_errors(Seq::empty(), to) =~= Seq::empty());
    }
}

/// What a record makes of one of its fields is alike in two stores that
/// hold the same values.
pub proof fn lemma_field_alike(
    env1: Env,
    env2: Env,
    to: Seq<usize>,
    field: FieldModel,
    entries: Seq<(Seq<char>, usize)>,
    id: usize,
    loc: Seq<LocItemModel>,
    guard: Guard,
)
    requires
        same_but_store(env1, env2),
        heap_closed(env1.heap),
        same_values(env1.heap, env2.heap, to),
        id < env1.heap.len(),
        entries_below(entries, env1.heap.len() as int),
        guard_within(guard, env1.heap.len() as int),
    ensures
        alike(
            field_outcome(env1, field, entries, id, loc, guard),
            field_outcome(env2, field, moved_entries(entries, to), to[id as int], loc, moved_guard(guard, to)),
            to,
        ),
    decreases env1.max_depth - guard.len(), field, 0nat,
{
    let entries2 = moved_entries(entries, to);
    assert(entry_keys(entries2) =~= entry_keys(entries));
    let missing = crate::errors::violation::plain(
        crate::errors::ErrorKind::Missing,
        loc.push(LocItemModel::Field(field.name)),
        id,
    );
    lemma_fail_alike(missing, to);
    match find_entry(entries, field.name) {
        None => {},
        Some(j) => {
            lemma_first_index_below(entry_keys(entries), field.name, entries.len());
            assert(entries[j as int].1 < env1.heap.len());
            assert(entries2[j as int].1 == to[entries[j as int].1 as int]);
            law_same_values_same_outcome(
                env1,
                env2,
                to,
                field.schema,
                entries[j as int].1,
                loc.push(LocItemModel::Field(field.name)),
                guard,
            );
        },
    }
}

/// The fields of a record yield violations that are alike in two stores
/// that hold the same values.
pub proof fn lemma_fields_alike(
    env1: Env,
    env2: Env,
    to: Seq<usize>,
    fields: Seq<FieldModel>,
    entries: Seq<(Seq<char>, usize)>,
    id: usize,
    n: nat,
    loc: Seq<LocItemModel>,
    guard: Guard,
)
    requires
        same_but_store(env1, env2),
        heap_closed(env1.heap),
        same_values(env1.heap, env2.heap, to),
        id < env1.heap.len(),
        entries_below(entries, env1.heap.len() as int),
        guard_within(guard, env1.heap.len() as int),
        n <= fields.len(),
    ensures
        fields_errors(env2, fields, moved_entries(entries, to), to[id as int], n, loc, moved_guard(guard, to))
            == moved_errors(fields_errors(env1, fields, entries, id, n, loc, guard), to),
    decreases env1.max_depth - guard.len(), fields, n,
{
    if n > 0 {
        lemma_fields_alike(env1, env2, to, fields, entries, id, (n - 1) as nat, loc, guard);
        lemma_field_alike(env1, env2, to, fields[n - 1], entries, id, loc, guard);
        let o1 = field_outcome(env1, fields[n - 1], entries, id, loc, guard);
        let o2 = field_outcome(env2, fields[n - 1], moved_entries(entries, to), to[id as int], loc, moved_guard(guard, to));
        lemma_alike_errors(o1, o2, to);
        lemma_moved_joined(fields_errors(env1, fields, entries, id, (n - 1) as nat, loc, guard), errors_of(o1), to);
    } else {
        assert(moved_errors(Seq::empty(), to) =~= Seq::empty());
    }
}

/// What a record makes of undeclared keys is alike in two stores that hold
/// the same values.
pub proof fn lemma_extras_alike(
    to: Seq<usize>,
    fields: Seq<FieldModel>,
    entries: Seq<(Seq<char>, usize)>,
    extra: ExtraPolicy,
    n: nat,
    loc: Seq<LocItemModel>,
)
    requires
        n <= entries.len(),
    ensures
        extra_errors(fields, moved_entries(entries, to), extra, n, loc) == moved_errors(
            extra_errors(fields, entries, extra, n, loc),
            to,
        ),
    decreases n,
{
    if n > 0 {
        lemma_extras_alike(to, fields, entries, extra, (n - 1) as nat, loc);
        let entries2 = moved_entries(entries, to);
        assert(entries2[n - 1] == (entries[n - 1].0, to[entries[n - 1].1 as int]));
        assert(extra_errors(fields, entries2, extra, n, loc) =~= moved_errors(
            extra_errors(fields, entries, extra, n, loc),
            to,
        ));
    } else {
        assert(moved_errors(Seq::empty(), to) =~= Seq::empty());
    }
}

/// Whether two reports are the same but for the places of the inputs: of
/// the same schema, with the same number of violations, each of the same
/// kind, at the same location, with the same context and message as the one
/// at its place in the other.
pub open spec fn reports_alike(r1: ReportModel, r2: ReportModel, to: Seq<usize>) -> bool {
    r1.title == r2.title && r2.violations == moved_errors(r1.violations, to)
}

/// Reports that are alike count the same, and agree violation by violation
/// in kind, location, context and message.
pub proof fn lemma_reports_alike(r1: ReportModel, r2: ReportModel, to: Seq<usize>)
    requires
        reports_alike(r1, r2, to),
    ensures
        r1.violations.len() == r2.violations.len(),
        forall|j: int|
            0 <= j < r1.violations.len() ==> {
                &&& (#[trigger] r2.violations[j]).kind == r1.violations[j].kind
                &&& r2.violations[j].loc == r1.violations[j].loc
                &&& r2.violations[j].context == r1.violations[j].context
                &&& r2.violations[j].message == r1.violations[j].message
                &&& r2.violations[j].input == to[r1.violations[j].input as int]
            },
{
}

/// What validation reports does not depend on the order in which the store
/// holds the values: in two stores that hold the same values at other
/// places, a value is valid in both or in neither, and where it is not, the
/// two reports agree in the number of violations and, one by one, in kind,
/// location, context and message.
pub proof fn law_store_order_does_not_matter(
    graph: GraphModel,
    heap1: Seq<ValueModel>,
    heap2: Seq<ValueModel>,
    to: Seq<usize>,
    id: usize,
    mode: Mode,
)
    requires
        heap_closed(heap1),
        same_values(heap1, heap2, to),
        id < heap1.len(),
    ensures
        validation(graph, heap1, id, mode) is Ok <==> validation(graph, heap2, to[id as int], mode) is Ok,
        validation(graph, heap1, id, mode) matches Err(r1) ==> validation(graph, heap2, to[id as int], mode) matches Err(r2)
            && reports_alike(r1, r2, to) && r1.violations.len() == r2.violations.len() && forall|j: int|
            0 <= j < r1.violations.len() ==> {
                &&& (#[trigger] r2.violations[j]).kind == r1.violations[j].kind
                &&& r2.violations[j].loc == r1.violations[j].loc
                &&& r2.violations[j].context == r1.violations[j].context
                &&& r2.violations[j].message == r1.violations[j].message
            },
{
    if validation(graph, heap1, id, mode) is Err && validation(graph, heap2, to[id as int], mode) is Err {
        let r1 = validation(graph, heap1, id, mode)->Err_0;
        let r2 = validation(graph, heap2, to[id as int], mode)->Err_0;
        if reports_alike(r1, r2, to) {
            lemma_reports_alike(r1, r2, to);
        }
    }
    let env1 = graph_env(graph, heap1, mode);
    let env2 = graph_env(graph, heap2, mode);
    let none = Seq::<(usize, usize)>::empty();
    assert(moved_guard(none, to) =~= none);
    law_same_values_same_outcome(env1, env2, to, graph.root, id, Seq::empty(), none);
    let o1 = validate(env1, graph.root, id, Seq::empty(), none);
    if !(o1 is Value) && !(o1 is Errors) {
        let v = crate::errors::violation::plain(
            if o1 is Omit {
                crate::errors::ErrorKind::OmitUncaught
            } else {
                crate::errors::ErrorKind::UseDefaultUncaught
            },
            Seq::empty(),
            id,
        );
        assert(moved_errors(seq![v], to) =~= seq![moved_violation(v, to)]);
    }
}

/// Text and value agree on any store: a document is reported on as the
/// values that it writes are, in whatever order a store holds them.
pub proof fn law_text_agrees_with_any_store_of_its_values(
    graph: GraphModel,
    text: Seq<u8>,
    written: Seq<ValueModel>,
    root: usize,
    heap: Seq<ValueModel>,
    to: Seq<usize>,
    mode: Mode,
)
    requires
        decoded(text) == Some((written, root)),
        heap_closed(written),
        root < written.len(),
        same_values(written, heap, to),
    ensures
        crate::engine::text_validation(graph, text, mode) is Ok <==> validation(graph, heap, to[root as int], mode) is Ok,
        crate::engine::text_validation(graph, text, mode) matches Err(r1) ==> validation(graph, heap, to[root as int], mode) matches Err(
            r2,
        ) && reports_alike(r1, r2, to) && r1.violations.len() == r2.violations.len(),
{
    law_store_order_does_not_matter(graph, written, heap, to, root, mode);
}

} // verus!
