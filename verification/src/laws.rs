//! What holds of validation, whatever the schema and the value.

use crate::errors::{ErrorKind, LocItemModel, ViolationModel};
use crate::output::{literal_output, OutputModel};
use crate::semantics::{
    declared, default_of, distinct, entries_errors, entries_values, entry_outcome, errors_of, extra_errors, extra_values,
    field_outcome, fields_errors, fields_values, find_entry, fires, item_outcome, items_errors, items_values,
    literal_matches, resolve, validate, Env, Guard, OutcomeModel,
};
use crate::validator::{ExtraPolicy, FieldModel, NodeModel, SignalModel};
use crate::value::{entries_below, heap_closed, ids_below, LiteralModel, ValueModel};
use vstd::prelude::*;

verus! {

/// A failure holds at least one violation: an outcome is never an empty list
/// of violations.
pub proof fn lemma_errors_nonempty(env: Env, node: NodeModel, id: usize, loc: Seq<LocItemModel>, guard: Guard)
    ensures
        validate(env, node, id, loc, guard) matches OutcomeModel::Errors(e) ==> e.len() > 0,
    decreases env.max_depth - guard.len(), node,
{
    match node {
        NodeModel::Ref { name } => {
            match crate::semantics::resolve(env.defs, name) {
                None => {},
                Some(d) => {
                    if guard.contains((d, id)) || guard.len() >= env.max_depth {
                    } else {
                        lemma_errors_nonempty(env, env.defs[d as int].body, id, loc, guard.push((d, id)));
                    }
                },
            }
        },
        NodeModel::Nullable { inner } => {
            lemma_errors_nonempty(env, *inner, id, loc, guard);
        },
        NodeModel::WithDefault { inner, default } => {
            lemma_errors_nonempty(env, *inner, id, loc, guard);
        },
        NodeModel::Check { inner, trigger, signal } => {
            lemma_errors_nonempty(env, *inner, id, loc, guard);
        },
        _ => {},
    }
}

/// What a record makes of a field is never an empty list of violations.
pub proof fn lemma_field_errors_nonempty(
    env: Env,
    field: FieldModel,
    entries: Seq<(Seq<char>, usize)>,
    id: usize,
    loc: Seq<LocItemModel>,
    guard: Guard,
)
    ensures
        field_outcome(env, field, entries, id, loc, guard) matches OutcomeModel::Errors(e) ==> e.len() > 0,
{
    match crate::semantics::find_entry(entries, field.name) {
        None => {},
        Some(j) => {
            lemma_errors_nonempty(env, field.schema, entries[j as int].1, loc.push(LocItemModel::Field(field.name)), guard);
        },
    }
}

/// The violations of the first members of a sequence are the first of the
/// violations of more of its members: none is dropped as the walk goes on.
pub proof fn lemma_items_errors_grow(
    env: Env,
    items: NodeModel,
    members: Seq<usize>,
    m: nat,
    n: nat,
    loc: Seq<LocItemModel>,
    guard: Guard,
)
    requires
        m <= n <= members.len(),
    ensures
        items_errors(env, items, members, m, loc, guard).is_prefix_of(items_errors(env, items, members, n, loc, guard)),
    decreases n - m,
{
    if m < n {
        lemma_items_errors_grow(env, items, members, m, (n - 1) as nat, loc, guard);
    }
}

/// The violations of the first entries of a mapping are the first of the
/// violations of more of its entries.
pub proof fn lemma_entries_errors_grow(
    env: Env,
    values: NodeModel,
    entries: Seq<(Seq<char>, usize)>,
    m: nat,
    n: nat,
    loc: Seq<LocItemModel>,
    guard: Guard,
)
    requires
        m <= n <= entries.len(),
    ensures
        entries_errors(env, values, entries, m, loc, guard).is_prefix_of(entries_errors(env, values, entries, n, loc, guard)),
    decreases n - m,
{
    if m < n {
        lemma_entries_errors_grow(env, values, entries, m, (n - 1) as nat, loc, guard);
    }
}

/// The violations of the first fields of a record are the first of the
/// violations of more of its fields.
pub proof fn lemma_fields_errors_grow(
    env: Env,
    fields: Seq<FieldModel>,
    entries: Seq<(Seq<char>, usize)>,
    id: usize,
    m: nat,
    n: nat,
    loc: Seq<LocItemModel>,
    guard: Guard,
)
    requires
        m <= n <= fields.len(),
    ensures
        fields_errors(env, fields, entries, id, m, loc, guard).is_prefix_of(
            fields_errors(env, fields, entries, id, n, loc, guard),
        ),
    decreases n - m,
{
    if m < n {
        lemma_fields_errors_grow(env, fields, entries, id, m, (n - 1) as nat, loc, guard);
    }
}

/// The violations for the first undeclared keys of a record's input are the
/// first of the violations for more of them.
pub proof fn lemma_extra_errors_grow(
    fields: Seq<FieldModel>,
    entries: Seq<(Seq<char>, usize)>,
    extra: ExtraPolicy,
    m: nat,
    n: nat,
    loc: Seq<LocItemModel>,
)
    requires
        m <= n <= entries.len(),
    ensures
        extra_errors(fields, entries, extra, m, loc).is_prefix_of(extra_errors(fields, entries, extra, n, loc)),
    decreases n - m,
{
    if m < n {
        lemma_extra_errors_grow(fields, entries, extra, m, (n - 1) as nat, loc);
    }
}

/// How many of the first `n` members of a sequence or a set fail `items`.
pub open spec fn failing_items(env: Env, items: NodeModel, members: Seq<usize>, n: nat, loc: Seq<LocItemModel>, guard: Guard) -> nat
    decreases n,
{
    if n == 0 || n > members.len() {
        0
    } else {
        failing_items(env, items, members, (n - 1) as nat, loc, guard) + if item_outcome(
            env,
            items,
            members,
            n - 1,
            loc,
            guard,
        ) is Errors {
            1nat
        } else {
            0nat
        }
    }
}

/// How many of the first `n` entries of a mapping hold a value that fails `values`.
pub open spec fn failing_entries(
    env: Env,
    values: NodeModel,
    entries: Seq<(Seq<char>, usize)>,
    n: nat,
    loc: Seq<LocItemModel>,
    guard: Guard,
) -> nat
    decreases n,
{
    if n == 0 || n > entries.len() {
        0
    } else {
        failing_entries(env, values, entries, (n - 1) as nat, loc, guard) + if entry_outcome(
            env,
            values,
            entries,
            n - 1,
            loc,
            guard,
        ) is Errors {
            1nat
        } else {
            0nat
        }
    }
}

/// No member is passed over once one has failed: where every member that
/// fails yields exactly one violation, the first `n` members yield as many
/// violations as there are failing members among them.
pub proof fn law_items_report_every_failure(
    env: Env,
    items: NodeModel,
    members: Seq<usize>,
    n: nat,
    loc: Seq<LocItemModel>,
    guard: Guard,
)
    requires
        n <= members.len(),
        forall|i: int|
            0 <= i < n ==> (#[trigger] item_outcome(env, items, members, i, loc, guard) matches OutcomeModel::Errors(e)
                ==> e.len() == 1),
    ensures
        items_errors(env, items, members, n, loc, guard).len() == failing_items(env, items, members, n, loc, guard),
    decreases n,
{
    if n > 0 {
        law_items_report_every_failure(env, items, members, (n - 1) as nat, loc, guard);
        let o = item_outcome(env, items, members, n - 1, loc, guard);
        assert(o is Errors ==> errors_of(o).len() == 1);
    }
}

/// The same of a mapping: where every value that fails yields exactly one
/// violation, the first `n` entries yield as many violations as there are
/// failing values among them.
pub proof fn law_entries_report_every_failure(
    env: Env,
    values: NodeModel,
    entries: Seq<(Seq<char>, usize)>,
    n: nat,
    loc: Seq<LocItemModel>,
    guard: Guard,
)
    requires
        n <= entries.len(),
        forall|i: int|
            0 <= i < n ==> (#[trigger] entry_outcome(env, values, entries, i, loc, guard) matches OutcomeModel::Errors(e)
                ==> e.len() == 1),
    ensures
        entries_errors(env, values, entries, n, loc, guard).len() == failing_entries(env, values, entries, n, loc, guard),
    decreases n,
{
    if n > 0 {
        law_entries_report_every_failure(env, values, entries, (n - 1) as nat, loc, guard);
        let o = entry_outcome(env, values, entries, n - 1, loc, guard);
        assert(o is Errors ==> errors_of(o).len() == 1);
    }
}

/// A sequence with `k` invalid members, each of which yields exactly one
/// violation, is reported with exactly `k` violations, and is valid only
/// where `k` is zero.
pub proof fn law_sequence_counts_invalid_members(
    env: Env,
    items: NodeModel,
    id: usize,
    members: Seq<usize>,
    loc: Seq<LocItemModel>,
    guard: Guard,
)
    requires
        crate::semantics::list_members(env.strict, env.heap[id as int]) == Some(members),
        forall|i: int|
            0 <= i < members.len() ==> (#[trigger] item_outcome(env, items, members, i, loc, guard) matches OutcomeModel::Errors(
                e,
            ) ==> e.len() == 1),
    ensures
        errors_of(validate(env, NodeModel::List { items: Box::new(items) }, id, loc, guard)).len() == failing_items(
            env,
            items,
            members,
            members.len(),
            loc,
            guard,
        ),
        validate(env, NodeModel::List { items: Box::new(items) }, id, loc, guard) is Value <==> failing_items(
            env,
            items,
            members,
            members.len(),
            loc,
            guard,
        ) == 0,
{
    law_items_report_every_failure(env, items, members, members.len(), loc, guard);
}

/// A set with `k` invalid members, each of which yields exactly one
/// violation, is reported with exactly `k` violations.
pub proof fn law_set_counts_invalid_members(
    env: Env,
    items: NodeModel,
    id: usize,
    members: Seq<usize>,
    loc: Seq<LocItemModel>,
    guard: Guard,
)
    requires
        crate::semantics::set_members(env.strict, env.heap[id as int]) == Some(members),
        forall|i: int|
            0 <= i < members.len() ==> (#[trigger] item_outcome(env, items, members, i, loc, guard) matches OutcomeModel::Errors(
                e,
            ) ==> e.len() == 1),
    ensures
        errors_of(validate(env, NodeModel::SetOf { items: Box::new(items) }, id, loc, guard)).len() == failing_items(
            env,
            items,
            members,
            members.len(),
            loc,
            guard,
        ),
        validate(env, NodeModel::SetOf { items: Box::new(items) }, id, loc, guard) is Value <==> failing_items(
            env,
            items,
            members,
            members.len(),
            loc,
            guard,
        ) == 0,
{
    law_items_report_every_failure(env, items, members, members.len(), loc, guard);
}

/// A mapping with `k` invalid values, each of which yields exactly one
/// violation, is reported with exactly `k` violations.
pub proof fn law_mapping_counts_invalid_values(
    env: Env,
    values: NodeModel,
    id: usize,
    entries: Seq<(Seq<char>, usize)>,
    loc: Seq<LocItemModel>,
    guard: Guard,
)
    requires
        env.heap[id as int] == crate::value::ValueModel::Dict(entries),
        forall|i: int|
            0 <= i < entries.len() ==> (#[trigger] entry_outcome(env, values, entries, i, loc, guard) matches OutcomeModel::Errors(
                e,
            ) ==> e.len() == 1),
    ensures
        errors_of(validate(env, NodeModel::Dict { values: Box::new(values) }, id, loc, guard)).len() == failing_entries(
            env,
            values,
            entries,
            entries.len(),
            loc,
            guard,
        ),
        validate(env, NodeModel::Dict { values: Box::new(values) }, id, loc, guard) is Value <==> failing_entries(
            env,
            values,
            entries,
            entries.len(),
            loc,
            guard,
        ) == 0,
{
    law_entries_report_every_failure(env, values, entries, entries.len(), loc, guard);
}

/// Whether a node is one of the scalar kinds or a list of constants.
pub open spec fn is_scalar_node(node: NodeModel) -> bool {
    node is Null || node is Bool || node is Int || node is Float || node is Str || node is Bytes || node is Literal
}

/// A scalar that fails yields exactly one violation, at the location it was
/// looked at and naming the value that failed.
pub proof fn law_scalar_fails_once(env: Env, node: NodeModel, id: usize, loc: Seq<LocItemModel>, guard: Guard)
    requires
        is_scalar_node(node),
    ensures
        validate(env, node, id, loc, guard) is Value || validate(env, node, id, loc, guard) is Errors,
        validate(env, node, id, loc, guard) matches OutcomeModel::Errors(e) ==> e.len() == 1 && e[0].loc == loc && e[0].input
            == id,
{
}

/// A sequence of scalars with `k` invalid members is reported with exactly
/// `k` violations: the walk does not stop at the first.
pub proof fn law_sequence_of_scalars_counts_invalid_members(
    env: Env,
    items: NodeModel,
    id: usize,
    members: Seq<usize>,
    loc: Seq<LocItemModel>,
    guard: Guard,
)
    requires
        is_scalar_node(items),
        crate::semantics::list_members(env.strict, env.heap[id as int]) == Some(members),
    ensures
        errors_of(validate(env, NodeModel::List { items: Box::new(items) }, id, loc, guard)).len() == failing_items(
            env,
            items,
            members,
            members.len(),
            loc,
            guard,
        ),
{
    assert forall|i: int| 0 <= i < members.len() implies (#[trigger] item_outcome(env, items, members, i, loc, guard) matches OutcomeModel::Errors(
        e,
    ) ==> e.len() == 1) by {
        law_scalar_fails_once(env, items, members[i], loc.push(LocItemModel::Index(i as usize)), guard);
    }
    law_sequence_counts_invalid_members(env, items, id, members, loc, guard);
}

/// How many of the first `n` entries of a record's input stand under a key
/// that the record does not declare.
pub open spec fn undeclared_keys(fields: Seq<FieldModel>, entries: Seq<(Seq<char>, usize)>, n: nat) -> nat
    decreases n,
{
    if n == 0 || n > entries.len() {
        0
    } else {
        undeclared_keys(fields, entries, (n - 1) as nat) + if declared(fields, entries[n - 1].0) {
            0nat
        } else {
            1nat
        }
    }
}

/// The places, among the first `n` entries of a record's input, of those
/// that stand under a key that the record does not declare, in their order.
pub open spec fn undeclared_places(fields: Seq<FieldModel>, entries: Seq<(Seq<char>, usize)>, n: nat) -> Seq<int>
    decreases n,
{
    if n == 0 || n > entries.len() {
        Seq::empty()
    } else {
        let before = undeclared_places(fields, entries, (n - 1) as nat);
        if declared(fields, entries[n - 1].0) {
            before
        } else {
            before.push(n - 1)
        }
    }
}

/// The violation for the entry at place `i` of a record's input, where the
/// record rejects its key: of the kind for it, at the key, and naming the
/// value of the entry.
pub open spec fn rejection(entries: Seq<(Seq<char>, usize)>, i: int, loc: Seq<LocItemModel>) -> ViolationModel {
    crate::errors::violation::plain(ErrorKind::ExtraForbidden, loc.push(LocItemModel::Key(entries[i].0)), entries[i].1)
}

/// The places of the undeclared entries go up, are places of undeclared
/// entries among the first `n`, and leave none of those out.
pub proof fn lemma_undeclared_places(fields: Seq<FieldModel>, entries: Seq<(Seq<char>, usize)>, n: nat)
    requires
        n <= entries.len(),
    ensures
        undeclared_places(fields, entries, n).len() == undeclared_keys(fields, entries, n),
        forall|j: int|
            0 <= j < undeclared_places(fields, entries, n).len() ==> 0 <= (#[trigger] undeclared_places(fields, entries, n)[j])
                < n && !declared(fields, entries[undeclared_places(fields, entries, n)[j]].0),
        forall|j: int, k: int|
            0 <= j < k < undeclared_places(fields, entries, n).len() ==> (#[trigger] undeclared_places(fields, entries, n)[j])
                < (#[trigger] undeclared_places(fields, entries, n)[k]),
        forall|i: int|
            0 <= i < n && !declared(fields, (#[trigger] entries[i]).0) ==> undeclared_places(fields, entries, n).contains(i),
    decreases n,
{
    if n > 0 {
        lemma_undeclared_places(fields, entries, (n - 1) as nat);
        let before = undeclared_places(fields, entries, (n - 1) as nat);
        let now = undeclared_places(fields, entries, n);
        assert forall|i: int| 0 <= i < n && !declared(fields, (#[trigger] entries[i]).0) implies now.contains(i) by {
            if i < n - 1 {
                assert(before.contains(i));
                let at = choose|at: int| 0 <= at < before.len() && before[at] == i;
                assert(now[at] == i);
            } else {
                assert(now[now.len() - 1] == i);
            }
        }
    }
}

/// A record that rejects undeclared keys yields one violation for each entry
/// under such a key and no other: in the order of the entries, each of the
/// kind for it, at the key of its entry, and naming the value of its entry.
pub proof fn law_extra_errors_one_per_key(fields: Seq<FieldModel>, entries: Seq<(Seq<char>, usize)>, n: nat, loc: Seq<LocItemModel>)
    requires
        n <= entries.len(),
    ensures
        extra_errors(fields, entries, ExtraPolicy::Reject, n, loc).len() == undeclared_keys(fields, entries, n),
        extra_errors(fields, entries, ExtraPolicy::Reject, n, loc).len() == undeclared_places(fields, entries, n).len(),
        forall|j: int|
            0 <= j < extra_errors(fields, entries, ExtraPolicy::Reject, n, loc).len() ==> (#[trigger] extra_errors(
                fields,
                entries,
                ExtraPolicy::Reject,
                n,
                loc,
            )[j]) == rejection(entries, undeclared_places(fields, entries, n)[j], loc),
        forall|j: int|
            0 <= j < extra_errors(fields, entries, ExtraPolicy::Reject, n, loc).len() ==> exists|i: int|
                0 <= i < n && !declared(fields, entries[i].0) && (#[trigger] extra_errors(
                    fields,
                    entries,
                    ExtraPolicy::Reject,
                    n,
                    loc,
                )[j]) == #[trigger] rejection(entries, i, loc),
        forall|i: int|
            0 <= i < n && !declared(fields, entries[i].0) ==> extra_errors(fields, entries, ExtraPolicy::Reject, n, loc).contains(
                #[trigger] rejection(entries, i, loc),
            ),
        forall|j: int|
            0 <= j < extra_errors(fields, entries, ExtraPolicy::Reject, n, loc).len() ==> (#[trigger] extra_errors(
                fields,
                entries,
                ExtraPolicy::Reject,
                n,
                loc,
            )[j]).kind == ErrorKind::ExtraForbidden,
    decreases n,
{
    lemma_undeclared_places(fields, entries, n);
    let errors = extra_errors(fields, entries, ExtraPolicy::Reject, n, loc);
    let places = undeclared_places(fields, entries, n);
    if n > 0 {
        law_extra_errors_one_per_key(fields, entries, (n - 1) as nat, loc);
        let before = extra_errors(fields, entries, ExtraPolicy::Reject, (n - 1) as nat, loc);
        let places_before = undeclared_places(fields, entries, (n - 1) as nat);
        assert forall|j: int| 0 <= j < errors.len() implies (#[trigger] errors[j]) == rejection(entries, places[j], loc) by {
            if j < before.len() {
                assert(errors[j] == before[j]);
                assert(places[j] == places_before[j]);
            }
        }
    }
    assert forall|j: int| 0 <= j < errors.len() implies exists|i: int|
        0 <= i < n && !declared(fields, entries[i].0) && (#[trigger] errors[j]) == #[trigger] rejection(entries, i, loc) by {
        let i = places[j];
        assert(0 <= i < n && !declared(fields, entries[i].0) && errors[j] == rejection(entries, i, loc));
    }
    assert forall|i: int| 0 <= i < n && !declared(fields, entries[i].0) implies errors.contains(
        #[trigger] rejection(entries, i, loc),
    ) by {
        assert(places.contains(i));
        let at = choose|at: int| 0 <= at < places.len() && places[at] == i;
        assert(errors[at] == rejection(entries, i, loc));
    }
}

/// A record that rejects undeclared keys reports one violation for each of
/// them, whatever becomes of its declared fields: its violations are those
/// of the declared fields, then one for each undeclared key.
pub proof fn law_record_rejects_each_undeclared_key(
    env: Env,
    fields: Seq<FieldModel>,
    id: usize,
    entries: Seq<(Seq<char>, usize)>,
    loc: Seq<LocItemModel>,
    guard: Guard,
)
    requires
        env.heap[id as int] == ValueModel::Dict(entries),
    ensures
        errors_of(validate(env, NodeModel::Record { fields, extra: ExtraPolicy::Reject }, id, loc, guard)) == fields_errors(
            env,
            fields,
            entries,
            id,
            fields.len(),
            loc,
            guard,
        ) + extra_errors(fields, entries, ExtraPolicy::Reject, entries.len(), loc),
        errors_of(validate(env, NodeModel::Record { fields, extra: ExtraPolicy::Reject }, id, loc, guard)).len()
            == fields_errors(env, fields, entries, id, fields.len(), loc, guard).len() + undeclared_keys(
            fields,
            entries,
            entries.len(),
        ),
        undeclared_keys(fields, entries, entries.len()) > 0 ==> validate(
            env,
            NodeModel::Record { fields, extra: ExtraPolicy::Reject },
            id,
            loc,
            guard,
        ) is Errors,
{
    law_extra_errors_one_per_key(fields, entries, entries.len(), loc);
    let all = fields_errors(env, fields, entries, id, fields.len(), loc, guard) + extra_errors(
        fields,
        entries,
        ExtraPolicy::Reject,
        entries.len(),
        loc,
    );
    if all.len() == 0 {
        assert(all =~= Seq::empty());
    }
}

/// The value of the host that a constant is.
pub open spec fn literal_value(literal: LiteralModel) -> ValueModel {
    match literal {
        LiteralModel::Null => ValueModel::Null,
        LiteralModel::Bool(b) => ValueModel::Bool(b),
        LiteralModel::Int(i) => ValueModel::Int(i),
        LiteralModel::Str(s) => ValueModel::Str(s),
        LiteralModel::Bytes(b) => ValueModel::Bytes(b),
    }
}

/// Whether a value and a constant are of the same scalar kind.
pub open spec fn same_kind(literal: LiteralModel, v: ValueModel) -> bool {
    match (literal, v) {
        (LiteralModel::Null, ValueModel::Null) => true,
        (LiteralModel::Bool(_), ValueModel::Bool(_)) => true,
        (LiteralModel::Int(_), ValueModel::Int(_)) => true,
        (LiteralModel::Str(_), ValueModel::Str(_)) => true,
        (LiteralModel::Bytes(_), ValueModel::Bytes(_)) => true,
        _ => false,
    }
}

/// A list of constants accepts each of its own: a value that is one of the
/// constants is valid and comes back unchanged, in either mode.
pub proof fn law_literal_accepts_its_own(
    env: Env,
    expected: Seq<LiteralModel>,
    k: int,
    id: usize,
    loc: Seq<LocItemModel>,
    guard: Guard,
)
    requires
        0 <= k < expected.len(),
        env.heap[id as int] == literal_value(expected[k]),
    ensures
        validate(env, NodeModel::Literal { expected }, id, loc, guard) == OutcomeModel::Value(literal_output(expected[k])),
{
    assert(literal_matches(expected[k], env.heap[id as int]));
}

/// A list of constants rejects everything else: a value that is none of the
/// constants yields the one violation of the kind for it, which carries the
/// list, in either mode.
pub proof fn law_literal_rejects_others(env: Env, expected: Seq<LiteralModel>, id: usize, loc: Seq<LocItemModel>, guard: Guard)
    requires
        forall|k: int| 0 <= k < expected.len() ==> env.heap[id as int] != literal_value(#[trigger] expected[k]),
    ensures
        validate(env, NodeModel::Literal { expected }, id, loc, guard) == crate::semantics::fail(
            crate::errors::violation::with_context(
                ErrorKind::LiteralError,
                loc,
                id,
                crate::errors::ErrorContextModel::Expected(expected),
            ),
        ),
{
    assert forall|k: int| 0 <= k < expected.len() implies !literal_matches(#[trigger] expected[k], env.heap[id as int]) by {
        lemma_matches_is_equality(expected[k], env.heap[id as int]);
    }
}

/// A value is a constant exactly where it is the host's value of that
/// constant. A value of another kind never is, however alike the two look:
/// the text "1" is not the number 1.
pub proof fn lemma_matches_is_equality(literal: LiteralModel, v: ValueModel)
    ensures
        literal_matches(literal, v) <==> v == literal_value(literal),
        !same_kind(literal, v) ==> !literal_matches(literal, v),
{
}

/// A reference that is being expanded on a value fails on that same value
/// with the violation of a recursion loop, and goes no deeper.
pub proof fn law_reference_inside_itself_fails(env: Env, name: Seq<char>, id: usize, loc: Seq<LocItemModel>, guard: Guard)
    requires
        resolve(env.defs, name) matches Some(d) && guard.contains((d, id)),
    ensures
        validate(env, NodeModel::Ref { name }, id, loc, guard) == crate::semantics::fail(
            crate::errors::violation::plain(ErrorKind::RecursionLoop, loc, id),
        ),
{
}

/// References nested as deeply as the bound allows fail on the next with the
/// violation of a recursion loop.
pub proof fn law_reference_beyond_depth_fails(env: Env, name: Seq<char>, id: usize, loc: Seq<LocItemModel>, guard: Guard)
    requires
        guard.len() >= env.max_depth,
    ensures
        validate(env, NodeModel::Ref { name }, id, loc, guard) == crate::semantics::fail(
            crate::errors::violation::plain(ErrorKind::RecursionLoop, loc, id),
        ),
{
}

/// Whether a list of violations holds one of the kind of a recursion loop.
pub open spec fn reports_loop(errors: Seq<ViolationModel>) -> bool {
    exists|j: int| 0 <= j < errors.len() && (#[trigger] errors[j]).kind == ErrorKind::RecursionLoop
}

/// One hop on the way from a schema and a value down to a reference: to
/// the schema and the value of one field of a record, of the member at a
/// position of a sequence or a set, of the entry at a position of a mapping,
/// or to the schema under a wrapper that hands violations on unchanged.
pub enum Hop {
    Field(int),
    Member(int),
    Entry(int),
    Inner,
}

/// The end of a way with one step of the location put before its steps.
pub open spec fn after_step(step: LocItemModel, end: Option<(usize, Seq<LocItemModel>)>) -> Option<(usize, Seq<LocItemModel>)> {
    match end {
        Some((to, steps)) => Some((to, seq![step] + steps)),
        None => None,
    }
}

/// The members that a sequence or a set schema holds against its member schema.
pub open spec fn members_seen(strict: bool, node: NodeModel, v: ValueModel) -> Option<Seq<usize>> {
    match node {
        NodeModel::List { items } => crate::semantics::list_members(strict, v),
        NodeModel::SetOf { items } => crate::semantics::set_members(strict, v),
        _ => None,
    }
}

/// The schema of the members of a sequence or a set schema.
pub open spec fn member_schema(node: NodeModel) -> NodeModel {
    match node {
        NodeModel::List { items } => *items,
        NodeModel::SetOf { items } => *items,
        _ => node,
    }
}

/// Where the hops lead from `node` held against the value at `id`: the value
/// that the reference `name` at their end is held against, and the steps of
/// the location on the way there; `None` where the hops do not fit the
/// schema and the value, or do not end at that reference. A field is
/// followed to the entry that the record reads for it; a wrapper is gone
/// through where it hands on what the schema under it yields: a default, a
/// schema that may be null on a value that is not null, and a check that
/// looks at produced values only.
pub open spec fn leads(env: Env, node: NodeModel, id: usize, hops: Seq<Hop>, name: Seq<char>) -> Option<
    (usize, Seq<LocItemModel>),
>
    decreases hops.len(),
{
    if hops.len() == 0 {
        if node == (NodeModel::Ref { name }) {
            Some((id, Seq::empty()))
        } else {
            None
        }
    } else {
        let rest = hops.drop_first();
        let v = env.heap[id as int];
        match hops[0] {
            Hop::Field(k) => match (node, v) {
                (NodeModel::Record { fields, extra }, ValueModel::Dict(entries)) => if 0 <= k < fields.len() {
                    match find_entry(entries, fields[k].name) {
                        Some(j) => if j < entries.len() {
                            after_step(
                                LocItemModel::Field(fields[k].name),
                                leads(env, fields[k].schema, entries[j as int].1, rest, name),
                            )
                        } else {
                            None
                        },
                        None => None,
                    }
                } else {
                    None
                },
                _ => None,
            },
            Hop::Member(pos) => match members_seen(env.strict, node, v) {
                Some(members) => if 0 <= pos < members.len() {
                    after_step(
                        LocItemModel::Index(pos as usize),
                        leads(env, member_schema(node), members[pos], rest, name),
                    )
                } else {
                    None
                },
                None => None,
            },
            Hop::Entry(pos) => match (node, v) {
                (NodeModel::Dict { values }, ValueModel::Dict(entries)) => if 0 <= pos < entries.len() {
                    after_step(LocItemModel::Key(entries[pos].0), leads(env, *values, entries[pos].1, rest, name))
                } else {
                    None
                },
                _ => None,
            },
            Hop::Inner => match node {
                NodeModel::WithDefault { inner, default } => leads(env, *inner, id, rest, name),
                NodeModel::Nullable { inner } => if v is Null {
                    None
                } else {
                    leads(env, *inner, id, rest, name)
                },
                NodeModel::Check { inner, trigger, signal } => if trigger is Values {
                    leads(env, *inner, id, rest, name)
                } else {
                    None
                },
                _ => None,
            },
        }
    }
}

/// The value at the end of a way.
pub open spec fn end_of(way: Option<(usize, Seq<LocItemModel>)>) -> usize {
    match way {
        Some((to, steps)) => to,
        None => 0,
    }
}

/// The steps of the location along a way.
pub open spec fn steps_of(way: Option<(usize, Seq<LocItemModel>)>) -> Seq<LocItemModel> {
    match way {
        Some((to, steps)) => steps,
        None => Seq::empty(),
    }
}

/// A violation among those of one part of a walk is among those of the
/// whole, of which the violations up to and with that part are the first.
pub proof fn lemma_found_stays(
    before: Seq<ViolationModel>,
    found: Seq<ViolationModel>,
    upto: Seq<ViolationModel>,
    all: Seq<ViolationModel>,
    v: ViolationModel,
)
    requires
        upto == before + found,
        upto.is_prefix_of(all),
        found.contains(v),
    ensures
        all.contains(v),
{
    let j = choose|j: int| 0 <= j < found.len() && found[j] == v;
    assert(upto[before.len() + j] == v);
    assert(all[before.len() + j] == v);
}

/// A violation of a field of a record is a violation of the record.
pub proof fn lemma_found_in_record(
    env: Env,
    fields: Seq<FieldModel>,
    extra: ExtraPolicy,
    k: int,
    id: usize,
    entries: Seq<(Seq<char>, usize)>,
    loc: Seq<LocItemModel>,
    guard: Guard,
    v: ViolationModel,
)
    requires
        0 <= k < fields.len(),
        env.heap[id as int] == ValueModel::Dict(entries),
        errors_of(field_outcome(env, fields[k], entries, id, loc, guard)).contains(v),
    ensures
        validate(env, NodeModel::Record { fields, extra }, id, loc, guard) matches OutcomeModel::Errors(e) && e.contains(v),
{
    let found = errors_of(field_outcome(env, fields[k], entries, id, loc, guard));
    let before = fields_errors(env, fields, entries, id, k as nat, loc, guard);
    let upto = fields_errors(env, fields, entries, id, (k + 1) as nat, loc, guard);
    let all_fields = fields_errors(env, fields, entries, id, fields.len(), loc, guard);
    let all = all_fields + extra_errors(fields, entries, extra, entries.len(), loc);
    lemma_fields_errors_grow(env, fields, entries, id, (k + 1) as nat, fields.len(), loc, guard);
    assert(upto.is_prefix_of(all)) by {
        assert(upto =~= all.subrange(0, upto.len() as int));
    }
    lemma_found_stays(before, found, upto, all, v);
}

/// A violation of a member of a sequence or a set is among the violations
/// of its members.
pub proof fn lemma_found_in_items(
    env: Env,
    items: NodeModel,
    members: Seq<usize>,
    pos: int,
    loc: Seq<LocItemModel>,
    guard: Guard,
    v: ViolationModel,
)
    requires
        0 <= pos < members.len(),
        errors_of(item_outcome(env, items, members, pos, loc, guard)).contains(v),
    ensures
        items_errors(env, items, members, members.len(), loc, guard).contains(v),
{
    let found = errors_of(item_outcome(env, items, members, pos, loc, guard));
    let before = items_errors(env, items, members, pos as nat, loc, guard);
    let upto = items_errors(env, items, members, (pos + 1) as nat, loc, guard);
    lemma_items_errors_grow(env, items, members, (pos + 1) as nat, members.len(), loc, guard);
    lemma_found_stays(before, found, upto, items_errors(env, items, members, members.len(), loc, guard), v);
}

/// A violation of the value of an entry of a mapping is among the
/// violations of its entries.
pub proof fn lemma_found_in_entries(
    env: Env,
    values: NodeModel,
    entries: Seq<(Seq<char>, usize)>,
    pos: int,
    loc: Seq<LocItemModel>,
    guard: Guard,
    v: ViolationModel,
)
    requires
        0 <= pos < entries.len(),
        errors_of(entry_outcome(env, values, entries, pos, loc, guard)).contains(v),
    ensures
        entries_errors(env, values, entries, entries.len(), loc, guard).contains(v),
{
    let found = errors_of(entry_outcome(env, values, entries, pos, loc, guard));
    let before = entries_errors(env, values, entries, pos as nat, loc, guard);
    let upto = entries_errors(env, values, entries, (pos + 1) as nat, loc, guard);
    lemma_entries_errors_grow(env, values, entries, (pos + 1) as nat, entries.len(), loc, guard);
    lemma_found_stays(before, found, upto, entries_errors(env, values, entries, entries.len(), loc, guard), v);
}

/// What a reference yields at the end of a way is among what the schema at
/// its start yields: a violation found below is reported above.
pub proof fn lemma_carries(
    env: Env,
    node: NodeModel,
    id: usize,
    hops: Seq<Hop>,
    name: Seq<char>,
    loc: Seq<LocItemModel>,
    guard: Guard,
    v: ViolationModel,
)
    requires
        leads(env, node, id, hops, name) is Some,
        validate(
            env,
            NodeModel::Ref { name },
            end_of(leads(env, node, id, hops, name)),
            loc + steps_of(leads(env, node, id, hops, name)),
            guard,
        ) matches OutcomeModel::Errors(e) && e.contains(v),
    ensures
        validate(env, node, id, loc, guard) matches OutcomeModel::Errors(e) && e.contains(v),
    decreases hops.len(),
{
    let way = leads(env, node, id, hops, name);
    if hops.len() == 0 {
        assert(loc + steps_of(way) =~= loc);
    } else {
        let rest = hops.drop_first();
        let val = env.heap[id as int];
        match hops[0] {
            Hop::Field(k) => {
                let fields = node->Record_fields;
                let extra = node->Record_extra;
                let entries = val->Dict_0;
                let j = find_entry(entries, fields[k].name)->0;
                let step = LocItemModel::Field(fields[k].name);
                let below = leads(env, fields[k].schema, entries[j as int].1, rest, name);
                assert(loc.push(step) + steps_of(below) =~= loc + steps_of(way));
                lemma_carries(env, fields[k].schema, entries[j as int].1, rest, name, loc.push(step), guard, v);
                assert(node == (NodeModel::Record { fields, extra }));
                lemma_found_in_record(env, fields, extra, k, id, entries, loc, guard, v);
            },
            Hop::Member(pos) => {
                let members = members_seen(env.strict, node, val)->0;
                let items = member_schema(node);
                let step = LocItemModel::Index(pos as usize);
                let below = leads(env, items, members[pos], rest, name);
                assert(loc.push(step) + steps_of(below) =~= loc + steps_of(way));
                lemma_carries(env, items, members[pos], rest, name, loc.push(step), guard, v);
                assert(item_outcome(env, items, members, pos, loc, guard) == validate(
                    env,
                    items,
                    members[pos],
                    loc.push(step),
                    guard,
                ));
                lemma_found_in_items(env, items, members, pos, loc, guard, v);
                let all = items_errors(env, items, members, members.len(), loc, guard);
                let at = choose|at: int| 0 <= at < all.len() && all[at] == v;
                assert(all.len() > 0);
            },
            Hop::Entry(pos) => {
                let values = *node->Dict_values;
                let entries = val->Dict_0;
                let step = LocItemModel::Key(entries[pos].0);
                let below = leads(env, values, entries[pos].1, rest, name);
                assert(loc.push(step) + steps_of(below) =~= loc + steps_of(way));
                lemma_carries(env, values, entries[pos].1, rest, name, loc.push(step), guard, v);
                assert(entry_outcome(env, values, entries, pos, loc, guard) == validate(
                    env,
                    values,
                    entries[pos].1,
                    loc.push(step),
                    guard,
                ));
                lemma_found_in_entries(env, values, entries, pos, loc, guard, v);
                let all = entries_errors(env, values, entries, entries.len(), loc, guard);
                let at = choose|at: int| 0 <= at < all.len() && all[at] == v;
                assert(all.len() > 0);
            },
            Hop::Inner => {
                match node {
                    NodeModel::WithDefault { inner, default } => {
                        lemma_carries(env, *inner, id, rest, name, loc, guard, v);
                    },
                    NodeModel::Nullable { inner } => {
                        lemma_carries(env, *inner, id, rest, name, loc, guard, v);
                    },
                    NodeModel::Check { inner, trigger, signal } => {
                        lemma_carries(env, *inner, id, rest, name, loc, guard, v);
                    },
                    _ => {},
                }
            },
        }
    }
}

/// Whether the values at the places of `ring` form a cycle that `body`
/// follows: from each, the hops given for it lead to the next, held against
/// the reference `name`, and from the last they lead to the first.
pub open spec fn is_cycle(env: Env, body: NodeModel, name: Seq<char>, ring: Seq<usize>, hops: Seq<Seq<Hop>>) -> bool {
    ring.len() > 0 && hops.len() == ring.len() && forall|i: int|
        0 <= i < ring.len() ==> leads(env, body, #[trigger] ring[i], hops[i], name) is Some && end_of(
            leads(env, body, ring[i], hops[i], name),
        ) == ring[(i + 1) % (ring.len() as int)]
}

/// The guard after the reference to definition `d` was expanded on the
/// first `i` values of the cycle.
pub open spec fn trail(d: usize, ring: Seq<usize>, i: int) -> Guard {
    Seq::new(i as nat, |j: int| (d, ring[j]))
}

/// How many values of the cycle the walk goes through, from the `i`th on,
/// before the reference fails: until it is back at the first, or comes to a
/// value that it went through before, or has expanded as many references as
/// the bound allows.
pub open spec fn stops(env: Env, d: usize, ring: Seq<usize>, i: int) -> int
    decreases ring.len() - i,
{
    if i < 0 || i >= ring.len() || i >= env.max_depth || trail(d, ring, i).contains((d, ring[i])) {
        i
    } else {
        stops(env, d, ring, i + 1)
    }
}

/// The location that the walk has come to after it went from the `i`th
/// value of the cycle to the `s`th, having stood at `loc` at the `i`th.
pub open spec fn path(
    env: Env,
    body: NodeModel,
    name: Seq<char>,
    ring: Seq<usize>,
    hops: Seq<Seq<Hop>>,
    loc: Seq<LocItemModel>,
    i: int,
    s: int,
) -> Seq<LocItemModel>
    decreases s - i,
{
    if i >= s {
        loc
    } else {
        path(env, body, name, ring, hops, loc + steps_of(leads(env, body, ring[i], hops[i], name)), i + 1, s)
    }
}

/// The walk stops at or after where it stands, and within the cycle.
pub proof fn lemma_stops_bounds(env: Env, d: usize, ring: Seq<usize>, i: int)
    requires
        0 <= i <= ring.len(),
    ensures
        i <= stops(env, d, ring, i) <= ring.len(),
    decreases ring.len() - i,
{
    if !(i >= ring.len() || i >= env.max_depth || trail(d, ring, i).contains((d, ring[i]))) {
        lemma_stops_bounds(env, d, ring, i + 1);
    }
}

/// The violation of a recursion loop that a walk round a cycle ends in: at
/// the location that the walk has come to where it stops, and naming the
/// value at which it stops.
pub open spec fn loop_found(
    env: Env,
    d: usize,
    body: NodeModel,
    name: Seq<char>,
    ring: Seq<usize>,
    hops: Seq<Seq<Hop>>,
    loc: Seq<LocItemModel>,
    i: int,
) -> ViolationModel {
    let s = stops(env, d, ring, i);
    crate::errors::violation::plain(
        ErrorKind::RecursionLoop,
        path(env, body, name, ring, hops, loc, i, s),
        ring[s % (ring.len() as int)],
    )
}

/// From wherever on a cycle the walk stands, having expanded the reference
/// on the values before, it ends in the violation of a recursion loop where
/// [`stops`] says.
pub proof fn lemma_cycle_loop_at(
    env: Env,
    name: Seq<char>,
    d: usize,
    body: NodeModel,
    ring: Seq<usize>,
    hops: Seq<Seq<Hop>>,
    i: int,
    loc: Seq<LocItemModel>,
)
    requires
        resolve(env.defs, name) == Some(d),
        env.defs[d as int].body == body,
        is_cycle(env, body, name, ring, hops),
        0 <= i <= ring.len(),
    ensures
        validate(env, NodeModel::Ref { name }, ring[i % (ring.len() as int)], loc, trail(d, ring, i)) matches OutcomeModel::Errors(
            e,
        ) && e.contains(loop_found(env, d, body, name, ring, hops, loc, i)),
    decreases ring.len() - i,
{
    let n = ring.len() as int;
    let guard = trail(d, ring, i);
    let id = ring[i % n];
    let here = crate::errors::violation::plain(ErrorKind::RecursionLoop, loc, id);
    if i == n {
        assert(i % n == 0) by (nonlinear_arith)
            requires
                i == n,
                n > 0,
        ;
        assert(guard[0] == (d, ring[0]));
        assert(guard.contains((d, id)));
        assert(seq![here][0] == here);
    } else {
        assert(i % n == i) by (nonlinear_arith)
            requires
                0 <= i < n,
        ;
        if i >= env.max_depth || guard.contains((d, id)) {
            assert(seq![here][0] == here);
        } else {
            lemma_stops_bounds(env, d, ring, i + 1);
            let inside = guard.push((d, id));
            assert(inside =~= trail(d, ring, i + 1));
            let way = leads(env, body, ring[i], hops[i], name);
            let deeper = loc + steps_of(way);
            assert(way is Some && end_of(way) == ring[(i + 1) % n]);
            lemma_cycle_loop_at(env, name, d, body, ring, hops, i + 1, deeper);
            let v = loop_found(env, d, body, name, ring, hops, loc, i);
            assert(v == loop_found(env, d, body, name, ring, hops, deeper, i + 1));
            lemma_carries(env, body, id, hops[i], name, loc, inside, v);
        }
    }
}

/// A schema that refers to itself, held against values that form a cycle of
/// any length, is reported with the violation of a recursion loop, however
/// the schema comes to the reference: through fields of records, members of
/// sequences and sets, entries of mappings, and wrappers that hand violations
/// on. The violation lies where the walk stops: at the location it has come
/// to when it is back at the first value, or at a value it went through
/// before, or at the bound on references, and it names the value there.
pub proof fn law_cycle_is_reported_where_it_closes(
    env: Env,
    name: Seq<char>,
    d: usize,
    body: NodeModel,
    ring: Seq<usize>,
    hops: Seq<Seq<Hop>>,
    loc: Seq<LocItemModel>,
)
    requires
        resolve(env.defs, name) == Some(d),
        env.defs[d as int].body == body,
        is_cycle(env, body, name, ring, hops),
    ensures
        validate(env, NodeModel::Ref { name }, ring[0], loc, Seq::empty()) matches OutcomeModel::Errors(e) && e.contains(
            loop_found(env, d, body, name, ring, hops, loc, 0),
        ) && reports_loop(e),
{
    assert(0int % (ring.len() as int) == 0) by (nonlinear_arith)
        requires
            ring.len() > 0,
    ;
    assert(trail(d, ring, 0) =~= Seq::empty());
    lemma_cycle_loop_at(env, name, d, body, ring, hops, 0, loc);
    let e = errors_of(validate(env, NodeModel::Ref { name }, ring[0], loc, Seq::empty()));
    let v = loop_found(env, d, body, name, ring, hops, loc, 0);
    let j = choose|j: int| 0 <= j < e.len() && e[j] == v;
    assert(e[j].kind == ErrorKind::RecursionLoop);
}

/// Any schema that leads to a reference held against a value on a cycle
/// reports the recursion loop of that cycle, below the place where it comes
/// upon the cycle. The schema at the root need not be the reference: it may
/// be the record itself that refers to itself, or any schema above it.
pub proof fn law_schema_that_leads_into_a_cycle_reports_it(
    env: Env,
    root: NodeModel,
    id: usize,
    lead: Seq<Hop>,
    name: Seq<char>,
    d: usize,
    body: NodeModel,
    ring: Seq<usize>,
    hops: Seq<Seq<Hop>>,
    loc: Seq<LocItemModel>,
)
    requires
        resolve(env.defs, name) == Some(d),
        env.defs[d as int].body == body,
        is_cycle(env, body, name, ring, hops),
        leads(env, root, id, lead, name) is Some,
        end_of(leads(env, root, id, lead, name)) == ring[0],
    ensures
        validate(env, root, id, loc, Seq::empty()) matches OutcomeModel::Errors(e) && e.contains(
            loop_found(env, d, body, name, ring, hops, loc + steps_of(leads(env, root, id, lead, name)), 0),
        ) && reports_loop(e),
{
    let below = loc + steps_of(leads(env, root, id, lead, name));
    law_cycle_is_reported_where_it_closes(env, name, d, body, ring, hops, below);
    let v = loop_found(env, d, body, name, ring, hops, below, 0);
    lemma_carries(env, root, id, lead, name, loc, Seq::empty(), v);
    let e = errors_of(validate(env, root, id, loc, Seq::empty()));
    let j = choose|j: int| 0 <= j < e.len() && e[j] == v;
    assert(e[j].kind == ErrorKind::RecursionLoop);
}

/// A value that holds itself where a schema that refers to itself comes to
/// the reference, held against that schema with at least one reference
/// allowed, is reported with the violation of a recursion loop where the
/// cycle comes back to it: at the steps from the value to itself, and
/// naming the value itself.
pub proof fn law_value_that_holds_itself_is_reported_there(
    env: Env,
    name: Seq<char>,
    d: usize,
    body: NodeModel,
    hops: Seq<Hop>,
    id: usize,
    loc: Seq<LocItemModel>,
)
    requires
        resolve(env.defs, name) == Some(d),
        env.defs[d as int].body == body,
        leads(env, body, id, hops, name) is Some,
        end_of(leads(env, body, id, hops, name)) == id,
        env.max_depth > 0,
    ensures
        validate(env, NodeModel::Ref { name }, id, loc, Seq::empty()) matches OutcomeModel::Errors(e) && e.contains(
            crate::errors::violation::plain(
                ErrorKind::RecursionLoop,
                loc + steps_of(leads(env, body, id, hops, name)),
                id,
            ),
        ),
{
    let ring = seq![id];
    let all = seq![hops];
    assert(is_cycle(env, body, name, ring, all)) by {
        assert forall|i: int| 0 <= i < ring.len() implies leads(env, body, #[trigger] ring[i], all[i], name) is Some && end_of(
            leads(env, body, ring[i], all[i], name),
        ) == ring[(i + 1) % (ring.len() as int)] by {
            assert((i + 1) % 1 == 0);
        }
    }
    law_cycle_is_reported_where_it_closes(env, name, d, body, ring, all, loc);
    assert(trail(d, ring, 0) =~= Seq::empty());
    assert(!trail(d, ring, 0).contains((d, ring[0])));
    assert(stops(env, d, ring, 1) == 1);
    assert(stops(env, d, ring, 0) == 1);
    let deeper = loc + steps_of(leads(env, body, id, hops, name));
    assert(path(env, body, name, ring, all, deeper, 1, 1) == deeper);
    assert(path(env, body, name, ring, all, loc, 0, 1) == deeper);
    assert(1int % 1 == 0);
}

/// The same of a record whose field is the reference, and of the record
/// held against the value directly: a mapping that holds itself under that
/// field is reported with the violation of a recursion loop at the field,
/// where the reference is at the root, and one round further down, where
/// the record is.
pub proof fn law_record_that_holds_itself_is_reported_at_its_field(
    env: Env,
    name: Seq<char>,
    d: usize,
    fields: Seq<FieldModel>,
    extra: ExtraPolicy,
    k: int,
    id: usize,
    loc: Seq<LocItemModel>,
)
    requires
        resolve(env.defs, name) == Some(d),
        env.defs[d as int].body == (NodeModel::Record { fields, extra }),
        0 <= k < fields.len(),
        fields[k].schema == (NodeModel::Ref { name }),
        links(env.heap, id, fields[k].name, id),
        env.max_depth > 0,
    ensures
        validate(env, NodeModel::Ref { name }, id, loc, Seq::empty()) matches OutcomeModel::Errors(e) && e.contains(
            crate::errors::violation::plain(ErrorKind::RecursionLoop, loc.push(LocItemModel::Field(fields[k].name)), id),
        ),
        validate(env, NodeModel::Record { fields, extra }, id, loc, Seq::empty()) matches OutcomeModel::Errors(e)
            && e.contains(
            crate::errors::violation::plain(
                ErrorKind::RecursionLoop,
                loc.push(LocItemModel::Field(fields[k].name)).push(LocItemModel::Field(fields[k].name)),
                id,
            ),
        ),
{
    let body = NodeModel::Record { fields, extra };
    let hops = seq![Hop::Field(k)];
    let step = LocItemModel::Field(fields[k].name);
    lemma_field_leads(env, name, fields, extra, k, id, id);
    let way = leads(env, body, id, hops, name);
    assert(loc + steps_of(way) =~= loc.push(step));
    law_value_that_holds_itself_is_reported_there(env, name, d, body, hops, id, loc);
    law_value_that_holds_itself_is_reported_there(env, name, d, body, hops, id, loc.push(step));
    let v = crate::errors::violation::plain(ErrorKind::RecursionLoop, loc.push(step).push(step), id);
    assert(loc.push(step) + steps_of(way) =~= loc.push(step).push(step));
    lemma_carries(env, body, id, hops, name, loc, Seq::empty(), v);
}

/// Whether the value at `from` is a mapping whose entry under `field` is the
/// value at `to`.
pub open spec fn links(heap: Seq<ValueModel>, from: usize, field: Seq<char>, to: usize) -> bool {
    heap[from as int] matches ValueModel::Dict(entries) && find_entry(entries, field) matches Some(j) && entries[j as int].1
        == to
}

/// Whether the values at the places of `ring` form a cycle through `field`:
/// each holds the next under that field, and the last holds the first.
pub open spec fn is_ring(heap: Seq<ValueModel>, ring: Seq<usize>, field: Seq<char>) -> bool {
    ring.len() > 0 && forall|i: int|
        0 <= i < ring.len() ==> links(heap, #[trigger] ring[i], field, ring[(i + 1) % (ring.len() as int)])
}

/// A record whose field is the reference leads, from a mapping that holds a
/// value under that field, to that value, by the one step of the field.
pub proof fn lemma_field_leads(
    env: Env,
    name: Seq<char>,
    fields: Seq<FieldModel>,
    extra: ExtraPolicy,
    k: int,
    from: usize,
    to: usize,
)
    requires
        0 <= k < fields.len(),
        fields[k].schema == (NodeModel::Ref { name }),
        links(env.heap, from, fields[k].name, to),
    ensures
        leads(env, NodeModel::Record { fields, extra }, from, seq![Hop::Field(k)], name) == Some(
            (to, seq![LocItemModel::Field(fields[k].name)]),
        ),
{
    let hops = seq![Hop::Field(k)];
    let entries = env.heap[from as int]->Dict_0;
    crate::names::lemma_first_index_below(crate::semantics::entry_keys(entries), fields[k].name, entries.len());
    assert(hops.drop_first() =~= Seq::<Hop>::empty());
    assert(leads(env, fields[k].schema, to, Seq::<Hop>::empty(), name) == Some((to, Seq::<LocItemModel>::empty())));
    assert(seq![LocItemModel::Field(fields[k].name)] + Seq::<LocItemModel>::empty() =~= seq![
        LocItemModel::Field(fields[k].name),
    ]);
}

/// A record that refers to itself, held against values that form a cycle
/// of any length through the field that refers, is reported with the
/// violation of a recursion loop: the walk comes to an end.
pub proof fn law_cycle_is_reported(
    env: Env,
    name: Seq<char>,
    d: usize,
    fields: Seq<FieldModel>,
    extra: ExtraPolicy,
    k: int,
    ring: Seq<usize>,
    loc: Seq<LocItemModel>,
)
    requires
        resolve(env.defs, name) == Some(d),
        env.defs[d as int].body == (NodeModel::Record { fields, extra }),
        0 <= k < fields.len(),
        fields[k].schema == (NodeModel::Ref { name }),
        is_ring(env.heap, ring, fields[k].name),
    ensures
        validate(env, NodeModel::Ref { name }, ring[0], loc, Seq::empty()) matches OutcomeModel::Errors(e) && reports_loop(e),
{
    let body = NodeModel::Record { fields, extra };
    let hops = Seq::new(ring.len(), |i: int| seq![Hop::Field(k)]);
    assert(is_cycle(env, body, name, ring, hops)) by {
        assert forall|i: int| 0 <= i < ring.len() implies leads(env, body, #[trigger] ring[i], hops[i], name) is Some && end_of(
            leads(env, body, ring[i], hops[i], name),
        ) == ring[(i + 1) % (ring.len() as int)] by {
            assert(links(env.heap, ring[i], fields[k].name, ring[(i + 1) % (ring.len() as int)]));
            lemma_field_leads(env, name, fields, extra, k, ring[i], ring[(i + 1) % (ring.len() as int)]);
        }
    }
    law_cycle_is_reported_where_it_closes(env, name, d, body, ring, hops, loc);
}

/// A field whose schema declares a default, and which the input does not
/// hold, is given the default without a violation.
pub proof fn law_absent_field_takes_default(
    env: Env,
    field: FieldModel,
    entries: Seq<(Seq<char>, usize)>,
    id: usize,
    loc: Seq<LocItemModel>,
    guard: Guard,
)
    requires
        find_entry(entries, field.name) is None,
        default_of(field.schema) is Some,
    ensures
        field_outcome(env, field, entries, id, loc, guard) == OutcomeModel::Value(literal_output(default_of(field.schema)->0)),
{
}

/// A record of one optional field with a default, held against a mapping
/// without entries, is valid, and its output holds the default under the
/// field's name.
pub proof fn law_record_fills_in_default(
    env: Env,
    field: FieldModel,
    extra: ExtraPolicy,
    id: usize,
    loc: Seq<LocItemModel>,
    guard: Guard,
)
    requires
        env.heap[id as int] == ValueModel::Dict(Seq::empty()),
        default_of(field.schema) is Some,
    ensures
        validate(env, NodeModel::Record { fields: seq![field], extra }, id, loc, guard) == OutcomeModel::Value(
            OutputModel::Dict(seq![(field.name, literal_output(default_of(field.schema)->0))]),
        ),
{
    let fields = seq![field];
    let entries = Seq::<(Seq<char>, usize)>::empty();
    law_absent_field_takes_default(env, field, entries, id, loc, guard);
    assert(fields[0] == field);
    let fe0 = fields_errors(env, fields, entries, id, 0, loc, guard);
    let fe = fields_errors(env, fields, entries, id, 1, loc, guard);
    assert(fe == fe0 + errors_of(field_outcome(env, fields[0], entries, id, loc, guard)));
    assert(fe =~= Seq::empty());
    let fv0 = fields_values(env, fields, entries, id, 0, loc, guard);
    assert(fv0 =~= Seq::empty());
    let fv = fields_values(env, fields, entries, id, 1, loc, guard);
    assert(fv == fv0.push((fields[0].name, literal_output(default_of(field.schema)->0))));
    assert(fv =~= seq![(field.name, literal_output(default_of(field.schema)->0))]);
    assert(extra_errors(fields, entries, extra, 0, loc) =~= Seq::empty());
    assert(extra_values(fields, entries, extra, 0) =~= Seq::empty());
    assert(fe + extra_errors(fields, entries, extra, 0, loc) =~= Seq::empty());
    assert(fv + extra_values(fields, entries, extra, 0) =~= fv);
}

/// A field on which a check raises the signal to leave it out adds neither a
/// value nor a violation to its record.
pub proof fn law_omitted_field_leaves_no_trace(
    env: Env,
    fields: Seq<FieldModel>,
    entries: Seq<(Seq<char>, usize)>,
    id: usize,
    n: nat,
    loc: Seq<LocItemModel>,
    guard: Guard,
)
    requires
        0 < n <= fields.len(),
        field_outcome(env, fields[n - 1], entries, id, loc, guard) is Omit,
    ensures
        fields_errors(env, fields, entries, id, n, loc, guard) == fields_errors(env, fields, entries, id, (n - 1) as nat, loc, guard),
        fields_values(env, fields, entries, id, n, loc, guard) == fields_values(env, fields, entries, id, (n - 1) as nat, loc, guard),
{
    assert(fields_errors(env, fields, entries, id, n, loc, guard) =~= fields_errors(
        env,
        fields,
        entries,
        id,
        (n - 1) as nat,
        loc,
        guard,
    ));
}

/// Up to a field, a record without that field makes of its fields what the
/// record with it does; beyond a field that neither yields a value nor a
/// violation, it makes of one field fewer what the record makes of them all.
pub proof fn lemma_fields_without(
    env: Env,
    fields: Seq<FieldModel>,
    k: int,
    entries: Seq<(Seq<char>, usize)>,
    id: usize,
    n: nat,
    loc: Seq<LocItemModel>,
    guard: Guard,
)
    requires
        0 <= k < fields.len(),
        n <= fields.len(),
        !(field_outcome(env, fields[k], entries, id, loc, guard) is Value),
        !(field_outcome(env, fields[k], entries, id, loc, guard) is Errors),
    ensures
        n <= k ==> fields_errors(env, fields.remove(k), entries, id, n, loc, guard) == fields_errors(
            env,
            fields,
            entries,
            id,
            n,
            loc,
            guard,
        ) && fields_values(env, fields.remove(k), entries, id, n, loc, guard) == fields_values(
            env,
            fields,
            entries,
            id,
            n,
            loc,
            guard,
        ),
        n > k ==> fields_errors(env, fields.remove(k), entries, id, (n - 1) as nat, loc, guard) == fields_errors(
            env,
            fields,
            entries,
            id,
            n,
            loc,
            guard,
        ) && fields_values(env, fields.remove(k), entries, id, (n - 1) as nat, loc, guard) == fields_values(
            env,
            fields,
            entries,
            id,
            n,
            loc,
            guard,
        ),
    decreases n,
{
    let fewer = fields.remove(k);
    if n > 0 {
        lemma_fields_without(env, fields, k, entries, id, (n - 1) as nat, loc, guard);
        if n <= k {
            assert(fewer[n - 1] == fields[n - 1]);
        } else if n == k + 1 {
            assert(fields_errors(env, fields, entries, id, n, loc, guard) =~= fields_errors(
                env,
                fields,
                entries,
                id,
                (n - 1) as nat,
                loc,
                guard,
            ));
        } else {
            assert(fewer[n - 2] == fields[n - 1]);
        }
    }
}

/// A field that is left out leaves no trace: where a record makes of one of
/// its fields that it is left out, it makes of all its fields the violations
/// and the values that the record without that field makes of its own.
pub proof fn law_omitted_field_is_as_if_undeclared(
    env: Env,
    fields: Seq<FieldModel>,
    k: int,
    entries: Seq<(Seq<char>, usize)>,
    id: usize,
    loc: Seq<LocItemModel>,
    guard: Guard,
)
    requires
        0 <= k < fields.len(),
        field_outcome(env, fields[k], entries, id, loc, guard) is Omit,
    ensures
        fields_errors(env, fields, entries, id, fields.len(), loc, guard) == fields_errors(
            env,
            fields.remove(k),
            entries,
            id,
            fields.remove(k).len(),
            loc,
            guard,
        ),
        fields_values(env, fields, entries, id, fields.len(), loc, guard) == fields_values(
            env,
            fields.remove(k),
            entries,
            id,
            fields.remove(k).len(),
            loc,
            guard,
        ),
{
    lemma_fields_without(env, fields, k, entries, id, fields.len(), loc, guard);
}

/// A check that raises the signal to leave a value out, on a field that the
/// input holds, makes the record see the field as left out.
pub proof fn law_check_omits_present_field(
    env: Env,
    name: Seq<char>,
    inner: NodeModel,
    trigger: crate::validator::TriggerModel,
    required: bool,
    entries: Seq<(Seq<char>, usize)>,
    id: usize,
    loc: Seq<LocItemModel>,
    guard: Guard,
)
    requires
        find_entry(entries, name) matches Some(j) && fires(
            trigger,
            validate(env, inner, entries[j as int].1, loc.push(LocItemModel::Field(name)), guard),
        ),
    ensures
        field_outcome(
            env,
            FieldModel {
                name,
                schema: NodeModel::Check { inner: Box::new(inner), trigger, signal: SignalModel::Omit },
                required,
            },
            entries,
            id,
            loc,
            guard,
        ) is Omit,
{
}

/// Whether every violation of a list lies at `loc` or below it.
pub open spec fn all_below(errors: Seq<ViolationModel>, loc: Seq<LocItemModel>) -> bool {
    forall|j: int| 0 <= j < errors.len() ==> loc.is_prefix_of((#[trigger] errors[j]).loc)
}

/// What lies below a step of a location lies below the location.
pub proof fn lemma_below_step(errors: Seq<ViolationModel>, loc: Seq<LocItemModel>, step: LocItemModel)
    requires
        all_below(errors, loc.push(step)),
    ensures
        all_below(errors, loc),
{
    assert forall|j: int| 0 <= j < errors.len() implies loc.is_prefix_of((#[trigger] errors[j]).loc) by {
        let deeper = loc.push(step);
        assert(deeper.is_prefix_of(errors[j].loc));
        assert(loc =~= deeper.subrange(0, loc.len() as int));
        assert(loc =~= errors[j].loc.subrange(0, loc.len() as int));
    }
}

/// Two lists that lie below a location do so joined.
pub proof fn lemma_below_joined(a: Seq<ViolationModel>, b: Seq<ViolationModel>, loc: Seq<LocItemModel>)
    requires
        all_below(a, loc),
        all_below(b, loc),
    ensures
        all_below(a + b, loc),
{
    assert forall|j: int| 0 <= j < (a + b).len() implies loc.is_prefix_of((#[trigger] (a + b)[j]).loc) by {
        if j < a.len() {
            assert((a + b)[j] == a[j]);
        } else {
            assert((a + b)[j] == b[j - a.len()]);
        }
    }
}

/// Every violation is found at the location that was being looked at, or
/// below it: a report never names a place outside the value it is about.
pub proof fn law_violations_lie_below(env: Env, node: NodeModel, id: usize, loc: Seq<LocItemModel>, guard: Guard)
    ensures
        all_below(errors_of(validate(env, node, id, loc, guard)), loc),
    decreases env.max_depth - guard.len(), node, 0nat,
{
    assert(loc.is_prefix_of(loc));
    let v = env.heap[id as int];
    match node {
        NodeModel::List { items } => {
            match crate::semantics::list_members(env.strict, v) {
                Some(members) => {
                    lemma_items_lie_below(env, *items, members, members.len(), loc, guard);
                },
                None => {},
            }
        },
        NodeModel::SetOf { items } => {
            match crate::semantics::set_members(env.strict, v) {
                Some(members) => {
                    lemma_items_lie_below(env, *items, members, members.len(), loc, guard);
                },
                None => {},
            }
        },
        NodeModel::Dict { values } => {
            match v {
                ValueModel::Dict(entries) => {
                    lemma_entries_lie_below(env, *values, entries, entries.len(), loc, guard);
                },
                _ => {},
            }
        },
        NodeModel::Record { fields, extra } => {
            match v {
                ValueModel::Dict(entries) => {
                    lemma_fields_lie_below(env, fields, entries, id, fields.len(), loc, guard);
                    lemma_extras_lie_below(fields, entries, extra, entries.len(), loc);
                    lemma_below_joined(
                        fields_errors(env, fields, entries, id, fields.len(), loc, guard),
                        extra_errors(fields, entries, extra, entries.len(), loc),
                        loc,
                    );
                },
                _ => {},
            }
        },
        NodeModel::Ref { name } => {
            match resolve(env.defs, name) {
                None => {},
                Some(d) => {
                    if guard.contains((d, id)) || guard.len() >= env.max_depth {
                    } else {
                        law_violations_lie_below(env, env.defs[d as int].body, id, loc, guard.push((d, id)));
                    }
                },
            }
        },
        NodeModel::Nullable { inner } => {
            law_violations_lie_below(env, *inner, id, loc, guard);
        },
        NodeModel::WithDefault { inner, default } => {
            law_violations_lie_below(env, *inner, id, loc, guard);
        },
        NodeModel::Check { inner, trigger, signal } => {
            law_violations_lie_below(env, *inner, id, loc, guard);
        },
        _ => {},
    }
}

/// The violations of the members of a sequence lie below the sequence.
pub proof fn lemma_items_lie_below(env: Env, items: NodeModel, members: Seq<usize>, n: nat, loc: Seq<LocItemModel>, guard: Guard)
    requires
        n <= members.len(),
    ensures
        all_below(items_errors(env, items, members, n, loc, guard), loc),
    decreases env.max_depth - guard.len(), items, n + 2,
{
    if n > 0 {
        lemma_items_lie_below(env, items, members, (n - 1) as nat, loc, guard);
        let step = LocItemModel::Index((n - 1) as usize);
        law_violations_lie_below(env, items, members[n - 1], loc.push(step), guard);
        let found = errors_of(item_outcome(env, items, members, n - 1, loc, guard));
        lemma_below_step(found, loc, step);
        lemma_below_joined(items_errors(env, items, members, (n - 1) as nat, loc, guard), found, loc);
    }
}

/// The violations of the values of a mapping lie below the mapping.
pub proof fn lemma_entries_lie_below(
    env: Env,
    values: NodeModel,
    entries: Seq<(Seq<char>, usize)>,
    n: nat,
    loc: Seq<LocItemModel>,
    guard: Guard,
)
    requires
        n <= entries.len(),
    ensures
        all_below(entries_errors(env, values, entries, n, loc, guard), loc),
    decreases env.max_depth - guard.len(), values, n + 2,
{
    if n > 0 {
        lemma_entries_lie_below(env, values, entries, (n - 1) as nat, loc, guard);
        let step = LocItemModel::Key(entries[n - 1].0);
        law_violations_lie_below(env, values, entries[n - 1].1, loc.push(step), guard);
        let found = errors_of(entry_outcome(env, values, entries, n - 1, loc, guard));
        lemma_below_step(found, loc, step);
        lemma_below_joined(entries_errors(env, values, entries, (n - 1) as nat, loc, guard), found, loc);
    }
}

/// The violations of the fields of a record lie below the record.
pub proof fn lemma_fields_lie_below(
    env: Env,
    fields: Seq<FieldModel>,
    entries: Seq<(Seq<char>, usize)>,
    id: usize,
    n: nat,
    loc: Seq<LocItemModel>,
    guard: Guard,
)
    requires
        n <= fields.len(),
    ensures
        all_below(fields_errors(env, fields, entries, id, n, loc, guard), loc),
    decreases env.max_depth - guard.len(), fields, n,
{
    if n > 0 {
        lemma_fields_lie_below(env, fields, entries, id, (n - 1) as nat, loc, guard);
        let field = fields[n - 1];
        let step = LocItemModel::Field(field.name);
        let found = errors_of(field_outcome(env, field, entries, id, loc, guard));
        assert(loc.push(step).is_prefix_of(loc.push(step)));
        match find_entry(entries, field.name) {
            None => {},
            Some(j) => {
                law_violations_lie_below(env, field.schema, entries[j as int].1, loc.push(step), guard);
            },
        }
        assert(all_below(found, loc.push(step)));
        lemma_below_step(found, loc, step);
        lemma_below_joined(fields_errors(env, fields, entries, id, (n - 1) as nat, loc, guard), found, loc);
    }
}

/// The violations for undeclared keys lie below the record.
pub proof fn lemma_extras_lie_below(
    fields: Seq<FieldModel>,
    entries: Seq<(Seq<char>, usize)>,
    extra: ExtraPolicy,
    n: nat,
    loc: Seq<LocItemModel>,
)
    requires
        n <= entries.len(),
    ensures
        all_below(extra_errors(fields, entries, extra, n, loc), loc),
    decreases n,
{
    if n > 0 {
        lemma_extras_lie_below(fields, entries, extra, (n - 1) as nat, loc);
        let before = extra_errors(fields, entries, extra, (n - 1) as nat, loc);
        let now = extra_errors(fields, entries, extra, n, loc);
        let step = LocItemModel::Key(entries[n - 1].0);
        assert forall|j: int| 0 <= j < now.len() implies loc.is_prefix_of((#[trigger] now[j]).loc) by {
            if j < before.len() {
                assert(now[j] == before[j]);
            } else {
                assert(now[j].loc == loc.push(step));
                assert(loc =~= loc.push(step).subrange(0, loc.len() as int));
            }
        }
    }
}

/// Whether every violation of a list names as its input a place below `bound`.
pub open spec fn inputs_within(errors: Seq<ViolationModel>, bound: int) -> bool {
    forall|j: int| 0 <= j < errors.len() ==> (#[trigger] errors[j]).input < bound
}

/// Whether every value that was handed through in a produced value is at a
/// place below `bound`.
pub open spec fn kept_within(out: OutputModel, bound: int) -> bool
    decreases out, 0nat,
{
    match out {
        OutputModel::Kept(id) => id < bound,
        OutputModel::List(items) => all_kept_within(items, items.len(), bound),
        OutputModel::SetOf(items) => all_kept_within(items, items.len(), bound),
        OutputModel::Dict(entries) => entries_kept_within(entries, entries.len(), bound),
        _ => true,
    }
}

/// [`kept_within`] of each of the first `n` produced values.
pub open spec fn all_kept_within(items: Seq<OutputModel>, n: nat, bound: int) -> bool
    decreases items, n,
{
    if n == 0 || n > items.len() {
        true
    } else {
        all_kept_within(items, (n - 1) as nat, bound) && kept_within(items[n - 1], bound)
    }
}

/// [`kept_within`] of each of the first `n` produced entries.
pub open spec fn entries_kept_within(entries: Seq<(Seq<char>, OutputModel)>, n: nat, bound: int) -> bool
    decreases entries, n,
{
    if n == 0 || n > entries.len() {
        true
    } else {
        entries_kept_within(entries, (n - 1) as nat, bound) && kept_within(entries[n - 1].1, bound)
    }
}

/// Whether an outcome names places below `bound` only.
pub open spec fn outcome_within(o: OutcomeModel, bound: int) -> bool {
    match o {
        OutcomeModel::Value(out) => kept_within(out, bound),
        OutcomeModel::Errors(e) => inputs_within(e, bound),
        _ => true,
    }
}

/// Two lists of violations whose inputs are places of the store are so joined.
pub proof fn lemma_inputs_joined(a: Seq<ViolationModel>, b: Seq<ViolationModel>, bound: int)
    requires
        inputs_within(a, bound),
        inputs_within(b, bound),
    ensures
        inputs_within(a + b, bound),
{
    assert forall|j: int| 0 <= j < (a + b).len() implies (#[trigger] (a + b)[j]).input < bound by {
        if j < a.len() {
            assert((a + b)[j] == a[j]);
        } else {
            assert((a + b)[j] == b[j - a.len()]);
        }
    }
}

/// One more produced value keeps [`all_kept_within`].
pub proof fn lemma_kept_pushed(items: Seq<OutputModel>, out: OutputModel, n: nat, bound: int)
    requires
        n <= items.len(),
        all_kept_within(items, n, bound),
    ensures
        all_kept_within(items.push(out), n, bound),
        n == items.len() && kept_within(out, bound) ==> all_kept_within(items.push(out), (n + 1) as nat, bound),
    decreases n,
{
    let more = items.push(out);
    if n > 0 {
        lemma_kept_pushed(items, out, (n - 1) as nat, bound);
        assert(more[n - 1] == items[n - 1]);
    }
    assert(all_kept_within(more, n, bound));
    if n == items.len() && kept_within(out, bound) {
        assert(more[n as int] == out);
        assert(all_kept_within(more, (n + 1) as nat, bound));
    }
}

/// One more produced entry keeps [`entries_kept_within`].
pub proof fn lemma_kept_entry_pushed(entries: Seq<(Seq<char>, OutputModel)>, entry: (Seq<char>, OutputModel), n: nat, bound: int)
    requires
        n <= entries.len(),
        entries_kept_within(entries, n, bound),
    ensures
        entries_kept_within(entries.push(entry), n, bound),
        n == entries.len() && kept_within(entry.1, bound) ==> entries_kept_within(entries.push(entry), (n + 1) as nat, bound),
    decreases n,
{
    let more = entries.push(entry);
    if n > 0 {
        lemma_kept_entry_pushed(entries, entry, (n - 1) as nat, bound);
        assert(more[n - 1] == entries[n - 1]);
    }
    assert(entries_kept_within(more, n, bound));
    if n == entries.len() && kept_within(entry.1, bound) {
        assert(more[n as int] == entry);
        assert(entries_kept_within(more, (n + 1) as nat, bound));
    }
}

/// Two lists of produced entries that name places of the store do so joined.
pub proof fn lemma_kept_entries_joined(a: Seq<(Seq<char>, OutputModel)>, b: Seq<(Seq<char>, OutputModel)>, n: nat, bound: int)
    requires
        entries_kept_within(a, a.len(), bound),
        n <= b.len(),
        entries_kept_within(b, n, bound),
    ensures
        entries_kept_within(a + b.subrange(0, n as int), a.len() + n, bound),
    decreases n,
{
    if n == 0 {
        assert(a + b.subrange(0, 0) =~= a);
    } else {
        lemma_kept_entries_joined(a, b, (n - 1) as nat, bound);
        let before = a + b.subrange(0, n - 1);
        lemma_kept_entry_pushed(before, b[n - 1], before.len(), bound);
        assert(before.push(b[n - 1]) =~= a + b.subrange(0, n as int));
    }
}

/// What is kept of a list of produced values without repeats was in the list.
pub proof fn lemma_distinct_kept(items: Seq<OutputModel>, n: nat, bound: int)
    requires
        n <= items.len(),
        all_kept_within(items, n, bound),
    ensures
        all_kept_within(distinct(items, n), distinct(items, n).len(), bound),
    decreases n,
{
    if n > 0 {
        lemma_distinct_kept(items, (n - 1) as nat, bound);
        let before = distinct(items, (n - 1) as nat);
        if !before.contains(items[n - 1]) {
            lemma_kept_pushed(before, items[n - 1], before.len(), bound);
        }
    }
}

/// A validation names only places of the store: the input of every
/// violation is a value of the store, and so is every value that was handed
/// through to the output.
pub proof fn law_results_name_places(env: Env, node: NodeModel, id: usize, loc: Seq<LocItemModel>, guard: Guard)
    requires
        heap_closed(env.heap),
        id < env.heap.len(),
    ensures
        outcome_within(validate(env, node, id, loc, guard), env.heap.len() as int),
    decreases env.max_depth - guard.len(), node, 0nat,
{
    let v = env.heap[id as int];
    let bound = env.heap.len() as int;
    assert(v.members_below(bound));
    match node {
        NodeModel::List { items } => {
            match crate::semantics::list_members(env.strict, v) {
                Some(members) => {
                    lemma_items_name_places(env, *items, members, members.len(), loc, guard);
                },
                None => {},
            }
        },
        NodeModel::SetOf { items } => {
            match crate::semantics::set_members(env.strict, v) {
                Some(members) => {
                    lemma_items_name_places(env, *items, members, members.len(), loc, guard);
                    let values = items_values(env, *items, members, members.len(), loc, guard);
                    lemma_distinct_kept(values, values.len(), bound);
                },
                None => {},
            }
        },
        NodeModel::Dict { values } => {
            match v {
                ValueModel::Dict(entries) => {
                    lemma_entries_name_places(env, *values, entries, entries.len(), loc, guard);
                },
                _ => {},
            }
        },
        NodeModel::Record { fields, extra } => {
            match v {
                ValueModel::Dict(entries) => {
                    lemma_fields_name_places(env, fields, entries, id, fields.len(), loc, guard);
                    lemma_extras_name_places(fields, entries, extra, entries.len(), loc, bound);
                    lemma_inputs_joined(
                        fields_errors(env, fields, entries, id, fields.len(), loc, guard),
                        extra_errors(fields, entries, extra, entries.len(), loc),
                        bound,
                    );
                    let kept = extra_values(fields, entries, extra, entries.len());
                    let made = fields_values(env, fields, entries, id, fields.len(), loc, guard);
                    lemma_kept_entries_joined(made, kept, kept.len(), bound);
                    assert(kept.subrange(0, kept.len() as int) =~= kept);
                },
                _ => {},
            }
        },
        NodeModel::Ref { name } => {
            match resolve(env.defs, name) {
                None => {},
                Some(d) => {
                    if guard.contains((d, id)) || guard.len() >= env.max_depth {
                    } else {
                        law_results_name_places(env, env.defs[d as int].body, id, loc, guard.push((d, id)));
                    }
                },
            }
        },
        NodeModel::Nullable { inner } => {
            law_results_name_places(env, *inner, id, loc, guard);
        },
        NodeModel::WithDefault { inner, default } => {
            law_results_name_places(env, *inner, id, loc, guard);
        },
        NodeModel::Check { inner, trigger, signal } => {
            law_results_name_places(env, *inner, id, loc, guard);
        },
        _ => {},
    }
}

/// What the members of a sequence yield names places of the store.
pub proof fn lemma_items_name_places(env: Env, items: NodeModel, members: Seq<usize>, n: nat, loc: Seq<LocItemModel>, guard: Guard)
    requires
        heap_closed(env.heap),
        ids_below(members, env.heap.len() as int),
        n <= members.len(),
    ensures
        inputs_within(items_errors(env, items, members, n, loc, guard), env.heap.len() as int),
        all_kept_within(
            items_values(env, items, members, n, loc, guard),
            items_values(env, items, members, n, loc, guard).len(),
            env.heap.len() as int,
        ),
    decreases env.max_depth - guard.len(), items, n + 2,
{
    if n > 0 {
        let bound = env.heap.len() as int;
        lemma_items_name_places(env, items, members, (n - 1) as nat, loc, guard);
        assert(members[n - 1] < bound);
        law_results_name_places(env, items, members[n - 1], loc.push(LocItemModel::Index((n - 1) as usize)), guard);
        let o = item_outcome(env, items, members, n - 1, loc, guard);
        let before = items_values(env, items, members, (n - 1) as nat, loc, guard);
        lemma_inputs_joined(items_errors(env, items, members, (n - 1) as nat, loc, guard), errors_of(o), bound);
        match o {
            OutcomeModel::Value(out) => {
                lemma_kept_pushed(before, out, before.len(), bound);
            },
            _ => {},
        }
    }
}

/// What the values of a mapping yield names places of the store.
pub proof fn lemma_entries_name_places(
    env: Env,
    values: NodeModel,
    entries: Seq<(Seq<char>, usize)>,
    n: nat,
    loc: Seq<LocItemModel>,
    guard: Guard,
)
    requires
        heap_closed(env.heap),
        entries_below(entries, env.heap.len() as int),
        n <= entries.len(),
    ensures
        inputs_within(entries_errors(env, values, entries, n, loc, guard), env.heap.len() as int),
        entries_kept_within(
            entries_values(env, values, entries, n, loc, guard),
            entries_values(env, values, entries, n, loc, guard).len(),
            env.heap.len() as int,
        ),
    decreases env.max_depth - guard.len(), values, n + 2,
{
    if n > 0 {
        let bound = env.heap.len() as int;
        lemma_entries_name_places(env, values, entries, (n - 1) as nat, loc, guard);
        assert(entries[n - 1].1 < bound);
        law_results_name_places(env, values, entries[n - 1].1, loc.push(LocItemModel::Key(entries[n - 1].0)), guard);
        let o = entry_outcome(env, values, entries, n - 1, loc, guard);
        let before = entries_values(env, values, entries, (n - 1) as nat, loc, guard);
        lemma_inputs_joined(entries_errors(env, values, entries, (n - 1) as nat, loc, guard), errors_of(o), bound);
        match o {
            OutcomeModel::Value(out) => {
                lemma_kept_entry_pushed(before, (entries[n - 1].0, out), before.len(), bound);
            },
            _ => {},
        }
    }
}

/// What the fields of a record yield names places of the store.
pub proof fn lemma_fields_name_places(
    env: Env,
    fields: Seq<FieldModel>,
    entries: Seq<(Seq<char>, usize)>,
    id: usize,
    n: nat,
    loc: Seq<LocItemModel>,
    guard: Guard,
)
    requires
        heap_closed(env.heap),
        id < env.heap.len(),
        entries_below(entries, env.heap.len() as int),
        n <= fields.len(),
    ensures
        inputs_within(fields_errors(env, fields, entries, id, n, loc, guard), env.heap.len() as int),
        entries_kept_within(
            fields_values(env, fields, entries, id, n, loc, guard),
            fields_values(env, fields, entries, id, n, loc, guard).len(),
            env.heap.len() as int,
        ),
    decreases env.max_depth - guard.len(), fields, n,
{
    if n > 0 {
        let bound = env.heap.len() as int;
        lemma_fields_name_places(env, fields, entries, id, (n - 1) as nat, loc, guard);
        let field = fields[n - 1];
        match find_entry(entries, field.name) {
            None => {},
            Some(j) => {
                crate::names::lemma_first_index_below(crate::semantics::entry_keys(entries), field.name, entries.len());
                assert(entries[j as int].1 < bound);
                law_results_name_places(env, field.schema, entries[j as int].1, loc.push(LocItemModel::Field(field.name)), guard);
            },
        }
        let o = field_outcome(env, field, entries, id, loc, guard);
        assert(outcome_within(o, bound)) by {
            match default_of(field.schema) {
                Some(l) => {
                    assert(kept_within(literal_output(l), bound));
                },
                None => {},
            }
        }
        let before = fields_values(env, fields, entries, id, (n - 1) as nat, loc, guard);
        lemma_inputs_joined(fields_errors(env, fields, entries, id, (n - 1) as nat, loc, guard), errors_of(o), bound);
        match o {
            OutcomeModel::Value(out) => {
                lemma_kept_entry_pushed(before, (field.name, out), before.len(), bound);
            },
            _ => {},
        }
    }
}

/// What a record makes of undeclared keys names places of the store.
pub proof fn lemma_extras_name_places(
    fields: Seq<FieldModel>,
    entries: Seq<(Seq<char>, usize)>,
    extra: ExtraPolicy,
    n: nat,
    loc: Seq<LocItemModel>,
    bound: int,
)
    requires
        entries_below(entries, bound),
        n <= entries.len(),
    ensures
        inputs_within(extra_errors(fields, entries, extra, n, loc), bound),
        entries_kept_within(extra_values(fields, entries, extra, n), extra_values(fields, entries, extra, n).len(), bound),
    decreases n,
{
    if n > 0 {
        lemma_extras_name_places(fields, entries, extra, (n - 1) as nat, loc, bound);
        assert(entries[n - 1].1 < bound);
        let before = extra_errors(fields, entries, extra, (n - 1) as nat, loc);
        let now = extra_errors(fields, entries, extra, n, loc);
        assert forall|j: int| 0 <= j < now.len() implies (#[trigger] now[j]).input < bound by {
            if j < before.len() {
                assert(now[j] == before[j]);
            }
        }
        let kept = extra_values(fields, entries, extra, (n - 1) as nat);
        if extra == ExtraPolicy::Keep && !declared(fields, entries[n - 1].0) {
            lemma_kept_entry_pushed(kept, (entries[n - 1].0, OutputModel::Kept(entries[n - 1].1)), kept.len(), bound);
        }
    }
}

} // verus!
