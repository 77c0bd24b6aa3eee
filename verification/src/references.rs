//! Which references of a schema name a definition of its registry.

use crate::names::resolve_def;
use crate::semantics::resolve;
use crate::validator::{definitions_view, fields_view, Definition, DefinitionModel, Field, FieldModel, GraphModel, NodeModel, Validator};
use vstd::prelude::*;

verus! {

/// The name of the first reference in a node, in the order of a walk, that
/// the registry has no definition for.
pub open spec fn unresolved(node: NodeModel, defs: Seq<DefinitionModel>) -> Option<Seq<char>>
    decreases node, 0nat,
{
    match node {
        NodeModel::Ref { name } => if resolve(defs, name) is None {
            Some(name)
        } else {
            None
        },
        NodeModel::List { items } => unresolved(*items, defs),
        NodeModel::SetOf { items } => unresolved(*items, defs),
        NodeModel::Dict { values } => unresolved(*values, defs),
        NodeModel::Record { fields, extra } => unresolved_in_fields(fields, defs, fields.len()),
        NodeModel::Nullable { inner } => unresolved(*inner, defs),
        NodeModel::WithDefault { inner, default } => unresolved(*inner, defs),
        NodeModel::Check { inner, trigger, signal } => unresolved(*inner, defs),
        _ => None,
    }
}

/// The first unresolved reference in the first `n` fields of a record.
pub open spec fn unresolved_in_fields(fields: Seq<FieldModel>, defs: Seq<DefinitionModel>, n: nat) -> Option<Seq<char>>
    decreases fields, n,
{
    if n == 0 || n > fields.len() {
        None
    } else {
        match unresolved_in_fields(fields, defs, (n - 1) as nat) {
            Some(name) => Some(name),
            None => unresolved(fields[n - 1].schema, defs),
        }
    }
}

/// The first unresolved reference in the bodies of the first `n` definitions.
pub open spec fn unresolved_in_definitions(defs: Seq<DefinitionModel>, n: nat) -> Option<Seq<char>>
    decreases n,
{
    if n == 0 || n > defs.len() {
        None
    } else {
        match unresolved_in_definitions(defs, (n - 1) as nat) {
            Some(name) => Some(name),
            None => unresolved(defs[n - 1].body, defs),
        }
    }
}

/// Whether every reference in a node names a definition of the registry.
pub open spec fn resolves(node: NodeModel, defs: Seq<DefinitionModel>) -> bool {
    unresolved(node, defs) is None
}

/// Whether every reference in the definitions of a registry names one of them.
pub open spec fn registry_resolves(defs: Seq<DefinitionModel>) -> bool {
    unresolved_in_definitions(defs, defs.len()) is None
}

/// Whether every reference of a compiled schema, at its root and in its
/// definitions, names a definition of its registry.
pub open spec fn closed(graph: GraphModel) -> bool {
    registry_resolves(graph.defs) && resolves(graph.root, graph.defs)
}

/// The characters of an optional name.
pub open spec fn opt_name_view(name: Option<String>) -> Option<Seq<char>> {
    match name {
        Some(n) => Some(n@),
        None => None,
    }
}

/// Once a field holds an unresolved reference, that one stays the first.
pub proof fn lemma_unresolved_in_fields_stays(fields: Seq<FieldModel>, defs: Seq<DefinitionModel>, m: nat, n: nat)
    requires
        m <= n <= fields.len(),
        unresolved_in_fields(fields, defs, m) is Some,
    ensures
        unresolved_in_fields(fields, defs, n) == unresolved_in_fields(fields, defs, m),
    decreases n - m,
{
    if m < n {
        lemma_unresolved_in_fields_stays(fields, defs, m, (n - 1) as nat);
    }
}

/// Once a definition holds an unresolved reference, that one stays the first.
pub proof fn lemma_unresolved_in_definitions_stays(defs: Seq<DefinitionModel>, m: nat, n: nat)
    requires
        m <= n <= defs.len(),
        unresolved_in_definitions(defs, m) is Some,
    ensures
        unresolved_in_definitions(defs, n) == unresolved_in_definitions(defs, m),
    decreases n - m,
{
    if m < n {
        lemma_unresolved_in_definitions_stays(defs, m, (n - 1) as nat);
    }
}

/// The name of the first reference in a node that the registry has no
/// definition for.
pub fn find_unresolved(node: &Validator, defs: &Vec<Definition>) -> (r: Option<String>)
    ensures
        opt_name_view(r) == unresolved(node@, definitions_view(defs)),
    decreases node, 0nat,
{
    match node {
        Validator::Ref { name } => {
            match resolve_def(defs, name) {
                None => Some(name.clone()),
                Some(_) => None,
            }
        },
        Validator::List { items } => find_unresolved(items, defs),
        Validator::SetOf { items } => find_unresolved(items, defs),
        Validator::Dict { values } => find_unresolved(values, defs),
        Validator::Record { fields, extra } => {
            proof {
                Validator::lemma_model_record(*fields, *extra);
            }
            find_unresolved_in_fields(fields, defs)
        },
        Validator::Nullable { inner } => find_unresolved(inner, defs),
        Validator::WithDefault { inner, default: _ } => find_unresolved(inner, defs),
        Validator::Check { inner, trigger: _, signal: _ } => find_unresolved(inner, defs),
        _ => None,
    }
}

/// The first unresolved reference in the fields of a record.
pub fn find_unresolved_in_fields(fields: &Vec<Field>, defs: &Vec<Definition>) -> (r: Option<String>)
    ensures
        opt_name_view(r) == unresolved_in_fields(fields_view(fields), definitions_view(defs), fields@.len()),
    decreases fields, 0nat,
{
    let ghost model = fields_view(fields);
    let mut i: usize = 0;
    while i < fields.len()
        invariant
            i <= fields.len(),
            model == fields_view(fields),
            unresolved_in_fields(model, definitions_view(defs), i as nat) is None,
        decreases fields.len() - i,
    {
        assert(model[i as int] == fields[i as int]@);
        match find_unresolved(&fields[i].schema, defs) {
            Some(name) => {
                proof {
                    lemma_unresolved_in_fields_stays(model, definitions_view(defs), (i + 1) as nat, fields@.len() as nat);
                }
                return Some(name);
            },
            None => {},
        }
        i = i + 1;
    }
    None
}

/// The first unresolved reference in the bodies of the definitions.
pub fn find_unresolved_in_definitions(defs: &Vec<Definition>) -> (r: Option<String>)
    ensures
        opt_name_view(r) == unresolved_in_definitions(definitions_view(defs), defs@.len()),
{
    let ghost model = definitions_view(defs);
    let mut i: usize = 0;
    while i < defs.len()
        invariant
            i <= defs.len(),
            model == definitions_view(defs),
            unresolved_in_definitions(model, i as nat) is None,
        decreases defs.len() - i,
    {
        assert(model[i as int] == defs[i as int]@);
        match find_unresolved(&defs[i].body, defs) {
            Some(name) => {
                proof {
                    lemma_unresolved_in_definitions_stays(model, (i + 1) as nat, defs@.len() as nat);
                }
                return Some(name);
            },
            None => {},
        }
        i = i + 1;
    }
    None
}

/// Where the first fields hold no unresolved reference, none of them does.
pub proof fn lemma_field_resolves(fields: Seq<FieldModel>, defs: Seq<DefinitionModel>, n: nat, k: int)
    requires
        0 <= k < n <= fields.len(),
        unresolved_in_fields(fields, defs, n) is None,
    ensures
        unresolved(fields[k].schema, defs) is None,
    decreases n,
{
    if k < n - 1 {
        lemma_field_resolves(fields, defs, (n - 1) as nat, k);
    }
}

/// Where the first definitions hold no unresolved reference, none of them does.
pub proof fn lemma_definition_resolves(defs: Seq<DefinitionModel>, n: nat, k: int)
    requires
        0 <= k < n <= defs.len(),
        unresolved_in_definitions(defs, n) is None,
    ensures
        unresolved(defs[k].body, defs) is None,
    decreases n,
{
    if k < n - 1 {
        lemma_definition_resolves(defs, (n - 1) as nat, k);
    }
}

} // verus!
