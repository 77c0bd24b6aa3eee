//! Looking names up: definitions, keys of mappings, fields of records.

use crate::semantics::{declared, definition_names, entry_keys, field_names, find_entry, first_index, resolve};
use crate::validator::{definitions_view, fields_view, Definition, Field};
use crate::value::entries_view;
use vstd::prelude::*;

verus! {

/// A place that [`first_index`] gives is one of the first `n`, holds the
/// name, and no place before it does.
pub proof fn lemma_first_index_some(names: Seq<Seq<char>>, name: Seq<char>, n: nat)
    requires
        n <= names.len() <= usize::MAX,
    ensures
        first_index(names, name, n) matches Some(i) ==> i < n && names[i as int] == name && forall|j: int|
            0 <= j < i ==> names[j] != name,
        first_index(names, name, n) is None ==> forall|j: int| 0 <= j < n ==> names[j] != name,
    decreases n,
{
    if n > 0 {
        lemma_first_index_some(names, name, (n - 1) as nat);
    }
}

/// A place that [`first_index`] gives is one of the first `n`, however many
/// names there are.
pub proof fn lemma_first_index_below(names: Seq<Seq<char>>, name: Seq<char>, n: nat)
    requires
        n <= names.len(),
    ensures
        first_index(names, name, n) matches Some(i) ==> i < n,
    decreases n,
{
    if n > 0 {
        lemma_first_index_below(names, name, (n - 1) as nat);
    }
}

/// Where the name stands at `i` and nowhere before, [`first_index`] gives `i`
/// as soon as it looks that far.
pub proof fn lemma_first_index_found(names: Seq<Seq<char>>, name: Seq<char>, i: nat, n: nat)
    requires
        i < n <= names.len() <= usize::MAX,
        names[i as int] == name,
        forall|j: int| 0 <= j < i ==> names[j] != name,
    ensures
        first_index(names, name, n) == Some(i as usize),
    decreases n,
{
    lemma_first_index_some(names, name, i);
    if n > i + 1 {
        lemma_first_index_found(names, name, i, (n - 1) as nat);
    }
}

/// The place in the registry of the definition that `name` refers to.
pub fn resolve_def(defs: &Vec<Definition>, name: &String) -> (r: Option<usize>)
    ensures
        r == resolve(definitions_view(defs), name@),
        r matches Some(d) ==> d < defs.len(),
{
    let ghost names = definition_names(definitions_view(defs));
    let mut i: usize = 0;
    while i < defs.len()
        invariant
            i <= defs.len(),
            names == definition_names(definitions_view(defs)),
            forall|j: int| 0 <= j < i ==> names[j] != name@,
        decreases defs.len() - i,
    {
        if defs[i].name == *name {
            proof {
                assert(names[i as int] == name@);
                lemma_first_index_found(names, name@, i as nat, defs.len() as nat);
            }
            return Some(i);
        }
        i = i + 1;
    }
    proof {
        lemma_first_index_some(names, name@, defs.len() as nat);
    }
    None
}

/// The place among the entries of the first one under `key`.
pub fn find_entry_of(entries: &Vec<(String, usize)>, key: &String) -> (r: Option<usize>)
    ensures
        r == find_entry(entries_view(entries), key@),
        r matches Some(j) ==> j < entries.len(),
{
    let ghost names = entry_keys(entries_view(entries));
    let mut i: usize = 0;
    while i < entries.len()
        invariant
            i <= entries.len(),
            names == entry_keys(entries_view(entries)),
            forall|j: int| 0 <= j < i ==> names[j] != key@,
        decreases entries.len() - i,
    {
        if entries[i].0 == *key {
            proof {
                assert(names[i as int] == key@);
                lemma_first_index_found(names, key@, i as nat, entries.len() as nat);
            }
            return Some(i);
        }
        i = i + 1;
    }
    proof {
        lemma_first_index_some(names, key@, entries.len() as nat);
    }
    None
}

/// Whether one of the fields is declared under `key`.
pub fn is_declared(fields: &Vec<Field>, key: &String) -> (r: bool)
    ensures
        r == declared(fields_view(fields), key@),
{
    let ghost names = field_names(fields_view(fields));
    let mut i: usize = 0;
    while i < fields.len()
        invariant
            i <= fields.len(),
            names == field_names(fields_view(fields)),
            forall|j: int| 0 <= j < i ==> names[j] != key@,
        decreases fields.len() - i,
    {
        if fields[i].name == *key {
            proof {
                assert(names[i as int] == fields[i as int].model().name);
                lemma_first_index_found(names, key@, i as nat, fields.len() as nat);
            }
            return true;
        }
        proof {
            assert(names[i as int] == fields[i as int].model().name);
        }
        i = i + 1;
    }
    proof {
        lemma_first_index_some(names, key@, fields.len() as nat);
    }
    false
}

} // verus!
