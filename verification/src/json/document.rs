//! Decoding a document into a store of values.

use super::lexical::{
    after_space, false_at, has_word4, null_at, number_span, number_value, read_number, skip_space, true_at,
};
use super::strings::{read_string, string_at};
use crate::value::{entries_below, entries_view, heap_layered, ids_below, Heap, Value, ValueModel};
use vstd::prelude::*;

verus! {

/// How deeply arrays and objects may be inside one another.
pub const MAX_NESTING: usize = 128;

/// What reading one value of a document gave: the store with the value and
/// all that it holds added, the place of the value, and the place in the text
/// after it.
pub struct Parsed {
    pub heap: Seq<ValueModel>,
    pub id: usize,
    pub next: int,
}

/// The reading that adds `v` to the store and goes on at `next`.
pub open spec fn stored(heap: Seq<ValueModel>, v: ValueModel, next: int) -> Option<Parsed> {
    Some(Parsed { heap: heap.push(v), id: heap.len() as usize, next })
}

/// The value that begins at `pos`, added to the store `heap` after all that
/// it holds. `depth` is how many arrays and objects may still be opened
/// inside one another. What a value holds is added before the value itself,
/// so that the place of a value is above the places of all that it holds.
pub open spec fn value_at(text: Seq<u8>, pos: int, heap: Seq<ValueModel>, depth: nat) -> Option<Parsed>
    decreases depth, text.len() - pos, 0nat,
{
    if !(0 <= pos < text.len()) {
        None
    } else if null_at(text, pos) {
        stored(heap, ValueModel::Null, pos + 4)
    } else if true_at(text, pos) {
        stored(heap, ValueModel::Bool(true), pos + 4)
    } else if false_at(text, pos) {
        stored(heap, ValueModel::Bool(false), pos + 5)
    } else if text[pos] == 0x22 {
        match string_at(text, pos) {
            Some((s, next)) => stored(heap, ValueModel::Str(s), next),
            None => None,
        }
    } else if text[pos] == 0x5b {
        let first = after_space(text, pos + 1);
        if depth == 0 {
            None
        } else if 0 <= first < text.len() && text[first] == 0x5d {
            stored(heap, ValueModel::List(Seq::empty()), first + 1)
        } else {
            items_at(text, first, heap, (depth - 1) as nat, Seq::empty())
        }
    } else if text[pos] == 0x7b {
        let first = after_space(text, pos + 1);
        if depth == 0 {
            None
        } else if 0 <= first < text.len() && text[first] == 0x7d {
            stored(heap, ValueModel::Dict(Seq::empty()), first + 1)
        } else {
            entries_at(text, first, heap, (depth - 1) as nat, Seq::empty())
        }
    } else {
        match number_span(text, pos) {
            Some(span) => match number_value(text, pos, span) {
                Some(v) => stored(heap, v, span.end),
                None => None,
            },
            None => None,
        }
    }
}

/// The array whose next member begins at `pos`, after the members at the
/// places `seen`: the member, then a comma and the rest, or the closing
/// bracket.
pub open spec fn items_at(text: Seq<u8>, pos: int, heap: Seq<ValueModel>, depth: nat, seen: Seq<usize>) -> Option<Parsed>
    decreases depth, text.len() - pos, 1nat,
{
    match value_at(text, pos, heap, depth) {
        None => None,
        Some(member) => {
            let mark = after_space(text, member.next);
            if !(pos < member.next <= mark < text.len()) {
                None
            } else if text[mark] == 0x2c {
                let rest = after_space(text, mark + 1);
                if mark < rest <= text.len() {
                    items_at(text, rest, member.heap, depth, seen.push(member.id))
                } else {
                    None
                }
            } else if text[mark] == 0x5d {
                stored(member.heap, ValueModel::List(seen.push(member.id)), mark + 1)
            } else {
                None
            }
        },
    }
}

/// The object whose next entry begins at `pos`, after the entries `seen`:
/// the key, a colon, the value, then a comma and the rest, or the closing
/// brace. Entries under one key are all kept, in their order.
pub open spec fn entries_at(text: Seq<u8>, pos: int, heap: Seq<ValueModel>, depth: nat, seen: Seq<(Seq<char>, usize)>) -> Option<
    Parsed,
>
    decreases depth, text.len() - pos, 1nat,
{
    match string_at(text, pos) {
        None => None,
        Some((key, after_key)) => {
            let colon = after_space(text, after_key);
            if !(pos < after_key <= colon < text.len() && text[colon] == 0x3a) {
                None
            } else {
                let start = after_space(text, colon + 1);
                if !(colon < start <= text.len()) {
                    None
                } else {
                    match value_at(text, start, heap, depth) {
                        None => None,
                        Some(member) => {
                            let mark = after_space(text, member.next);
                            if !(start < member.next <= mark < text.len()) {
                                None
                            } else if text[mark] == 0x2c {
                                let rest = after_space(text, mark + 1);
                                if mark < rest <= text.len() {
                                    entries_at(text, rest, member.heap, depth, seen.push((key, member.id)))
                                } else {
                                    None
                                }
                            } else if text[mark] == 0x7d {
                                stored(member.heap, ValueModel::Dict(seen.push((key, member.id))), mark + 1)
                            } else {
                                None
                            }
                        },
                    }
                }
            }
        },
    }
}

/// The store and the place of the root that a document decodes to: one
/// value, with white space before and after it and nothing else. `None` where
/// the text is no well-formed document, or nests deeper than
/// [`MAX_NESTING`]. The store holds the values of the document and nothing
/// else, each after all that it holds, the root last.
pub open spec fn decoded(text: Seq<u8>) -> Option<(Seq<ValueModel>, usize)> {
    match value_at(text, after_space(text, 0), Seq::empty(), MAX_NESTING as nat) {
        None => None,
        Some(root) => if after_space(text, root.next) == text.len() {
            Some((root.heap, root.id))
        } else {
            None
        },
    }
}

/// Reads the value that begins at `pos` into the store.
pub fn read_value(text: &[u8], pos: usize, heap: &mut Heap, depth: usize) -> (r: Option<(usize, usize)>)
    requires
        heap_layered(old(heap)@),
        pos <= text@.len(),
        old(heap)@.len() <= pos,
    ensures
        heap_layered(final(heap)@),
        match r {
            Some((id, next)) => value_at(text@, pos as int, old(heap)@, depth as nat) == Some(
                Parsed { heap: final(heap)@, id, next: next as int },
            ) && pos < next <= text@.len() && old(heap)@.len() <= id && id + 1 == final(heap)@.len() && final(heap)@.len() <= next,
            None => value_at(text@, pos as int, old(heap)@, depth as nat) is None,
        },
    decreases depth, text@.len() - pos, 0nat,
{
    if pos >= text.len() {
        return None;
    }
    let b = text[pos];
    if has_word4(text, pos, 0x6e, 0x75, 0x6c, 0x6c) {
        let id = heap.put(Value::Null);
        Some((id, pos + 4))
    } else if has_word4(text, pos, 0x74, 0x72, 0x75, 0x65) {
        let id = heap.put(Value::Bool(true));
        Some((id, pos + 4))
    } else if b == 0x66 && has_word4(text, pos + 1, 0x61, 0x6c, 0x73, 0x65) {
        let id = heap.put(Value::Bool(false));
        Some((id, pos + 5))
    } else if b == 0x22 {
        match read_string(text, pos) {
            Some((s, next)) => {
                let id = heap.put(Value::Str(s));
                Some((id, next))
            },
            None => None,
        }
    } else if b == 0x5b {
        let first = skip_space(text, pos + 1);
        if depth == 0 {
            None
        } else if first < text.len() && text[first] == 0x5d {
            let id = heap.put(Value::List(Vec::new()));
            Some((id, first + 1))
        } else {
            read_items(text, first, heap, depth - 1)
        }
    } else if b == 0x7b {
        let first = skip_space(text, pos + 1);
        if depth == 0 {
            None
        } else if first < text.len() && text[first] == 0x7d {
            let entries: Vec<(String, usize)> = Vec::new();
            assert(entries_view(&entries) =~= Seq::empty());
            let id = heap.put(Value::Dict(entries));
            Some((id, first + 1))
        } else {
            read_entries(text, first, heap, depth - 1)
        }
    } else {
        match read_number(text, pos) {
            Some((v, next)) => {
                let id = heap.put(v);
                Some((id, next))
            },
            None => None,
        }
    }
}

/// Reads the members of an array whose first member begins at `pos`, up to
/// and with the closing bracket, and adds the array to the store.
pub fn read_items(text: &[u8], pos: usize, heap: &mut Heap, depth: usize) -> (r: Option<(usize, usize)>)
    requires
        heap_layered(old(heap)@),
        pos <= text@.len(),
        old(heap)@.len() < pos,
    ensures
        heap_layered(final(heap)@),
        match r {
            Some((id, next)) => items_at(text@, pos as int, old(heap)@, depth as nat, Seq::empty()) == Some(
                Parsed { heap: final(heap)@, id, next: next as int },
            ) && pos < next <= text@.len() && old(heap)@.len() <= id && id + 1 == final(heap)@.len() && final(heap)@.len() <= next,
            None => items_at(text@, pos as int, old(heap)@, depth as nat, Seq::empty()) is None,
        },
    decreases depth, text@.len() - pos, 1nat,
{
    let mut seen: Vec<usize> = Vec::new();
    let mut at: usize = pos;
    loop
        invariant
            heap_layered(heap@),
            pos <= at <= text@.len(),
            old(heap)@.len() <= heap@.len() < at,
            ids_below(seen@, heap@.len() as int),
            items_at(text@, pos as int, old(heap)@, depth as nat, Seq::empty()) == items_at(
                text@,
                at as int,
                heap@,
                depth as nat,
                seen@,
            ),
        decreases text@.len() - at,
    {
        let (id, next) = match read_value(text, at, heap, depth) {
            Some(found) => found,
            None => {
                return None;
            },
        };
        let mark = skip_space(text, next);
        if mark >= text.len() {
            return None;
        }
        seen.push(id);
        if text[mark] == 0x2c {
            let rest = skip_space(text, mark + 1);
            at = rest;
        } else if text[mark] == 0x5d {
            let list = heap.put(Value::List(seen));
            return Some((list, mark + 1));
        } else {
            return None;
        }
    }
}

/// Reads the entries of an object whose first key begins at `pos`, up to and
/// with the closing brace, and adds the object to the store.
pub fn read_entries(text: &[u8], pos: usize, heap: &mut Heap, depth: usize) -> (r: Option<(usize, usize)>)
    requires
        heap_layered(old(heap)@),
        pos <= text@.len(),
        old(heap)@.len() < pos,
    ensures
        heap_layered(final(heap)@),
        match r {
            Some((id, next)) => entries_at(text@, pos as int, old(heap)@, depth as nat, Seq::empty()) == Some(
                Parsed { heap: final(heap)@, id, next: next as int },
            ) && pos < next <= text@.len() && old(heap)@.len() <= id && id + 1 == final(heap)@.len() && final(heap)@.len() <= next,
            None => entries_at(text@, pos as int, old(heap)@, depth as nat, Seq::empty()) is None,
        },
    decreases depth, text@.len() - pos, 1nat,
{
    let mut seen: Vec<(String, usize)> = Vec::new();
    let mut at: usize = pos;
    assert(entries_view(&seen) =~= Seq::empty());
    loop
        invariant
            heap_layered(heap@),
            pos <= at <= text@.len(),
            old(heap)@.len() <= heap@.len() < at,
            entries_below(entries_view(&seen), heap@.len() as int),
            entries_at(text@, pos as int, old(heap)@, depth as nat, Seq::empty()) == entries_at(
                text@,
                at as int,
                heap@,
                depth as nat,
                entries_view(&seen),
            ),
        decreases text@.len() - at,
    {
        let (key, after_key) = match read_string(text, at) {
            Some(found) => found,
            None => {
                return None;
            },
        };
        let colon = skip_space(text, after_key);
        if colon >= text.len() || text[colon] != 0x3a {
            return None;
        }
        let start = skip_space(text, colon + 1);
        let (id, next) = match read_value(text, start, heap, depth) {
            Some(found) => found,
            None => {
                return None;
            },
        };
        let mark = skip_space(text, next);
        if mark >= text.len() {
            return None;
        }
        let ghost before = entries_view(&seen);
        seen.push((key, id));
        assert(entries_view(&seen) =~= before.push((key@, id)));
        if text[mark] == 0x2c {
            let rest = skip_space(text, mark + 1);
            at = rest;
        } else if text[mark] == 0x7d {
            let dict = heap.put(Value::Dict(seen));
            return Some((dict, mark + 1));
        } else {
            return None;
        }
    }
}

/// Decodes a document into a store of its own: the store and the place of
/// the root, or `None` where the text is no well-formed document.
pub fn decode(text: &[u8]) -> (r: Option<(Heap, usize)>)
    ensures
        match r {
            Some((heap, id)) => decoded(text@) == Some((heap@, id)) && heap.wf() && heap_layered(heap@) && id + 1
                == heap@.len(),
            None => decoded(text@) is None,
        },
{
    let mut heap = Heap::new();
    let start = skip_space(text, 0);
    match read_value(text, start, &mut heap, MAX_NESTING) {
        None => None,
        Some((id, next)) => {
            if skip_space(text, next) == text.len() {
                proof {
                    crate::value::lemma_layered_is_closed(heap@);
                }
                Some((heap, id))
            } else {
                None
            }
        },
    }
}

} // verus!
