//! The values of the host, held in a store by their places.

use vstd::prelude::*;

verus! {

/// A constant of one of the scalar kinds. Two constants are the same only if
/// they are of the same kind: the number 1 and the text "1" never are.
#[derive(Debug, PartialEq, Eq)]
pub enum Literal {
    Null,
    Bool(bool),
    Int(i64),
    Str(String),
    Bytes(Vec<u8>),
}

/// A constant as contracts see it.
pub enum LiteralModel {
    Null,
    Bool(bool),
    Int(i64),
    Str(Seq<char>),
    Bytes(Seq<u8>),
}

impl View for Literal {
    type V = LiteralModel;

    open spec fn view(&self) -> LiteralModel {
        match self {
            Literal::Null => LiteralModel::Null,
            Literal::Bool(b) => LiteralModel::Bool(*b),
            Literal::Int(i) => LiteralModel::Int(*i),
            Literal::Str(s) => LiteralModel::Str(s@),
            Literal::Bytes(b) => LiteralModel::Bytes(b@),
        }
    }
}

/// Whether two byte strings hold the same bytes.
pub fn same_bytes(a: &Vec<u8>, b: &Vec<u8>) -> (same: bool)
    ensures
        same == (a@ == b@),
{
    if a.len() != b.len() {
        return false;
    }
    let mut i: usize = 0;
    while i < a.len()
        invariant
            i <= a.len(),
            a.len() == b.len(),
            forall|j: int| 0 <= j < i ==> a@[j] == b@[j],
        decreases a.len() - i,
    {
        if a[i] != b[i] {
            return false;
        }
        i = i + 1;
    }
    assert(a@ =~= b@);
    true
}

/// A copy of a byte string.
pub fn copy_bytes(bytes: &Vec<u8>) -> (copy: Vec<u8>)
    ensures
        copy@ == bytes@,
{
    let mut copy: Vec<u8> = Vec::new();
    let mut i: usize = 0;
    while i < bytes.len()
        invariant
            i <= bytes.len(),
            copy@ == bytes@.subrange(0, i as int),
        decreases bytes.len() - i,
    {
        copy.push(bytes[i]);
        assert(copy@ =~= bytes@.subrange(0, i + 1));
        i = i + 1;
    }
    assert(bytes@.subrange(0, bytes.len() as int) =~= bytes@);
    copy
}

impl Clone for Literal {
    fn clone(&self) -> (copy: Literal)
        ensures
            copy@ == self@,
    {
        match self {
            Literal::Null => Literal::Null,
            Literal::Bool(b) => Literal::Bool(*b),
            Literal::Int(i) => Literal::Int(*i),
            Literal::Str(s) => Literal::Str(s.clone()),
            Literal::Bytes(b) => Literal::Bytes(copy_bytes(b)),
        }
    }
}

/// Whether two constants are the same: of the same kind, and equal.
pub fn same_literal(a: &Literal, b: &Literal) -> (same: bool)
    ensures
        same == (a@ == b@),
{
    match (a, b) {
        (Literal::Null, Literal::Null) => true,
        (Literal::Bool(x), Literal::Bool(y)) => *x == *y,
        (Literal::Int(x), Literal::Int(y)) => *x == *y,
        (Literal::Str(x), Literal::Str(y)) => *x == *y,
        (Literal::Bytes(x), Literal::Bytes(y)) => same_bytes(x, y),
        _ => false,
    }
}

/// The constants of a list, each by its model.
pub open spec fn literals_view(list: &Vec<Literal>) -> Seq<LiteralModel> {
    Seq::new(list.len() as nat, |i: int| list[i]@)
}

/// A copy of a list of constants.
pub fn copy_literals(list: &Vec<Literal>) -> (copy: Vec<Literal>)
    ensures
        literals_view(&copy) == literals_view(list),
{
    let mut copy: Vec<Literal> = Vec::new();
    let mut i: usize = 0;
    while i < list.len()
        invariant
            i <= list.len(),
            copy.len() == i,
            forall|j: int| 0 <= j < i ==> (#[trigger] copy[j])@ == list[j]@,
        decreases list.len() - i,
    {
        copy.push(list[i].clone());
        i = i + 1;
    }
    assert(literals_view(&copy) =~= literals_view(list));
    copy
}

/// One value of the host, held in a [`Heap`]. A container does not own its
/// members: it names them by their place in the heap, so that a value can be a
/// member of several containers, and of itself.
#[derive(Debug, PartialEq, Eq)]
pub enum Value {
    Null,
    Bool(bool),
    Int(i64),
    Str(String),
    Bytes(Vec<u8>),
    /// A number that is not held as an integer: its numeral as it was written.
    Real(String),
    /// An ordered sequence of members.
    List(Vec<usize>),
    /// A set of members; the order in which it is held carries no meaning.
    SetOf(Vec<usize>),
    /// An ordered mapping from text keys to members.
    Dict(Vec<(String, usize)>),
    /// A value of a kind of the host's own, which the engine does not look into.
    Other,
}

/// A host value as contracts see it.
pub enum ValueModel {
    Null,
    Bool(bool),
    Int(i64),
    Str(Seq<char>),
    Bytes(Seq<u8>),
    Real(Seq<char>),
    List(Seq<usize>),
    SetOf(Seq<usize>),
    Dict(Seq<(Seq<char>, usize)>),
    Other,
}

/// The entries of a mapping, each key by its characters.
pub open spec fn entries_view(entries: &Vec<(String, usize)>) -> Seq<(Seq<char>, usize)> {
    Seq::new(entries.len() as nat, |i: int| (entries[i].0@, entries[i].1))
}

impl View for Value {
    type V = ValueModel;

    open spec fn view(&self) -> ValueModel {
        match self {
            Value::Null => ValueModel::Null,
            Value::Bool(b) => ValueModel::Bool(*b),
            Value::Int(i) => ValueModel::Int(*i),
            Value::Str(s) => ValueModel::Str(s@),
            Value::Bytes(b) => ValueModel::Bytes(b@),
            Value::Real(t) => ValueModel::Real(t@),
            Value::List(m) => ValueModel::List(m@),
            Value::SetOf(m) => ValueModel::SetOf(m@),
            Value::Dict(e) => ValueModel::Dict(entries_view(e)),
            Value::Other => ValueModel::Other,
        }
    }
}

/// Every place in `ids` lies below `bound`.
pub open spec fn ids_below(ids: Seq<usize>, bound: int) -> bool {
    forall|i: int| 0 <= i < ids.len() ==> (#[trigger] ids[i]) < bound
}

/// Every member of `entries` lies below `bound`.
pub open spec fn entries_below(entries: Seq<(Seq<char>, usize)>, bound: int) -> bool {
    forall|i: int| 0 <= i < entries.len() ==> (#[trigger] entries[i]).1 < bound
}

/// A copy of the entries of a mapping.
pub fn copy_entries(entries: &Vec<(String, usize)>) -> (copy: Vec<(String, usize)>)
    ensures
        entries_view(&copy) == entries_view(entries),
{
    let mut copy: Vec<(String, usize)> = Vec::new();
    let mut i: usize = 0;
    while i < entries.len()
        invariant
            i <= entries.len(),
            copy.len() == i,
            forall|j: int| 0 <= j < i ==> (#[trigger] copy[j]).0@ == entries[j].0@ && copy[j].1 == entries[j].1,
        decreases entries.len() - i,
    {
        copy.push((entries[i].0.clone(), entries[i].1));
        i = i + 1;
    }
    assert(entries_view(&copy) =~= entries_view(entries));
    copy
}

impl Clone for Value {
    fn clone(&self) -> (copy: Value)
        ensures
            copy@ == self@,
    {
        match self {
            Value::Null => Value::Null,
            Value::Bool(b) => Value::Bool(*b),
            Value::Int(i) => Value::Int(*i),
            Value::Str(s) => Value::Str(s.clone()),
            Value::Bytes(b) => Value::Bytes(copy_bytes(b)),
            Value::Real(t) => Value::Real(t.clone()),
            Value::List(m) => {
                let copy = m.clone();
                assert(copy@ =~= m@);
                Value::List(copy)
            },
            Value::SetOf(m) => {
                let copy = m.clone();
                assert(copy@ =~= m@);
                Value::SetOf(copy)
            },
            Value::Dict(e) => Value::Dict(copy_entries(e)),
            Value::Other => Value::Other,
        }
    }
}

impl ValueModel {
    /// Every member that the value names lies below `bound`.
    pub open spec fn members_below(self, bound: int) -> bool {
        match self {
            ValueModel::List(m) => ids_below(m, bound),
            ValueModel::SetOf(m) => ids_below(m, bound),
            ValueModel::Dict(e) => entries_below(e, bound),
            _ => true,
        }
    }
}

/// Every value of the store names only members that the store holds.
pub open spec fn heap_closed(values: Seq<ValueModel>) -> bool {
    forall|i: int| 0 <= i < values.len() ==> (#[trigger] values[i]).members_below(values.len() as int)
}

/// Every value of the store names only members that were placed before it:
/// the store holds trees, with no value inside itself.
pub open spec fn heap_layered(values: Seq<ValueModel>) -> bool {
    forall|i: int| 0 <= i < values.len() ==> (#[trigger] values[i]).members_below(i)
}

/// A store of trees is closed under members.
pub proof fn lemma_layered_is_closed(values: Seq<ValueModel>)
    requires
        heap_layered(values),
    ensures
        heap_closed(values),
{
    assert forall|i: int| 0 <= i < values.len() implies (#[trigger] values[i]).members_below(values.len() as int) by {
        assert(values[i].members_below(i));
        match values[i] {
            ValueModel::List(m) => {
                assert forall|k: int| 0 <= k < m.len() implies (#[trigger] m[k]) < values.len() by {
                    assert(m[k] < i);
                }
            },
            ValueModel::SetOf(m) => {
                assert forall|k: int| 0 <= k < m.len() implies (#[trigger] m[k]) < values.len() by {
                    assert(m[k] < i);
                }
            },
            ValueModel::Dict(e) => {
                assert forall|k: int| 0 <= k < e.len() implies (#[trigger] e[k]).1 < values.len() by {
                    assert(e[k].1 < i);
                }
            },
            _ => {},
        }
    }
}

/// The host's values, each known by its place: the first value added is 0, the
/// next 1, and so on. Places are the identity of values: the same place is the
/// same value.
#[derive(Debug)]
pub struct Heap {
    values: Vec<Value>,
}

impl View for Heap {
    type V = Seq<ValueModel>;

    closed spec fn view(&self) -> Seq<ValueModel> {
        Seq::new(self.values.len() as nat, |i: int| self.values[i]@)
    }
}

impl Heap {
    /// What every store built by the functions of this type satisfies: a
    /// member is a place of the store.
    pub open spec fn wf(&self) -> bool {
        heap_closed(self@)
    }

    /// A store that holds nothing.
    pub fn new() -> (heap: Heap)
        ensures
            heap.wf(),
            heap@ == Seq::<ValueModel>::empty(),
    {
        let heap = Heap { values: Vec::new() };
        assert(heap@ =~= Seq::<ValueModel>::empty());
        heap
    }

    /// The number of values held.
    pub fn len(&self) -> (n: usize)
        ensures
            n == self@.len(),
    {
        self.values.len()
    }

    /// The value at a place.
    pub fn get(&self, id: usize) -> (value: &Value)
        requires
            id < self@.len(),
        ensures
            value@ == self@[id as int],
    {
        &self.values[id]
    }

    /// Whether every member that `value` names lies below `bound`.
    fn members_in_range(value: &Value, bound: usize) -> (ok: bool)
        ensures
            ok == value@.members_below(bound as int),
    {
        match value {
            Value::List(m) => Self::ids_in_range(m, bound),
            Value::SetOf(m) => Self::ids_in_range(m, bound),
            Value::Dict(e) => Self::entries_in_range(e, bound),
            _ => true,
        }
    }

    fn ids_in_range(ids: &Vec<usize>, bound: usize) -> (ok: bool)
        ensures
            ok == ids_below(ids@, bound as int),
    {
        let mut i: usize = 0;
        while i < ids.len()
            invariant
                i <= ids.len(),
                forall|j: int| 0 <= j < i ==> (#[trigger] ids@[j]) < bound,
            decreases ids.len() - i,
        {
            if ids[i] >= bound {
                return false;
            }
            i = i + 1;
        }
        true
    }

    fn entries_in_range(entries: &Vec<(String, usize)>, bound: usize) -> (ok: bool)
        ensures
            ok == entries_below(entries_view(entries), bound as int),
    {
        let mut i: usize = 0;
        while i < entries.len()
            invariant
                i <= entries.len(),
                forall|j: int| 0 <= j < i ==> (#[trigger] entries_view(entries)[j]).1 < bound,
            decreases entries.len() - i,
        {
            if entries[i].1 >= bound {
                assert(entries_view(entries)[i as int].1 >= bound);
                return false;
            }
            i = i + 1;
        }
        true
    }

    /// Adds a value and gives its place. The value may name as members the
    /// values already held and itself; if it names any other place, or the
    /// store is full, nothing is added.
    pub fn add(&mut self, value: Value) -> (id: Option<usize>)
        requires
            old(self).wf(),
        ensures
            final(self).wf(),
            id is Some <==> old(self)@.len() < usize::MAX && value@.members_below(old(self)@.len() as int + 1),
            id matches Some(n) ==> n == old(self)@.len() && final(self)@ == old(self)@.push(value@),
            id is None ==> final(self)@ == old(self)@,
    {
        let n = self.values.len();
        if n == usize::MAX {
            return None;
        }
        if !Self::members_in_range(&value, n + 1) {
            return None;
        }
        self.values.push(value);
        assert(self@ =~= old(self)@.push(value@));
        Some(n)
    }

    /// Adds a value of which the caller has shown that it names only values
    /// already held, and gives its place.
    pub(crate) fn put(&mut self, value: Value) -> (id: usize)
        requires
            heap_layered(old(self)@),
            old(self)@.len() < usize::MAX,
            value@.members_below(old(self)@.len() as int),
        ensures
            final(self).wf(),
            heap_layered(final(self)@),
            id == old(self)@.len(),
            final(self)@ == old(self)@.push(value@),
    {
        let id = self.values.len();
        self.values.push(value);
        assert(self@ =~= old(self)@.push(value@));
        proof {
            lemma_layered_is_closed(self@);
        }
        id
    }

    /// Makes `member` one more member of the sequence or set at `container`,
    /// after those it has. This is how a value comes to hold itself, directly
    /// or through others. Nothing is done where either place is not of the
    /// store, or `container` is neither a sequence nor a set.
    pub fn append(&mut self, container: usize, member: usize) -> (done: bool)
        requires
            old(self).wf(),
        ensures
            final(self).wf(),
            done == append_applies(old(self)@, container, member),
            done ==> final(self)@ == appended(old(self)@, container, member),
            !done ==> final(self)@ == old(self)@,
    {
        let n = self.values.len();
        if container >= n || member >= n {
            return false;
        }
        let ghost before = self@;
        let done = match &mut self.values[container] {
            Value::List(m) => {
                m.push(member);
                true
            },
            Value::SetOf(m) => {
                m.push(member);
                true
            },
            _ => false,
        };
        proof {
            if done {
                assert(self@ =~= appended(before, container, member));
                assert forall|i: int| 0 <= i < self@.len() implies (#[trigger] self@[i]).members_below(self@.len() as int) by {
                    assert(before[i].members_below(before.len() as int));
                }
            } else {
                assert(self@ =~= before);
            }
        }
        done
    }

    /// Gives the mapping at `container` one more entry, after those it has.
    /// Nothing is done where either place is not of the store, or `container`
    /// is no mapping.
    pub fn insert(&mut self, container: usize, key: String, member: usize) -> (done: bool)
        requires
            old(self).wf(),
        ensures
            final(self).wf(),
            done == insert_applies(old(self)@, container, member),
            done ==> final(self)@ == inserted(old(self)@, container, key@, member),
            !done ==> final(self)@ == old(self)@,
    {
        let n = self.values.len();
        if container >= n || member >= n {
            return false;
        }
        let ghost before = self@;
        let done = match &mut self.values[container] {
            Value::Dict(e) => {
                let ghost old_e = entries_view(e);
                e.push((key, member));
                assert(entries_view(e) =~= old_e.push((key@, member)));
                true
            },
            _ => false,
        };
        proof {
            if done {
                assert(self@ =~= inserted(before, container, key@, member));
                assert forall|i: int| 0 <= i < self@.len() implies (#[trigger] self@[i]).members_below(self@.len() as int) by {
                    assert(before[i].members_below(before.len() as int));
                }
            } else {
                assert(self@ =~= before);
            }
        }
        done
    }
}

/// Whether [`Heap::append`] has a sequence or a set to add to, and a member to add.
pub open spec fn append_applies(heap: Seq<ValueModel>, container: usize, member: usize) -> bool {
    &&& container < heap.len()
    &&& member < heap.len()
    &&& (heap[container as int] is List || heap[container as int] is SetOf)
}

/// The store after `member` became the last member of the value at `container`.
pub open spec fn appended(heap: Seq<ValueModel>, container: usize, member: usize) -> Seq<ValueModel> {
    heap.update(
        container as int,
        match heap[container as int] {
            ValueModel::List(m) => ValueModel::List(m.push(member)),
            ValueModel::SetOf(m) => ValueModel::SetOf(m.push(member)),
            other => other,
        },
    )
}

/// Whether [`Heap::insert`] has a mapping to add to, and a member to add.
pub open spec fn insert_applies(heap: Seq<ValueModel>, container: usize, member: usize) -> bool {
    &&& container < heap.len()
    &&& member < heap.len()
    &&& heap[container as int] is Dict
}

/// The store after the entry became the last of the mapping at `container`.
pub open spec fn inserted(heap: Seq<ValueModel>, container: usize, key: Seq<char>, member: usize) -> Seq<ValueModel> {
    heap.update(
        container as int,
        match heap[container as int] {
            ValueModel::Dict(e) => ValueModel::Dict(e.push((key, member))),
            other => other,
        },
    )
}

} // verus!
