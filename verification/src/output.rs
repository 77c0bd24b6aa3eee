//! The values that validation produces.

use crate::value::{copy_bytes, same_bytes, Literal, LiteralModel};
use vstd::prelude::*;

verus! {

/// A value that validation produced. It owns what it holds, except where a
/// value of the input was handed through as it was: that one is named by its
/// place in the store.
#[derive(Debug, PartialEq, Eq)]
pub enum Output {
    Null,
    Bool(bool),
    Int(i64),
    Str(String),
    Bytes(Vec<u8>),
    /// A number that is not held as an integer: its numeral.
    Real(String),
    /// The validated members of a sequence, in their order.
    List(Vec<Output>),
    /// The validated members of a set, none of them twice.
    SetOf(Vec<Output>),
    /// The validated entries of a mapping or a record, in their order.
    Dict(Vec<(String, Output)>),
    /// A value of the input, handed through unchanged.
    Kept(usize),
}

/// A produced value as contracts see it.
pub enum OutputModel {
    Null,
    Bool(bool),
    Int(i64),
    Str(Seq<char>),
    Bytes(Seq<u8>),
    Real(Seq<char>),
    List(Seq<OutputModel>),
    SetOf(Seq<OutputModel>),
    Dict(Seq<(Seq<char>, OutputModel)>),
    Kept(usize),
}

/// The models of a list of produced values.
pub open spec fn outputs_view(list: &Vec<Output>) -> Seq<OutputModel> {
    Seq::new(list.len() as nat, |i: int| list[i].model())
}

/// The models of a list of produced entries.
pub open spec fn out_entries_view(list: &Vec<(String, Output)>) -> Seq<(Seq<char>, OutputModel)> {
    Seq::new(list.len() as nat, |i: int| (list[i].0@, list[i].1.model()))
}

impl Output {
    /// The value by its model.
    pub open spec fn model(&self) -> OutputModel
        decreases self,
    {
        match self {
            Output::Null => OutputModel::Null,
            Output::Bool(b) => OutputModel::Bool(*b),
            Output::Int(i) => OutputModel::Int(*i),
            Output::Str(s) => OutputModel::Str(s@),
            Output::Bytes(b) => OutputModel::Bytes(b@),
            Output::Real(t) => OutputModel::Real(t@),
            Output::List(items) => OutputModel::List(
                Seq::new(
                    items.len() as nat,
                    |i: int|
                        if 0 <= i < items.len() {
                            items[i].model()
                        } else {
                            OutputModel::Null
                        },
                ),
            ),
            Output::SetOf(items) => OutputModel::SetOf(
                Seq::new(
                    items.len() as nat,
                    |i: int|
                        if 0 <= i < items.len() {
                            items[i].model()
                        } else {
                            OutputModel::Null
                        },
                ),
            ),
            Output::Dict(entries) => OutputModel::Dict(
                Seq::new(
                    entries.len() as nat,
                    |i: int|
                        if 0 <= i < entries.len() {
                            (entries[i].0@, entries[i].1.model())
                        } else {
                            (Seq::<char>::empty(), OutputModel::Null)
                        },
                ),
            ),
            Output::Kept(id) => OutputModel::Kept(*id),
        }
    }

    /// The model of a sequence is made of the models of its members.
    pub proof fn lemma_model_list(items: Vec<Output>)
        ensures
            Output::List(items).model() == OutputModel::List(outputs_view(&items)),
            Output::SetOf(items).model() == OutputModel::SetOf(outputs_view(&items)),
    {
        assert(Output::List(items).model()->List_0 =~= outputs_view(&items));
        assert(Output::SetOf(items).model()->SetOf_0 =~= outputs_view(&items));
    }

    /// The model of a mapping is made of the models of its entries.
    pub proof fn lemma_model_dict(entries: Vec<(String, Output)>)
        ensures
            Output::Dict(entries).model() == OutputModel::Dict(out_entries_view(&entries)),
    {
        assert(Output::Dict(entries).model()->Dict_0 =~= out_entries_view(&entries));
    }

    /// The produced value that is the constant `literal`.
    pub fn from_literal(literal: &Literal) -> (out: Output)
        ensures
            out@ == literal_output(literal@),
    {
        match literal {
            Literal::Null => Output::Null,
            Literal::Bool(b) => Output::Bool(*b),
            Literal::Int(i) => Output::Int(*i),
            Literal::Str(s) => Output::Str(s.clone()),
            Literal::Bytes(b) => Output::Bytes(copy_bytes(b)),
        }
    }

    /// A sequence of the given members.
    pub fn list(items: Vec<Output>) -> (out: Output)
        ensures
            out@ == OutputModel::List(outputs_view(&items)),
    {
        proof {
            Self::lemma_model_list(items);
        }
        Output::List(items)
    }

    /// A set of the given members.
    pub fn set_of(items: Vec<Output>) -> (out: Output)
        ensures
            out@ == OutputModel::SetOf(outputs_view(&items)),
    {
        proof {
            Self::lemma_model_list(items);
        }
        Output::SetOf(items)
    }

    /// A mapping of the given entries.
    pub fn dict(entries: Vec<(String, Output)>) -> (out: Output)
        ensures
            out@ == OutputModel::Dict(out_entries_view(&entries)),
    {
        proof {
            Self::lemma_model_dict(entries);
        }
        Output::Dict(entries)
    }

    /// Whether two produced values are the same: of one kind, and holding the
    /// same, member by member.
    pub fn same(&self, other: &Output) -> (same: bool)
        ensures
            same == (self@ == other@),
        decreases self,
    {
        match (self, other) {
            (Output::Null, Output::Null) => true,
            (Output::Bool(a), Output::Bool(b)) => *a == *b,
            (Output::Int(a), Output::Int(b)) => *a == *b,
            (Output::Str(a), Output::Str(b)) => *a == *b,
            (Output::Bytes(a), Output::Bytes(b)) => same_bytes(a, b),
            (Output::Real(a), Output::Real(b)) => *a == *b,
            (Output::List(a), Output::List(b)) => {
                proof {
                    Self::lemma_model_list(*a);
                    Self::lemma_model_list(*b);
                }
                Self::same_items(a, b)
            },
            (Output::SetOf(a), Output::SetOf(b)) => {
                proof {
                    Self::lemma_model_list(*a);
                    Self::lemma_model_list(*b);
                }
                Self::same_items(a, b)
            },
            (Output::Dict(a), Output::Dict(b)) => {
                proof {
                    Self::lemma_model_dict(*a);
                    Self::lemma_model_dict(*b);
                }
                Self::same_entries(a, b)
            },
            (Output::Kept(a), Output::Kept(b)) => *a == *b,
            _ => false,
        }
    }

    fn same_items(a: &Vec<Output>, b: &Vec<Output>) -> (same: bool)
        ensures
            same == (outputs_view(a) == outputs_view(b)),
        decreases a,
    {
        if a.len() != b.len() {
            assert(outputs_view(a).len() != outputs_view(b).len());
            return false;
        }
        let mut i: usize = 0;
        while i < a.len()
            invariant
                i <= a.len(),
                a.len() == b.len(),
                forall|j: int| 0 <= j < i ==> outputs_view(a)[j] == outputs_view(b)[j],
            decreases a.len() - i,
        {
            if !a[i].same(&b[i]) {
                assert(outputs_view(a)[i as int] != outputs_view(b)[i as int]);
                return false;
            }
            i = i + 1;
        }
        assert(outputs_view(a) =~= outputs_view(b));
        true
    }

    fn same_entries(a: &Vec<(String, Output)>, b: &Vec<(String, Output)>) -> (same: bool)
        ensures
            same == (out_entries_view(a) == out_entries_view(b)),
        decreases a,
    {
        if a.len() != b.len() {
            assert(out_entries_view(a).len() != out_entries_view(b).len());
            return false;
        }
        let mut i: usize = 0;
        while i < a.len()
            invariant
                i <= a.len(),
                a.len() == b.len(),
                forall|j: int| 0 <= j < i ==> out_entries_view(a)[j] == out_entries_view(b)[j],
            decreases a.len() - i,
        {
            if !(a[i].0 == b[i].0) || !a[i].1.same(&b[i].1) {
                assert(out_entries_view(a)[i as int] != out_entries_view(b)[i as int]);
                return false;
            }
            i = i + 1;
        }
        assert(out_entries_view(a) =~= out_entries_view(b));
        true
    }
}

impl Clone for Output {
    fn clone(&self) -> (copy: Output)
        ensures
            copy@ == self@,
        decreases self,
    {
        match self {
            Output::Null => Output::Null,
            Output::Bool(b) => Output::Bool(*b),
            Output::Int(i) => Output::Int(*i),
            Output::Str(s) => Output::Str(s.clone()),
            Output::Bytes(b) => Output::Bytes(copy_bytes(b)),
            Output::Real(t) => Output::Real(t.clone()),
            Output::List(items) => {
                proof {
                    Output::lemma_model_list(*items);
                }
                Output::list(copy_outputs(items))
            },
            Output::SetOf(items) => {
                proof {
                    Output::lemma_model_list(*items);
                }
                Output::set_of(copy_outputs(items))
            },
            Output::Dict(entries) => {
                proof {
                    Output::lemma_model_dict(*entries);
                }
                Output::dict(copy_out_entries(entries))
            },
            Output::Kept(id) => Output::Kept(*id),
        }
    }
}

/// A copy of a list of produced values.
pub fn copy_outputs(list: &Vec<Output>) -> (copy: Vec<Output>)
    ensures
        outputs_view(&copy) == outputs_view(list),
    decreases list,
{
    let mut copy: Vec<Output> = Vec::new();
    let mut i: usize = 0;
    while i < list.len()
        invariant
            i <= list.len(),
            copy.len() == i,
            forall|j: int| 0 <= j < i ==> (#[trigger] copy[j]).model() == list[j].model(),
        decreases list.len() - i,
    {
        copy.push(list[i].clone());
        i = i + 1;
    }
    assert(outputs_view(&copy) =~= outputs_view(list));
    copy
}

/// A copy of a list of produced entries.
pub fn copy_out_entries(list: &Vec<(String, Output)>) -> (copy: Vec<(String, Output)>)
    ensures
        out_entries_view(&copy) == out_entries_view(list),
    decreases list,
{
    let mut copy: Vec<(String, Output)> = Vec::new();
    let mut i: usize = 0;
    while i < list.len()
        invariant
            i <= list.len(),
            copy.len() == i,
            forall|j: int| 0 <= j < i ==> (#[trigger] copy[j]).0@ == list[j].0@ && copy[j].1.model() == list[j].1.model(),
        decreases list.len() - i,
    {
        copy.push((list[i].0.clone(), list[i].1.clone()));
        i = i + 1;
    }
    assert(out_entries_view(&copy) =~= out_entries_view(list));
    copy
}

impl View for Output {
    type V = OutputModel;

    open spec fn view(&self) -> OutputModel {
        self.model()
    }
}

/// The produced value that is a constant.
pub open spec fn literal_output(literal: LiteralModel) -> OutputModel {
    match literal {
        LiteralModel::Null => OutputModel::Null,
        LiteralModel::Bool(b) => OutputModel::Bool(b),
        LiteralModel::Int(i) => OutputModel::Int(i),
        LiteralModel::Str(s) => OutputModel::Str(s),
        LiteralModel::Bytes(b) => OutputModel::Bytes(b),
    }
}

} // verus!
