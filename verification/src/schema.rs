//! Schema descriptions as their author writes them.

use crate::value::{literals_view, Literal, LiteralModel};
use vstd::prelude::*;
use vstd::string::StringExecFns;

verus! {

/// The value of one parameter of a schema description.
#[derive(Debug, PartialEq, Eq)]
pub enum ParamValue {
    Flag(bool),
    Int(i64),
    Text(String),
    /// One constant.
    Const(Literal),
    /// A list of constants.
    Consts(Vec<Literal>),
    /// A description nested in this one.
    Schema(Box<Schema>),
    /// Descriptions under names: the fields of a record, or definitions.
    Named(Vec<(String, Schema)>),
}

/// A schema as its author writes it: the name of a kind, and the parameters
/// that the kind takes, each under its name. Nothing in it is checked until it
/// is compiled.
#[derive(Debug, PartialEq, Eq)]
pub struct Schema {
    pub kind: String,
    pub params: Vec<(String, ParamValue)>,
}

/// The value of a parameter as contracts see it.
pub enum ParamValueModel {
    Flag(bool),
    Int(i64),
    Text(Seq<char>),
    Const(LiteralModel),
    Consts(Seq<LiteralModel>),
    Schema(Box<SchemaModel>),
    Named(Seq<(Seq<char>, SchemaModel)>),
}

/// A schema description as contracts see it.
pub struct SchemaModel {
    pub kind: Seq<char>,
    pub params: Seq<(Seq<char>, ParamValueModel)>,
}

/// The models of a list of named descriptions.
pub open spec fn named_view(list: &Vec<(String, Schema)>) -> Seq<(Seq<char>, SchemaModel)> {
    Seq::new(list.len() as nat, |i: int| (list[i].0@, list[i].1.model()))
}

/// The models of a list of parameters.
pub open spec fn params_view(list: &Vec<(String, ParamValue)>) -> Seq<(Seq<char>, ParamValueModel)> {
    Seq::new(list.len() as nat, |i: int| (list[i].0@, list[i].1.model()))
}

impl ParamValue {
    /// The value by its model.
    pub open spec fn model(&self) -> ParamValueModel
        decreases self,
    {
        match self {
            ParamValue::Flag(b) => ParamValueModel::Flag(*b),
            ParamValue::Int(i) => ParamValueModel::Int(*i),
            ParamValue::Text(t) => ParamValueModel::Text(t@),
            ParamValue::Const(c) => ParamValueModel::Const(c@),
            ParamValue::Consts(c) => ParamValueModel::Consts(literals_view(c)),
            ParamValue::Schema(s) => ParamValueModel::Schema(Box::new(s.model())),
            ParamValue::Named(list) => ParamValueModel::Named(
                Seq::new(
                    list.len() as nat,
                    |i: int|
                        if 0 <= i < list.len() {
                            (list[i].0@, list[i].1.model())
                        } else {
                            (Seq::<char>::empty(), SchemaModel { kind: Seq::empty(), params: Seq::empty() })
                        },
                ),
            ),
        }
    }

    /// The model of a list of named descriptions is made of their models.
    pub proof fn lemma_model_named(list: Vec<(String, Schema)>)
        ensures
            ParamValue::Named(list).model() == ParamValueModel::Named(named_view(&list)),
    {
        assert(ParamValue::Named(list).model()->Named_0 =~= named_view(&list));
    }
}

impl View for ParamValue {
    type V = ParamValueModel;

    open spec fn view(&self) -> ParamValueModel {
        self.model()
    }
}

impl Schema {
    /// The description by its model.
    pub open spec fn model(&self) -> SchemaModel
        decreases self,
    {
        SchemaModel {
            kind: self.kind@,
            params: Seq::new(
                self.params.len() as nat,
                |i: int|
                    if 0 <= i < self.params.len() {
                        (self.params[i].0@, self.params[i].1.model())
                    } else {
                        (Seq::<char>::empty(), ParamValueModel::Flag(false))
                    },
            ),
        }
    }

    /// The model of a description is made of the models of its parameters.
    pub proof fn lemma_model(&self)
        ensures
            self.model() == (SchemaModel { kind: self.kind@, params: params_view(&self.params) }),
    {
        assert(self.model().params =~= params_view(&self.params));
    }

    /// The description of `kind` with no parameters.
    pub fn new(kind: &str) -> (s: Schema)
        ensures
            s@ == (SchemaModel { kind: kind@, params: Seq::empty() }),
    {
        let s = Schema { kind: String::from_str(kind), params: Vec::new() };
        proof {
            s.lemma_model();
            assert(params_view(&s.params) =~= Seq::empty());
        }
        s
    }

    /// The same description with one parameter more, after those it has.
    pub fn with(self, name: &str, value: ParamValue) -> (s: Schema)
        ensures
            s@ == (SchemaModel { kind: self@.kind, params: self@.params.push((name@, value@)) }),
    {
        proof {
            self.lemma_model();
        }
        let mut params = self.params;
        params.push((String::from_str(name), value));
        let s = Schema { kind: self.kind, params };
        proof {
            s.lemma_model();
            assert(params_view(&s.params) =~= self@.params.push((name@, value@)));
        }
        s
    }
}

impl View for Schema {
    type V = SchemaModel;

    open spec fn view(&self) -> SchemaModel {
        self.model()
    }
}

} // verus!
