//! Violation records and the reports made of them.

use super::kinds::ErrorKind;
use super::location::{LocItemModel, Location};
use crate::value::{copy_literals, literals_view, Literal, LiteralModel};
use vstd::prelude::*;

verus! {

/// What a violation record says beyond its kind.
#[derive(Debug, PartialEq, Eq)]
pub enum ErrorContext {
    /// The bound that an integer did not keep.
    Bound(i64),
    /// The length that a text did not keep.
    Length(usize),
    /// The constants of which the value is none.
    Expected(Vec<Literal>),
    /// The name that the application gave to its kind of error.
    Name(String),
}

/// The context of a violation as contracts see it.
pub enum ErrorContextModel {
    Bound(i64),
    Length(usize),
    Expected(Seq<LiteralModel>),
    Name(Seq<char>),
}

impl View for ErrorContext {
    type V = ErrorContextModel;

    open spec fn view(&self) -> ErrorContextModel {
        match self {
            ErrorContext::Bound(b) => ErrorContextModel::Bound(*b),
            ErrorContext::Length(l) => ErrorContextModel::Length(*l),
            ErrorContext::Expected(e) => ErrorContextModel::Expected(literals_view(e)),
            ErrorContext::Name(n) => ErrorContextModel::Name(n@),
        }
    }
}

impl Clone for ErrorContext {
    fn clone(&self) -> (copy: ErrorContext)
        ensures
            copy@ == self@,
    {
        match self {
            ErrorContext::Bound(b) => ErrorContext::Bound(*b),
            ErrorContext::Length(l) => ErrorContext::Length(*l),
            ErrorContext::Expected(e) => ErrorContext::Expected(copy_literals(e)),
            ErrorContext::Name(n) => ErrorContext::Name(n.clone()),
        }
    }
}

/// The characters of an optional text.
pub open spec fn opt_text_view(text: &Option<String>) -> Option<Seq<char>> {
    match text {
        Some(t) => Some(t@),
        None => None,
    }
}

/// The model of an optional context.
pub open spec fn opt_context_view(context: &Option<ErrorContext>) -> Option<ErrorContextModel> {
    match context {
        Some(c) => Some(c@),
        None => None,
    }
}

/// One independent failure of a value to meet its schema.
#[derive(Debug, PartialEq, Eq)]
pub struct Violation {
    /// What was wrong.
    pub kind: ErrorKind,
    /// Where in the input.
    pub loc: Location,
    /// The place in the store of the value that failed, kept for diagnostics.
    pub input: usize,
    /// What the kind leaves open, such as the bound that was not kept.
    pub context: Option<ErrorContext>,
    /// The application's own wording, where it gave one.
    pub message: Option<String>,
}

/// A violation record as contracts see it.
pub struct ViolationModel {
    pub kind: ErrorKind,
    pub loc: Seq<LocItemModel>,
    pub input: usize,
    pub context: Option<ErrorContextModel>,
    pub message: Option<Seq<char>>,
}

impl View for Violation {
    type V = ViolationModel;

    open spec fn view(&self) -> ViolationModel {
        ViolationModel {
            kind: self.kind,
            loc: self.loc@,
            input: self.input,
            context: opt_context_view(&self.context),
            message: opt_text_view(&self.message),
        }
    }
}

/// The record of a plain violation: a kind at a place, and nothing more.
pub open spec fn plain(kind: ErrorKind, loc: Seq<LocItemModel>, input: usize) -> ViolationModel {
    ViolationModel { kind, loc, input, context: None, message: None }
}

/// The record of a violation that carries a context.
pub open spec fn with_context(kind: ErrorKind, loc: Seq<LocItemModel>, input: usize, context: ErrorContextModel) -> ViolationModel {
    ViolationModel { kind, loc, input, context: Some(context), message: None }
}

impl Violation {
    /// A record of `kind` at `loc`, with neither context nor message.
    pub fn new(kind: ErrorKind, loc: &Location, input: usize) -> (v: Violation)
        ensures
            v@ == plain(kind, loc@, input),
    {
        Violation { kind, loc: loc.clone(), input, context: None, message: None }
    }

    /// A record of `kind` at `loc` that carries `context`.
    pub fn with_context(kind: ErrorKind, loc: &Location, input: usize, context: ErrorContext) -> (v: Violation)
        ensures
            v@ == with_context(kind, loc@, input, context@),
    {
        Violation { kind, loc: loc.clone(), input, context: Some(context), message: None }
    }
}

/// The records of a list, each by its model.
pub open spec fn violations_view(list: &Vec<Violation>) -> Seq<ViolationModel> {
    Seq::new(list.len() as nat, |i: int| list[i]@)
}

/// Moves the records of `more` to the end of `all`, in their order.
pub fn append_violations(all: &mut Vec<Violation>, more: Vec<Violation>)
    ensures
        violations_view(final(all)) == violations_view(old(all)) + violations_view(&more),
{
    let ghost before = violations_view(all);
    let ghost added = violations_view(&more);
    let mut more = more;
    all.append(&mut more);
    assert(violations_view(all) =~= before + added);
}

/// Every violation found in one input, in the order in which a walk of the
/// input from its root, depth first, comes upon them.
#[derive(Debug, PartialEq, Eq)]
pub struct Report {
    /// The display name of the schema that the input was held against.
    pub title: String,
    /// The violations, in the order of discovery; none is merged or dropped.
    pub violations: Vec<Violation>,
}

/// A report as contracts see it.
pub struct ReportModel {
    pub title: Seq<char>,
    pub violations: Seq<ViolationModel>,
}

impl View for Report {
    type V = ReportModel;

    open spec fn view(&self) -> ReportModel {
        ReportModel { title: self.title@, violations: violations_view(&self.violations) }
    }
}

impl Report {
    /// The number of violations.
    pub fn count(&self) -> (n: usize)
        ensures
            n == self@.violations.len(),
    {
        self.violations.len()
    }
}

} // verus!
