//! What one validation keeps as it goes, and what it gives for one value.

use crate::errors::violation::{violations_view, Violation};
use crate::errors::{LocItemModel, Location};
use crate::output::Output;
use crate::semantics::{Guard, OutcomeModel};
use vstd::prelude::*;

verus! {

/// How many references may be inside one another, unless the caller sets
/// another bound.
pub const DEFAULT_MAX_DEPTH: usize = 255;

/// What one validation keeps as it goes: where in the input it stands, which
/// references it is inside of, and what the caller asked for. Each call makes
/// its own; none outlives the call.
#[derive(Debug)]
pub struct Context {
    /// The location of the value that is being looked at.
    pub loc: Location,
    /// The references being expanded, outermost first: for each, the place of
    /// the definition in the registry and the place of the value in the store.
    pub guard: Vec<(usize, usize)>,
    /// Whether only exact kinds will do.
    pub strict: bool,
    /// How many references may be inside one another.
    pub max_depth: usize,
}

/// A context as contracts see it.
pub struct ContextModel {
    pub loc: Seq<LocItemModel>,
    pub guard: Guard,
    pub strict: bool,
    pub max_depth: usize,
}

impl View for Context {
    type V = ContextModel;

    open spec fn view(&self) -> ContextModel {
        ContextModel { loc: self.loc@, guard: self.guard@, strict: self.strict, max_depth: self.max_depth }
    }
}

impl Context {
    /// The context at the start of a validation: at the root, inside no reference.
    pub fn new(strict: bool, max_depth: usize) -> (ctx: Context)
        ensures
            ctx@ == (ContextModel { loc: Seq::empty(), guard: Seq::empty(), strict, max_depth }),
    {
        Context { loc: Location::new(), guard: Vec::new(), strict, max_depth }
    }

    /// Whether the reference to definition `def` is being expanded on the value at `id`.
    pub fn inside(&self, def: usize, id: usize) -> (found: bool)
        ensures
            found == self@.guard.contains((def, id)),
    {
        guard_holds(&self.guard, def, id)
    }
}

/// Whether the guard holds the pair of a definition and a value.
pub fn guard_holds(guard: &Vec<(usize, usize)>, def: usize, id: usize) -> (found: bool)
    ensures
        found == guard@.contains((def, id)),
{
    let mut i: usize = 0;
    while i < guard.len()
        invariant
            i <= guard.len(),
            forall|j: int| 0 <= j < i ==> guard@[j] != (def, id),
        decreases guard.len() - i,
    {
        if guard[i].0 == def && guard[i].1 == id {
            return true;
        }
        i = i + 1;
    }
    false
}

/// What holding one value against one node gave.
#[derive(Debug, PartialEq, Eq)]
pub enum Outcome {
    /// The value that was produced.
    Value(Output),
    /// The violations, in the order of discovery.
    Errors(Vec<Violation>),
    /// A check asked to leave the value out.
    Omit,
    /// A check asked for the declared default.
    UseDefault,
}

impl View for Outcome {
    type V = OutcomeModel;

    open spec fn view(&self) -> OutcomeModel {
        match self {
            Outcome::Value(out) => OutcomeModel::Value(out@),
            Outcome::Errors(e) => OutcomeModel::Errors(violations_view(e)),
            Outcome::Omit => OutcomeModel::Omit,
            Outcome::UseDefault => OutcomeModel::UseDefault,
        }
    }
}

impl Outcome {
    /// The outcome that is the one violation `v`.
    pub fn fail(v: Violation) -> (out: Outcome)
        ensures
            out@ == crate::semantics::fail(v@),
    {
        let mut errors: Vec<Violation> = Vec::new();
        errors.push(v);
        assert(violations_view(&errors) =~= seq![v@]);
        Outcome::Errors(errors)
    }
}

} // verus!
