//! The entry points: holding values and documents against a compiled schema.

use crate::check::{check_node, Verdict};
use crate::context::{Context, Outcome};
use crate::errors::violation::{violations_view, Report, ReportModel, Violation};
use crate::errors::{ErrorKind, Location};
use crate::json::document::{decode, decoded};
use crate::output::{Output, OutputModel};
use crate::semantics::{outcome_result, validate, Env};
use crate::validate::validate_node;
use crate::validator::{GraphModel, Mode, SchemaValidator};
use crate::value::{Heap, ValueModel};
use vstd::prelude::*;

verus! {

/// What stays the same through one validation against a compiled schema.
pub open spec fn graph_env(graph: GraphModel, heap: Seq<ValueModel>, mode: Mode) -> Env {
    Env { defs: graph.defs, heap, strict: mode == Mode::Strict, max_depth: graph.max_depth }
}

/// What holding the value at `id` against a compiled schema gives: the value
/// produced, or the report of every violation. A value is given only where
/// the report would have been empty.
pub open spec fn validation(graph: GraphModel, heap: Seq<ValueModel>, id: usize, mode: Mode) -> Result<
    OutputModel,
    ReportModel,
> {
    outcome_result(graph.title, validate(graph_env(graph, heap, mode), graph.root, id, Seq::empty(), Seq::empty()), id)
}

/// Whether the value at `id` is valid against a compiled schema.
pub open spec fn valid(graph: GraphModel, heap: Seq<ValueModel>, id: usize, mode: Mode) -> bool {
    validation(graph, heap, id, mode) is Ok
}

/// What holding a document against a compiled schema gives: what
/// [`validation`] gives for the value that the document decodes to, and the
/// report of the one violation of a text that cannot be decoded, at the root,
/// where it decodes to none.
pub open spec fn text_validation(graph: GraphModel, text: Seq<u8>, mode: Mode) -> Result<OutputModel, ReportModel> {
    match decoded(text) {
        Some((heap, id)) => validation(graph, heap, id, mode),
        None => Err(
            ReportModel {
                title: graph.title,
                violations: seq![crate::errors::violation::plain(ErrorKind::JsonInvalid, Seq::empty(), 0)],
            },
        ),
    }
}

/// The store that a document decodes to; empty where it decodes to none.
pub open spec fn text_store(text: Seq<u8>) -> Seq<ValueModel> {
    match decoded(text) {
        Some((heap, id)) => heap,
        None => Seq::empty(),
    }
}

/// The result of a validation by its model.
pub open spec fn result_view(r: Result<Output, Report>) -> Result<OutputModel, ReportModel> {
    match r {
        Ok(out) => Ok(out@),
        Err(report) => Err(report@),
    }
}

/// The report of the one violation `kind` at the root.
fn report_at_root(title: &String, kind: ErrorKind, id: usize) -> (report: Report)
    ensures
        report@ == (ReportModel {
            title: title@,
            violations: seq![crate::errors::violation::plain(kind, Seq::empty(), id)],
        }),
{
    let loc = Location::new();
    let mut violations: Vec<Violation> = Vec::new();
    let v = Violation::new(kind, &loc, id);
    violations.push(v);
    assert(violations_view(&violations) =~= seq![v@]);
    Report { title: title.clone(), violations }
}

impl SchemaValidator {
    /// Holds the value at `id` of the store against the schema. The result is
    /// the produced value, or the report of every violation in the order in
    /// which a walk of the input comes upon them.
    pub fn validate(&self, heap: &Heap, id: usize, mode: Mode) -> (r: Result<Output, Report>)
        requires
            heap.wf(),
            id < heap@.len(),
        ensures
            result_view(r) == validation(self@, heap@, id, mode),
    {
        let strict = match mode {
            Mode::Strict => true,
            Mode::Lax => false,
        };
        let mut ctx = Context::new(strict, self.max_depth());
        let out = validate_node(self.definitions(), self.root(), heap, id, &mut ctx);
        match out {
            Outcome::Value(value) => Ok(value),
            Outcome::Errors(violations) => Err(Report { title: self.title().clone(), violations }),
            Outcome::Omit => Err(report_at_root(self.title(), ErrorKind::OmitUncaught, id)),
            Outcome::UseDefault => Err(report_at_root(self.title(), ErrorKind::UseDefaultUncaught, id)),
        }
    }

    /// Whether the value at `id` of the store is valid against the schema:
    /// whether [`SchemaValidator::validate`] would give a value. No value is
    /// produced and no violation recorded, and the pass stops at the first
    /// failure.
    pub fn check(&self, heap: &Heap, id: usize, mode: Mode) -> (ok: bool)
        requires
            heap.wf(),
            id < heap@.len(),
        ensures
            ok == valid(self@, heap@, id, mode),
    {
        let strict = match mode {
            Mode::Strict => true,
            Mode::Lax => false,
        };
        let mut guard: Vec<(usize, usize)> = Vec::new();
        let verdict = check_node(
            self.definitions(),
            self.root(),
            heap,
            id,
            &mut guard,
            strict,
            self.max_depth(),
            false,
            Ghost(Seq::empty()),
        );
        match verdict {
            Verdict::Pass(_) => true,
            _ => false,
        }
    }

    /// Decodes a document and holds the value it writes against the schema.
    /// The result comes with the store that the document was decoded into,
    /// which the places named in the result refer to. A text that is no
    /// well-formed document gives the report of that one violation, and
    /// nothing of it is held against the schema.
    pub fn validate_text(&self, text: &[u8], mode: Mode) -> (r: (Heap, Result<Output, Report>))
        ensures
            r.0.wf(),
            crate::value::heap_layered(r.0@),
            r.0@ == text_store(text@),
            result_view(r.1) == text_validation(self@, text@, mode),
    {
        match decode(text) {
            Some((heap, id)) => {
                let result = self.validate(&heap, id, mode);
                (heap, result)
            },
            None => (Heap::new(), Err(report_at_root(self.title(), ErrorKind::JsonInvalid, 0))),
        }
    }

    /// Whether a document is valid against the schema: whether
    /// [`SchemaValidator::validate_text`] would give a value.
    pub fn check_text(&self, text: &[u8], mode: Mode) -> (ok: bool)
        ensures
            ok == (text_validation(self@, text@, mode) is Ok),
    {
        match decode(text) {
            Some((heap, id)) => self.check(&heap, id, mode),
            None => false,
        }
    }
}

/// Text and value agree: a document is reported on exactly as the value that
/// it decodes to, violation for violation, in kind, place and number.
pub proof fn law_text_and_value_modes_agree(graph: GraphModel, text: Seq<u8>, heap: Seq<ValueModel>, id: usize, mode: Mode)
    requires
        decoded(text) == Some((heap, id)),
    ensures
        text_validation(graph, text, mode) == validation(graph, heap, id, mode),
{
}

/// Text and value agree on every document: a document written as text is
/// reported on exactly as the same document laid out as values.
pub proof fn law_written_document_validates_as_value(graph: GraphModel, d: crate::json::written::Document, mode: Mode)
    requires
        crate::json::written::fits(d, crate::json::document::MAX_NESTING as nat),
    ensures
        text_validation(graph, crate::json::written::written(d), mode) == validation(
            graph,
            crate::json::written::laid_out(Seq::empty(), d).0,
            crate::json::written::laid_out(Seq::empty(), d).1,
            mode,
        ),
{
    crate::json::written::law_decoding_undoes_writing(d);
}

/// The quick pass agrees with the full one: a value passes exactly where
/// holding it against the schema yields no violation.
pub proof fn law_check_agrees_with_validation(graph: GraphModel, heap: Seq<ValueModel>, id: usize, mode: Mode)
    ensures
        valid(graph, heap, id, mode) <==> !(validation(graph, heap, id, mode) matches Err(report) && report.violations.len() > 0),
{
    crate::laws::lemma_errors_nonempty(graph_env(graph, heap, mode), graph.root, id, Seq::empty(), Seq::empty());
}

} // verus!
