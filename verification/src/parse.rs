//! The analyzable form of a module: its top-level statements with what each
//! declares and uses, and its exports.

use vstd::prelude::*;
use swc_core::common::Span;

verus! {

/// `swc_core::common::Span`, a place in the source text. Nothing is claimed of
/// what a span holds: a statement carries its span from the parser to whoever
/// reports on it, and units taken out of a module keep the spans of their
/// statements.
#[verifier::external_type_specification]
#[verifier::external_body]
pub struct ExSpan(swc_core::common::Span);

/// A list of binding ids with the same contents.
pub fn copy_ids(ids: &Vec<u32>) -> (r: Vec<u32>)
    ensures
        r@ == ids@,
{
    let mut r: Vec<u32> = Vec::new();
    let mut i: usize = 0;
    while i < ids.len()
        invariant
            i <= ids@.len(),
            r@ == ids@.take(i as int),
        decreases ids@.len() - i,
    {
        r.push(ids[i]);
        proof {
            assert(ids@.take(i + 1) =~= ids@.take(i as int).push(ids@[i as int]));
        }
        i += 1;
    }
    proof {
        assert(ids@.take(ids@.len() as int) =~= ids@);
    }
    r
}

/// One top-level statement of a module.
#[derive(Debug, PartialEq, Eq)]
pub struct Statement {
    /// Where the statement stands in the source.
    pub span: Span,
    /// The top-level bindings that the statement declares.
    pub declares: Vec<u32>,
    /// The top-level bindings that the statement reads or writes.
    pub uses: Vec<u32>,
    /// Whether running the statement can be observed even if nothing that it
    /// declares is used.
    pub side_effects: bool,
    /// Whether the statement holds a construct that hides what it depends on,
    /// such as the evaluation of a string as code or a re-export of
    /// everything that another module exports.
    pub dynamic: bool,
}

/// The value of a [`Statement`].
pub struct StatementView {
    pub span: Span,
    pub declares: Seq<u32>,
    pub uses: Seq<u32>,
    pub side_effects: bool,
    pub dynamic: bool,
}

impl View for Statement {
    type V = StatementView;

    open spec fn view(&self) -> StatementView {
        StatementView {
            span: self.span,
            declares: self.declares@,
            uses: self.uses@,
            side_effects: self.side_effects,
            dynamic: self.dynamic,
        }
    }
}

impl Clone for Statement {
    fn clone(&self) -> (r: Self)
        ensures
            r@ == self@,
    {
        Statement {
            span: self.span,
            declares: copy_ids(&self.declares),
            uses: copy_ids(&self.uses),
            side_effects: self.side_effects,
            dynamic: self.dynamic,
        }
    }
}

/// One export of a module: the name under which importers see a top-level
/// binding.
#[derive(Debug, PartialEq, Eq)]
pub struct Export {
    pub name: String,
    pub binding: u32,
}

/// The value of an [`Export`].
pub struct ExportView {
    pub name: Seq<char>,
    pub binding: u32,
}

impl View for Export {
    type V = ExportView;

    open spec fn view(&self) -> ExportView {
        ExportView { name: self.name@, binding: self.binding }
    }
}

impl Clone for Export {
    fn clone(&self) -> (r: Self)
        ensures
            r@ == self@,
    {
        Export { name: self.name.clone(), binding: self.binding }
    }
}

/// A unit that can be analyzed as a module of its own.
#[derive(Debug, PartialEq, Eq)]
pub struct ParseResult {
    pub statements: Vec<Statement>,
    pub exports: Vec<Export>,
}

/// The value of a [`ParseResult`].
pub struct ParseResultView {
    pub statements: Seq<StatementView>,
    pub exports: Seq<ExportView>,
}

/// The values of a list of statements.
pub open spec fn statement_views(statements: Seq<Statement>) -> Seq<StatementView> {
    Seq::new(statements.len(), |i: int| statements[i]@)
}

/// The values of a list of exports.
pub open spec fn export_views(exports: Seq<Export>) -> Seq<ExportView> {
    Seq::new(exports.len(), |i: int| exports[i]@)
}

impl View for ParseResult {
    type V = ParseResultView;

    open spec fn view(&self) -> ParseResultView {
        ParseResultView {
            statements: statement_views(self.statements@),
            exports: export_views(self.exports@),
        }
    }
}

/// A list of statements with the same values.
pub fn copy_statements(statements: &Vec<Statement>) -> (r: Vec<Statement>)
    ensures
        statement_views(r@) == statement_views(statements@),
{
    let mut r: Vec<Statement> = Vec::new();
    let mut i: usize = 0;
    while i < statements.len()
        invariant
            i <= statements@.len(),
            r@.len() == i,
            forall|j: int| 0 <= j < i ==> (#[trigger] r@[j])@ == statements@[j]@,
        decreases statements@.len() - i,
    {
        r.push(statements[i].clone());
        i += 1;
    }
    proof {
        assert(statement_views(r@) =~= statement_views(statements@));
    }
    r
}

/// A list of exports with the same values.
pub fn copy_exports(exports: &Vec<Export>) -> (r: Vec<Export>)
    ensures
        export_views(r@) == export_views(exports@),
{
    let mut r: Vec<Export> = Vec::new();
    let mut i: usize = 0;
    while i < exports.len()
        invariant
            i <= exports@.len(),
            r@.len() == i,
            forall|j: int| 0 <= j < i ==> (#[trigger] r@[j])@ == exports@[j]@,
        decreases exports@.len() - i,
    {
        r.push(exports[i].clone());
        i += 1;
    }
    proof {
        assert(export_views(r@) =~= export_views(exports@));
    }
    r
}

impl Clone for ParseResult {
    fn clone(&self) -> (r: Self)
        ensures
            r@ == self@,
    {
        ParseResult {
            statements: copy_statements(&self.statements),
            exports: copy_exports(&self.exports),
        }
    }
}

} // verus!
