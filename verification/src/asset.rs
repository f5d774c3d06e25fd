//! A part of a module as a node of the module graph.

use std::collections::HashSet;
use vstd::prelude::*;
use vstd::string::*;
use swc_core::common::Span;
use crate::error::{PartError, PartErrorView};
use crate::ident::{AssetIdent, AssetIdentView};
use crate::parse::{ParseResult, ParseResultView};
use crate::part::{Key, KeyView, ModulePart, ModulePartView};
use crate::resolve::{get_part_id, id_view, part_of_module, project, resolve, unit_view};
use crate::split::{deps_view, entrypoints_view, split, split_spec, SplitResult, SplitResultView};

verus! {

/// The language of a module.
#[derive(Clone, Copy, Debug, PartialEq, Eq)]
pub enum EcmascriptModuleAssetType {
    Ecmascript,
    Typescript,
    TypescriptDeclaration,
}

/// What decides whether a module must be loaded asynchronously.
#[derive(Clone, Copy, Debug, PartialEq, Eq)]
pub struct AsyncModule {
    /// The module awaits at its top level.
    pub has_top_level_await: bool,
    /// Modules from outside the project are imported as ES modules.
    pub import_externals: bool,
}

/// A reference that the analysis of a unit found.
#[derive(Debug, PartialEq, Eq)]
pub struct AnalyzedReference {
    /// What the unit asks for.
    pub request: String,
    /// Whether the request leads to an ES module outside the project.
    pub external_module: bool,
}

/// The value of an [`AnalyzedReference`].
pub struct AnalyzedReferenceView {
    pub request: Seq<char>,
    pub external_module: bool,
}

impl View for AnalyzedReference {
    type V = AnalyzedReferenceView;

    open spec fn view(&self) -> AnalyzedReferenceView {
        AnalyzedReferenceView { request: self.request@, external_module: self.external_module }
    }
}

impl Clone for AnalyzedReference {
    fn clone(&self) -> (r: Self)
        ensures
            r@ == self@,
    {
        AnalyzedReference { request: self.request.clone(), external_module: self.external_module }
    }
}

/// What the analysis of a unit yields.
#[derive(Debug, PartialEq, Eq)]
pub struct AnalyzeEcmascriptModuleResult {
    pub references: Vec<AnalyzedReference>,
    pub exports: Vec<String>,
    pub async_module: Option<AsyncModule>,
}

/// A whole module: its identity, its source, its parsed form and the
/// analysis of all of it.
#[derive(Debug, PartialEq, Eq)]
pub struct EcmascriptModuleAsset {
    pub ident: AssetIdent,
    pub content: String,
    pub parsed: ParseResult,
    pub ty: EcmascriptModuleAssetType,
    pub analysis: AnalyzeEcmascriptModuleResult,
}

/// What splitting `module` yields.
pub open spec fn module_split(module: EcmascriptModuleAsset) -> SplitResultView {
    split_spec(module.ident@, module.parsed@)
}

/// Splits a module.
pub fn split_module(module: &EcmascriptModuleAsset) -> (r: SplitResult)
    ensures
        r@ == module_split(*module),
{
    split(&module.ident, &module.parsed)
}

/// A reference to part of an ES module.
#[derive(Debug, PartialEq, Eq)]
pub struct EcmascriptModulePartAsset<'a> {
    pub full_module: &'a EcmascriptModuleAsset,
    pub part: ModulePart,
    pub import_externals: bool,
}

/// The value of an [`EcmascriptModulePartAsset`].
pub struct PartAssetView {
    pub full_module: EcmascriptModuleAsset,
    pub part: ModulePartView,
    pub import_externals: bool,
}

impl<'a> View for EcmascriptModulePartAsset<'a> {
    type V = PartAssetView;

    open spec fn view(&self) -> PartAssetView {
        PartAssetView { full_module: *self.full_module, part: self.part@, import_externals: self.import_externals }
    }
}

impl<'a> Clone for EcmascriptModulePartAsset<'a> {
    fn clone(&self) -> (r: Self)
        ensures
            r@ == self@,
    {
        EcmascriptModulePartAsset {
            full_module: self.full_module,
            part: self.part.clone(),
            import_externals: self.import_externals,
        }
    }
}

/// A reference to one module, with the reason for it.
#[derive(Debug, PartialEq, Eq)]
pub struct SingleModuleReference<'a> {
    pub asset: EcmascriptModulePartAsset<'a>,
    pub description: String,
}

/// What a node of the module graph refers to.
#[derive(Debug, PartialEq, Eq)]
pub enum ModuleReference<'a> {
    /// Another part of the same module.
    Single(SingleModuleReference<'a>),
    /// What the analysis found.
    Analyzed(AnalyzedReference),
}

/// The value of a [`ModuleReference`].
pub enum ModuleReferenceView {
    Single { asset: PartAssetView, description: Seq<char> },
    Analyzed(AnalyzedReferenceView),
}

impl<'a> View for ModuleReference<'a> {
    type V = ModuleReferenceView;

    open spec fn view(&self) -> ModuleReferenceView {
        match self {
            ModuleReference::Single(single) => ModuleReferenceView::Single {
                asset: single.asset@,
                description: single.description@,
            },
            ModuleReference::Analyzed(reference) => ModuleReferenceView::Analyzed(reference@),
        }
    }
}

/// The values of a list of references.
pub open spec fn references_view(references: Seq<ModuleReference>) -> Seq<ModuleReferenceView> {
    Seq::new(references.len(), |i: int| references[i]@)
}

/// The values of the references that an analysis found, as references of a
/// node.
pub open spec fn analyzed_view(references: Seq<AnalyzedReference>) -> Seq<ModuleReferenceView> {
    Seq::new(references.len(), |i: int| ModuleReferenceView::Analyzed(references[i]@))
}

/// A reference from `node` to the part `part` of the same module.
pub open spec fn part_reference(node: PartAssetView, part: ModulePartView, description: Seq<char>) -> ModuleReferenceView {
    ModuleReferenceView::Single {
        asset: PartAssetView { full_module: node.full_module, part, import_externals: node.import_externals },
        description,
    }
}

/// What the facade refers to: the evaluation part and the exports part.
pub open spec fn facade_references(node: PartAssetView) -> Seq<ModuleReferenceView> {
    seq![
        part_reference(node, ModulePartView::Evaluation, "ecmascript module evaluation"@),
        part_reference(node, ModulePartView::Exports, "ecmascript reexports"@),
    ]
}

/// Why the exports part refers to the part of an export.
pub open spec fn export_description(name: Seq<char>) -> Seq<char> {
    "ecmascript export '"@ + name + "'"@
}

/// What the exports part refers to: for each export among the entry points,
/// in their order, the part of that export.
pub open spec fn export_references(node: PartAssetView, entrypoints: Seq<(KeyView, u32)>) -> Seq<ModuleReferenceView>
    decreases entrypoints.len(),
{
    if entrypoints.len() == 0 {
        Seq::empty()
    } else {
        let front = export_references(node, entrypoints.drop_last());
        match entrypoints.last().0 {
            KeyView::Export(name) => front.push(
                part_reference(node, ModulePartView::Export(name), export_description(name)),
            ),
            _ => front,
        }
    }
}

/// The parts that part `id` needs; none where the dependencies do not list
/// it.
pub open spec fn deps_of(deps: Seq<Seq<u32>>, id: u32) -> Seq<u32> {
    if id < deps.len() {
        deps[id as int]
    } else {
        Seq::empty()
    }
}

/// What a part refers to because it needs the parts `needed`.
pub open spec fn internal_references(node: PartAssetView, needed: Seq<u32>) -> Seq<ModuleReferenceView> {
    Seq::new(
        needed.len(),
        |j: int| part_reference(node, ModulePartView::Internal(needed[j]), "ecmascript module part"@),
    )
}

/// What `node` refers to, given the split of its module and what the analysis
/// of its part found.
///
/// In a module that was not split, every node refers to what the whole module
/// refers to. In a split module, a node refers first to other parts: the
/// facade to the evaluation part and the exports part, the exports part to
/// the part of each export, every other part to the parts that it needs. What
/// the analysis found comes after.
pub open spec fn references_spec(node: PartAssetView, split: SplitResultView, analyzed: Seq<AnalyzedReference>) -> Result<
    Seq<ModuleReferenceView>,
    PartErrorView,
> {
    match split {
        SplitResultView::Failed => Ok(analyzed_view(node.full_module.analysis.references@)),
        SplitResultView::Success { asset_ident, deps, entrypoints, parts } => match node.part {
            ModulePartView::Facade => Ok(facade_references(node) + analyzed_view(analyzed)),
            ModulePartView::Exports => Ok(export_references(node, entrypoints) + analyzed_view(analyzed)),
            _ => match resolve(split, node.part) {
                Ok(id) => Ok(internal_references(node, deps_of(deps, id)) + analyzed_view(analyzed)),
                Err(error) => Err(error),
            },
        },
    }
}

/// The value of a list of references or of the error in its place.
pub open spec fn outcome_view(r: Result<Vec<ModuleReference>, PartError>) -> Result<
    Seq<ModuleReferenceView>,
    PartErrorView,
> {
    match r {
        Ok(references) => Ok(references_view(references@)),
        Err(error) => Err(error@),
    }
}

/// Whether one of the references leads to an ES module outside the project.
pub open spec fn refers_outside(references: Seq<ModuleReferenceView>) -> bool {
    exists|i: int|
        0 <= i < references.len() && (#[trigger] references[i] matches ModuleReferenceView::Analyzed(found)
            && found.external_module)
}

/// Whether a module with the given references must be loaded asynchronously:
/// it awaits at its top level, or it imports an outside ES module as such.
pub open spec fn is_self_async(info: AsyncModule, references: Seq<ModuleReferenceView>) -> bool {
    info.has_top_level_await || (info.import_externals && refers_outside(references))
}

/// Whether the part `node` must be loaded asynchronously. The references are
/// looked at only where the answer depends on them.
pub open spec fn async_spec(node: PartAssetView, split: SplitResultView, analyzed: Seq<AnalyzedReference>) -> Result<
    bool,
    PartErrorView,
> {
    match node.full_module.analysis.async_module {
        None => Ok(false),
        Some(info) => if info.has_top_level_await {
            Ok(true)
        } else if !info.import_externals {
            Ok(false)
        } else {
            match references_spec(node, split, analyzed) {
                Ok(references) => Ok(is_self_async(info, references)),
                Err(error) => Err(error),
            }
        },
    }
}

/// The value of an answer or of the error in its place.
pub open spec fn answer_view(r: Result<bool, PartError>) -> Result<bool, PartErrorView> {
    match r {
        Ok(answer) => Ok(answer),
        Err(error) => Err(error@),
    }
}

/// The identity of `node`: that of its module, narrowed to the part where the
/// module was split.
pub open spec fn ident_spec(node: PartAssetView, split: SplitResultView) -> AssetIdentView {
    match split {
        SplitResultView::Success { .. } => node.full_module.ident@.with_part(node.part),
        SplitResultView::Failed => node.full_module.ident@,
    }
}

/// What to hand to the analysis: a module, the part of it to look at, and the
/// places in the source to pass over.
pub struct AnalyzeRequest<'a> {
    pub module: &'a EcmascriptModuleAsset,
    pub part: Option<ModulePart>,
    pub ignored_spans: Option<HashSet<Span>>,
}

/// The unit that a bundler emits for one part.
pub struct EcmascriptModulePartChunkItem<'a, C> {
    pub module: EcmascriptModulePartAsset<'a>,
    pub chunking_context: C,
}

/// Asks for the analysis of one part of a module.
pub fn analyze<'a>(module: &'a EcmascriptModuleAsset, part: ModulePart, ignored_spans: Option<HashSet<Span>>) -> (r:
    AnalyzeRequest<'a>)
    ensures
        r.module == module,
        r.part == Some(part),
        r.ignored_spans == ignored_spans,
{
    AnalyzeRequest { module, part: Some(part), ignored_spans }
}

/// The references that an analysis found, as references of a node.
fn wrap_analyzed<'a>(found: &Vec<AnalyzedReference>) -> (r: Vec<ModuleReference<'a>>)
    ensures
        references_view(r@) == analyzed_view(found@),
{
    let mut r: Vec<ModuleReference<'a>> = Vec::new();
    let mut i: usize = 0;
    while i < found.len()
        invariant
            i <= found@.len(),
            r@.len() == i,
            forall|j: int| 0 <= j < i ==> (#[trigger] r@[j])@ == ModuleReferenceView::Analyzed(found@[j]@),
        decreases found@.len() - i,
    {
        r.push(ModuleReference::Analyzed(found[i].clone()));
        i += 1;
    }
    proof {
        assert(references_view(r@) =~= analyzed_view(found@));
    }
    r
}

impl<'a> EcmascriptModulePartAsset<'a> {
    /// A node for the part `part` of `module`.
    pub fn new(module: &'a EcmascriptModuleAsset, part: ModulePart, import_externals: bool) -> (r: Self)
        ensures
            r@ == (PartAssetView { full_module: *module, part: part@, import_externals }),
    {
        EcmascriptModulePartAsset { full_module: module, part, import_externals }
    }

    /// The unit to analyze for this part: the part taken out of the split
    /// module, or the whole module where it was not split.
    pub fn failsafe_parse(&self) -> (r: Result<ParseResult, PartError>)
        ensures
            unit_view(r) == project(self.full_module.parsed@, module_split(*self.full_module), self@.part),
    {
        let split_data = split(&self.full_module.ident, &self.full_module.parsed);
        part_of_module(&self.full_module.parsed, &split_data, &self.part)
    }

    /// The parsed form of the whole module.
    pub fn parse_original(&self) -> (r: &ParseResult)
        ensures
            r == self.full_module.parsed,
    {
        &self.full_module.parsed
    }

    /// The language of the module.
    pub fn ty(&self) -> (r: EcmascriptModuleAssetType)
        ensures
            r == self.full_module.ty,
    {
        self.full_module.ty
    }

    /// The source of the part: always that of the whole module.
    pub fn content(&self) -> (r: &String)
        ensures
            r == self.full_module.content,
    {
        &self.full_module.content
    }

    /// The exports of the part: those that the analysis of the part found.
    pub fn get_exports<'b>(&self, analyze: &'b AnalyzeEcmascriptModuleResult) -> (r: &'b Vec<String>)
        ensures
            r == analyze.exports,
    {
        &analyze.exports
    }

    /// Asks for the analysis of this part.
    pub fn analyze(&self) -> (r: AnalyzeRequest<'a>)
        ensures
            r.module == self.full_module,
            r.part matches Some(part) && part@ == self@.part,
            r.ignored_spans is None,
    {
        analyze(self.full_module, self.part.clone(), None)
    }

    /// The identity of the node within a given split of its module.
    pub fn ident_in(&self, result: &SplitResult) -> (r: AssetIdent)
        ensures
            r@ == ident_spec(self@, result@),
    {
        match result {
            SplitResult::Success { .. } => self.full_module.ident.with_part(&self.part),
            SplitResult::Failed => self.full_module.ident.clone(),
        }
    }

    /// The identity of the node: that of the module, narrowed to the part.
    /// All parts of a module that could not be split have the identity of the
    /// module.
    pub fn ident(&self) -> (r: AssetIdent)
        ensures
            r@ == ident_spec(self@, module_split(*self.full_module)),
    {
        let result = split_module(self.full_module);
        self.ident_in(&result)
    }

    /// A reference to the part `part` of the same module.
    fn refer(&self, part: ModulePart, description: String) -> (r: ModuleReference<'a>)
        ensures
            r@ == part_reference(self@, part@, description@),
    {
        ModuleReference::Single(
            SingleModuleReference {
                asset: EcmascriptModulePartAsset::new(self.full_module, part, self.import_externals),
                description,
            },
        )
    }

    fn refer_to_exports(&self, entrypoints: &Vec<(Key, u32)>) -> (r: Vec<ModuleReference<'a>>)
        ensures
            references_view(r@) == export_references(self@, entrypoints_view(entrypoints@)),
    {
        let ghost all = entrypoints_view(entrypoints@);
        let mut r: Vec<ModuleReference<'a>> = Vec::new();
        let mut i: usize = 0;
        while i < entrypoints.len()
            invariant
                all == entrypoints_view(entrypoints@),
                i <= entrypoints@.len(),
                references_view(r@) == export_references(self@, all.take(i as int)),
            decreases entrypoints@.len() - i,
        {
            proof {
                assert(all.take(i + 1).drop_last() =~= all.take(i as int));
                assert(all.take(i + 1).last() == (entrypoints@[i as int].0@, entrypoints@[i as int].1));
            }
            match &entrypoints[i].0 {
                Key::Export(name) => {
                    let description = String::from_str("ecmascript export '").concat(name.as_str()).concat("'");
                    let ghost before = r@;
                    let reference = self.refer(ModulePart::export(name.clone()), description);
                    r.push(reference);
                    proof {
                        assert(references_view(r@) =~= references_view(before).push(reference@));
                    }
                },
                _ => {},
            }
            i += 1;
        }
        proof {
            assert(all.take(entrypoints@.len() as int) =~= all);
        }
        r
    }

    fn refer_to_parts(&self, needed: &Vec<u32>) -> (r: Vec<ModuleReference<'a>>)
        ensures
            references_view(r@) == internal_references(self@, needed@),
    {
        let mut r: Vec<ModuleReference<'a>> = Vec::new();
        let mut j: usize = 0;
        while j < needed.len()
            invariant
                j <= needed@.len(),
                r@.len() == j,
                forall|k: int|
                    0 <= k < j ==> (#[trigger] r@[k])@ == part_reference(
                        self@,
                        ModulePartView::Internal(needed@[k]),
                        "ecmascript module part"@,
                    ),
            decreases needed@.len() - j,
        {
            let reference = self.refer(ModulePart::internal(needed[j]), String::from_str("ecmascript module part"));
            r.push(reference);
            j += 1;
        }
        proof {
            assert(references_view(r@) =~= internal_references(self@, needed@));
        }
        r
    }

    /// What the node refers to within a given split of its module, where the
    /// analysis of its part found `analyze`.
    pub fn references_in(&self, result: &SplitResult, analyze: &AnalyzeEcmascriptModuleResult) -> (r: Result<
        Vec<ModuleReference<'a>>,
        PartError,
    >)
        ensures
            outcome_view(r) == references_spec(self@, result@, analyze.references@),
    {
        let (deps, entrypoints) = match result {
            SplitResult::Success { deps, entrypoints, .. } => (deps, entrypoints),
            SplitResult::Failed => {
                return Ok(wrap_analyzed(&self.full_module.analysis.references));
            },
        };
        let mut references = match &self.part {
            ModulePart::Facade => {
                let mut references: Vec<ModuleReference<'a>> = Vec::new();
                references.push(
                    self.refer(ModulePart::evaluation(), String::from_str("ecmascript module evaluation")),
                );
                references.push(self.refer(ModulePart::exports(), String::from_str("ecmascript reexports")));
                proof {
                    assert(references_view(references@) =~= facade_references(self@));
                }
                references
            },
            ModulePart::Exports => self.refer_to_exports(entrypoints),
            _ => {
                let part_id = match get_part_id(result, &self.part) {
                    Ok(part_id) => part_id,
                    Err(error) => {
                        return Err(error);
                    },
                };
                if (part_id as usize) < deps.len() {
                    proof {
                        assert(deps_view(deps@)[part_id as int] == deps@[part_id as int]@);
                    }
                    self.refer_to_parts(&deps[part_id as usize])
                } else {
                    let none: Vec<u32> = Vec::new();
                    self.refer_to_parts(&none)
                }
            },
        };
        let mut found = wrap_analyzed(&analyze.references);
        let ghost first = references@;
        let ghost second = found@;
        references.append(&mut found);
        proof {
            assert(references_view(references@) =~= references_view(first) + references_view(second));
        }
        Ok(references)
    }

    /// What the node refers to, where the analysis of its part found
    /// `analyze`.
    pub fn references(&self, analyze: &AnalyzeEcmascriptModuleResult) -> (r: Result<
        Vec<ModuleReference<'a>>,
        PartError,
    >)
        ensures
            outcome_view(r) == references_spec(self@, module_split(*self.full_module), analyze.references@),
    {
        let split_data = split_module(self.full_module);
        self.references_in(&split_data, analyze)
    }

    /// Whether the part must be loaded asynchronously. The whole module
    /// decides, but by the references of this part.
    pub fn is_async_module(&self, analyze: &AnalyzeEcmascriptModuleResult) -> (r: Result<bool, PartError>)
        ensures
            answer_view(r) == async_spec(self@, module_split(*self.full_module), analyze.references@),
    {
        match self.full_module.analysis.async_module {
            Some(info) => {
                if info.has_top_level_await {
                    Ok(true)
                } else if !info.import_externals {
                    Ok(false)
                } else {
                    match self.references(analyze) {
                        Ok(references) => Ok(any_outside(&references)),
                        Err(error) => Err(error),
                    }
                }
            },
            None => Ok(false),
        }
    }

    /// The error to report where parsing or analyzing this part failed
    /// outside: the cause, with the module and the part that it struck.
    pub fn upstream_error(&self, cause: String) -> (r: PartError)
        ensures
            r@ == (PartErrorView::Upstream { module: self.full_module.ident@, part: self@.part, cause: cause@ }),
    {
        PartError::Upstream { module: self.full_module.ident.clone(), part: self.part.clone(), cause }
    }

    /// The unit that a bundler emits for this part.
    pub fn as_chunk_item<C>(&self, chunking_context: C) -> (r: EcmascriptModulePartChunkItem<'a, C>)
        ensures
            r.module@ == self@,
            r.chunking_context == chunking_context,
    {
        EcmascriptModulePartChunkItem { module: self.clone(), chunking_context }
    }
}

/// Whether one of the references leads to an ES module outside the project.
fn any_outside(references: &Vec<ModuleReference>) -> (r: bool)
    ensures
        r == refers_outside(references_view(references@)),
{
    let ghost all = references_view(references@);
    let mut i: usize = 0;
    while i < references.len()
        invariant
            all == references_view(references@),
            i <= references@.len(),
            forall|k: int|
                0 <= k < i ==> !(#[trigger] all[k] matches ModuleReferenceView::Analyzed(found)
                    && found.external_module),
        decreases references@.len() - i,
    {
        proof {
            assert(all[i as int] == references@[i as int]@);
        }
        match &references[i] {
            ModuleReference::Analyzed(found) => {
                if found.external_module {
                    return true;
                }
            },
            _ => {},
        }
        i += 1;
    }
    false
}

} // verus!
