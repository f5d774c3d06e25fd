//! What holds of every split, of every lookup in it and of every node built
//! on it.

use vstd::prelude::*;
use crate::asset::{
    analyzed_view, facade_references, ident_spec, module_split, part_reference, references_spec,
    AnalyzedReference, EcmascriptModuleAsset, PartAssetView,
};
use crate::component::{
    edge_between, lemma_joined_part_earlier, lemma_part_index_bound, lemma_part_index_same,
    lemma_reached_part_not_later, tangled,
};
use crate::counting::{count, lemma_count_push, lemma_marked_exact, lemma_select_marked, marked};
use crate::dependency::{anchor, depends, lemma_module_graph, module_graph};
use crate::graph::lemma_edge_reaches;
use crate::error::PartErrorView;
use crate::ident::AssetIdentView;
use crate::parse::ParseResultView;
use crate::part::{KeyView, ModulePartView};
use crate::resolve::{lemma_lookup_first, project, resolve};
use crate::split::{
    declares, defined, definer, defines, dependency_flags, evaluation_id, export_part, exports_from_within,
    exports_id, facade_id, group_total, needs_part, part_of, split_deps, split_entrypoints, split_parts,
    split_spec, splittable, statement_flags, SplitResult, SplitResultView,
};

verus! {

/// Splitting is a function of the module: two splits of modules with the same
/// identity and the same content are the same.
pub proof fn lemma_split_deterministic(
    first: SplitResult,
    second: SplitResult,
    ident: AssetIdentView,
    m: ParseResultView,
)
    requires
        first@ == split_spec(ident, m),
        second@ == split_spec(ident, m),
    ensures
        first@ == second@,
{
}

/// The number of parts that hold statements is at most one more than the
/// number of statements, and the evaluation part is one of them.
pub proof fn lemma_group_total(m: ParseResultView)
    ensures
        0 < group_total(m) <= m.statements.len() + 1,
        evaluation_id(m) < group_total(m),
{
    lemma_module_graph(m);
    lemma_part_index_bound(module_graph(m), m.statements.len() as int);
}

/// Splitting looks at the identity and the parsed form of a module only: what
/// the analysis of the module found does not change the split.
pub proof fn lemma_split_ignores_analysis(first: EcmascriptModuleAsset, second: EcmascriptModuleAsset)
    requires
        first.ident@ == second.ident@,
        first.parsed@ == second.parsed@,
    ensures
        module_split(first) == module_split(second),
{
}

/// Two nodes of the dependency graph lie in the same part exactly if each
/// depends on the other, directly or through others: no part can be split
/// further.
pub proof fn lemma_same_part(m: ParseResultView, a: int, b: int)
    requires
        0 <= a <= anchor(m),
        0 <= b <= anchor(m),
    ensures
        part_of(m, a) == part_of(m, b) <==> tangled(module_graph(m), a, b),
{
    lemma_module_graph(m);
    lemma_part_index_same(module_graph(m), a, b);
}

/// Every statement with a side effect lies in the evaluation part.
pub proof fn lemma_side_effects_in_evaluation(m: ParseResultView, i: int)
    requires
        0 <= i < m.statements.len(),
        m.statements[i].side_effects,
    ensures
        part_of(m, i) == evaluation_id(m),
{
    let g = module_graph(m);
    lemma_module_graph(m);
    assert(has_edge_between(m, i, anchor(m)));
    assert(has_edge_between(m, anchor(m), i));
    lemma_edge_reaches(g, i, anchor(m));
    lemma_edge_reaches(g, anchor(m), i);
    lemma_part_index_same(g, i, anchor(m));
}

/// The dependency graph of `m` has an edge from `a` to `b`.
pub open spec fn has_edge_between(m: ParseResultView, a: int, b: int) -> bool {
    crate::graph::has_edge(module_graph(m), a, b)
}

/// Where a node depends on another, the other lies in the same part or in a
/// part with a smaller number that the part of the first lists among the
/// parts that it needs. So a statement that uses a binding finds the
/// statement that declares it, and the evaluation part finds what its
/// statements use.
pub proof fn lemma_dependency_is_kept(m: ParseResultView, a: int, b: int)
    requires
        splittable(m),
        0 <= a <= anchor(m),
        0 <= b <= anchor(m),
        depends(m, a, b),
    ensures
        part_of(m, b) <= part_of(m, a) < group_total(m),
        part_of(m, b) != part_of(m, a) ==> split_deps(m)[part_of(m, a) as int].contains(part_of(m, b) as u32),
{
    let g = module_graph(m);
    let p = part_of(m, a) as int;
    let q = part_of(m, b) as int;
    lemma_module_graph(m);
    assert(has_edge_between(m, a, b));
    lemma_edge_reaches(g, a, b);
    lemma_reached_part_not_later(g, a, b);
    lemma_part_index_bound(g, a);
    if p != q {
        assert(edge_between(g, p, q, a, b));
        assert(needs_part(m, p, q));
        lemma_deps_ordered_set(m, p);
    }
}

/// The statement that defines an export lies in a part that holds statements.
pub proof fn lemma_export_part(m: ParseResultView, e: int)
    requires
        splittable(m),
        0 <= e < m.exports.len(),
    ensures
        defines(m, definer(m, m.exports[e].binding), m.exports[e].binding),
        0 <= definer(m, m.exports[e].binding) < m.statements.len(),
        export_part(m, e) < group_total(m),
{
    let id = m.exports[e].binding;
    assert(defined(m, id));
    let d = definer(m, id);
    assert(declares(m, d, id));
    lemma_module_graph(m);
    lemma_part_index_bound(module_graph(m), d);
}

/// The statements of part `p`, by their positions in the module, in source
/// order.
pub open spec fn members(m: ParseResultView, p: int) -> Seq<int> {
    marked(statement_flags(m, p))
}

/// A part holds the statements at the positions of its members, in source
/// order, and each position once. The exports part and the facade hold none.
pub proof fn lemma_part_holds_members(m: ParseResultView, p: int)
    requires
        splittable(m),
        0 <= p < group_total(m) + 2,
    ensures
        p < group_total(m) ==> split_parts(m)[p].statements.len() == members(m, p).len(),
        p < group_total(m) ==> forall|j: int|
            0 <= j < members(m, p).len() ==> #[trigger] split_parts(m)[p].statements[j] == m.statements[members(
                m,
                p,
            )[j]],
        p >= group_total(m) ==> split_parts(m)[p].statements.len() == 0,
        forall|j: int, k: int| 0 <= j < k < members(m, p).len() ==> members(m, p)[j] < members(m, p)[k],
        forall|j: int|
            0 <= j < members(m, p).len() ==> 0 <= #[trigger] members(m, p)[j] < m.statements.len() && part_of(
                m,
                members(m, p)[j],
            ) == p,
{
    let flags = statement_flags(m, p);
    lemma_marked_exact(flags);
    lemma_select_marked(m.statements, flags);
}

/// Every statement of a split module is a member of exactly one part: the one
/// that [`part_of`] names.
pub proof fn lemma_statement_in_one_part(m: ParseResultView, i: int)
    requires
        splittable(m),
        0 <= i < m.statements.len(),
    ensures
        part_of(m, i) < group_total(m),
        members(m, part_of(m, i) as int).contains(i),
        forall|p: int| members(m, p).contains(i) ==> p == part_of(m, i),
{
    lemma_module_graph(m);
    lemma_part_index_bound(module_graph(m), i);
    let own = statement_flags(m, part_of(m, i) as int);
    lemma_marked_exact(own);
    assert(own[i]);
    assert forall|p: int| members(m, p).contains(i) implies p == part_of(m, i) by {
        let flags = statement_flags(m, p);
        lemma_marked_exact(flags);
        let j = choose|j: int| 0 <= j < marked(flags).len() && marked(flags)[j] == i;
        assert(flags[marked(flags)[j]]);
    }
}

/// The number of statements in the first `upto` parts of a table.
pub open spec fn statements_held(parts: Seq<ParseResultView>, upto: int) -> int
    decreases upto,
{
    if upto <= 0 {
        0
    } else {
        statements_held(parts, upto - 1) + parts[upto - 1].statements.len()
    }
}

/// For each position of `assigned`, whether it holds `p`.
pub open spec fn assigned_to(assigned: Seq<int>, p: int) -> Seq<bool> {
    Seq::new(assigned.len(), |i: int| assigned[i] == p)
}

/// The number of positions of `assigned` that hold a value below `upto`,
/// counted value by value.
pub open spec fn assigned_below(assigned: Seq<int>, upto: int) -> int
    decreases upto,
{
    if upto <= 0 {
        0
    } else {
        assigned_below(assigned, upto - 1) + count(assigned_to(assigned, upto - 1))
    }
}

proof fn lemma_assigned_below_push(assigned: Seq<int>, value: int, upto: int)
    requires
        0 <= value,
        0 <= upto,
    ensures
        assigned_below(assigned.push(value), upto) == assigned_below(assigned, upto) + if value < upto {
            1int
        } else {
            0int
        },
    decreases upto,
{
    if upto > 0 {
        lemma_assigned_below_push(assigned, value, upto - 1);
        let p = upto - 1;
        assert(assigned_to(assigned.push(value), p) =~= assigned_to(assigned, p).push(value == p));
        lemma_count_push(assigned_to(assigned, p), value == p);
    }
}

proof fn lemma_assigned_below_empty(upto: int)
    requires
        0 <= upto,
    ensures
        assigned_below(Seq::<int>::empty(), upto) == 0,
    decreases upto,
{
    if upto > 0 {
        lemma_assigned_below_empty(upto - 1);
        assert(assigned_to(Seq::<int>::empty(), upto - 1) =~= Seq::<bool>::empty());
    }
}

proof fn lemma_assigned_below_all(assigned: Seq<int>, upto: int)
    requires
        0 <= upto,
        forall|i: int| 0 <= i < assigned.len() ==> 0 <= #[trigger] assigned[i] < upto,
    ensures
        assigned_below(assigned, upto) == assigned.len(),
    decreases assigned.len(),
{
    if assigned.len() == 0 {
        assert(assigned =~= Seq::<int>::empty());
        lemma_assigned_below_empty(upto);
    } else {
        let front = assigned.drop_last();
        lemma_assigned_below_all(front, upto);
        assert(assigned =~= front.push(assigned.last()));
        lemma_assigned_below_push(front, assigned.last(), upto);
    }
}

proof fn lemma_statements_held(m: ParseResultView, assigned: Seq<int>, upto: int)
    requires
        splittable(m),
        assigned == Seq::new(m.statements.len(), |i: int| part_of(m, i) as int),
        0 <= upto <= group_total(m),
    ensures
        statements_held(split_parts(m), upto) == assigned_below(assigned, upto),
    decreases upto,
{
    if upto > 0 {
        lemma_statements_held(m, assigned, upto - 1);
        let p = upto - 1;
        lemma_part_holds_members(m, p);
        lemma_marked_exact(statement_flags(m, p));
        assert(assigned_to(assigned, p) =~= statement_flags(m, p));
    }
}

/// The parts of a split module hold, taken together, as many statements as
/// the module has.
pub proof fn lemma_parts_hold_all_statements(m: ParseResultView)
    requires
        splittable(m),
    ensures
        statements_held(split_parts(m), split_parts(m).len() as int) == m.statements.len(),
{
    let k = group_total(m) as int;
    let assigned = Seq::new(m.statements.len(), |i: int| part_of(m, i) as int);
    lemma_group_total(m);
    assert forall|i: int| 0 <= i < assigned.len() implies 0 <= #[trigger] assigned[i] < k by {
        lemma_statement_in_one_part(m, i);
    }
    lemma_assigned_below_all(assigned, k);
    lemma_statements_held(m, assigned, k);
    lemma_part_holds_members(m, k);
    lemma_part_holds_members(m, k + 1);
    assert(statements_held(split_parts(m), k + 2) == statements_held(split_parts(m), k + 1) + split_parts(
        m,
    )[k + 1].statements.len());
    assert(statements_held(split_parts(m), k + 1) == statements_held(split_parts(m), k) + split_parts(
        m,
    )[k].statements.len());
}

/// The dependencies of a part are an ordered set: they list, in ascending
/// order and each once, exactly the parts that the part needs.
pub proof fn lemma_deps_ordered_set(m: ParseResultView, p: int)
    requires
        splittable(m),
        0 <= p < group_total(m) + 2,
    ensures
        forall|j: int, k: int| 0 <= j < k < split_deps(m)[p].len() ==> split_deps(m)[p][j] < split_deps(m)[p][k],
        forall|q: int|
            0 <= q < group_total(m) + 2 ==> (split_deps(m)[p].contains(q as u32) <==> #[trigger] needs_part(m, p, q)),
        forall|j: int| 0 <= j < split_deps(m)[p].len() ==> #[trigger] split_deps(m)[p][j] < group_total(m) + 2,
{
    lemma_group_total(m);
    let flags = dependency_flags(m, p);
    let row = split_deps(m)[p];
    lemma_marked_exact(flags);
    assert forall|q: int| 0 <= q < group_total(m) + 2 implies (row.contains(q as u32) <==> #[trigger] needs_part(
        m,
        p,
        q,
    )) by {
        if needs_part(m, p, q) {
            assert(flags[q]);
            let j = choose|j: int| 0 <= j < marked(flags).len() && marked(flags)[j] == q;
            assert(row[j] == q as u32);
        }
        if row.contains(q as u32) {
            let j = choose|j: int| 0 <= j < row.len() && row[j] == q as u32;
            assert(flags[marked(flags)[j]]);
        }
    }
}

/// Every part needs only parts with smaller numbers.
pub proof fn lemma_deps_descend(m: ParseResultView, p: int, j: int)
    requires
        splittable(m),
        0 <= p < group_total(m) + 2,
        0 <= j < split_deps(m)[p].len(),
    ensures
        split_deps(m)[p][j] < p,
{
    lemma_group_total(m);
    let k = group_total(m) as int;
    let flags = dependency_flags(m, p);
    lemma_marked_exact(flags);
    let q = marked(flags)[j];
    assert(flags[q]);
    assert(split_deps(m)[p][j] == q as u32);
    if p < k {
        lemma_joined_part_earlier(module_graph(m), p, q);
    } else if p == k {
        let e = choose|e: int| 0 <= e < m.exports.len() && #[trigger] export_part(m, e) == q;
        lemma_export_part(m, e);
    }
}

/// Part `p` lists part `q` among the parts that it needs.
pub open spec fn needs_directly(deps: Seq<Seq<u32>>, p: int, q: int) -> bool {
    0 <= p < deps.len() && exists|j: int| 0 <= j < deps[p].len() && #[trigger] deps[p][j] as int == q
}

/// Each part of `w` lists the next among the parts that it needs.
pub open spec fn is_chain(deps: Seq<Seq<u32>>, w: Seq<int>) -> bool {
    w.len() > 0 && forall|i: int| 0 <= i < w.len() - 1 ==> needs_directly(deps, #[trigger] w[i], w[i + 1])
}

proof fn lemma_chain_descends(m: ParseResultView, w: Seq<int>, i: int)
    requires
        splittable(m),
        is_chain(split_deps(m), w),
        1 <= i < w.len(),
    ensures
        w[i] < w[0],
    decreases i,
{
    let deps = split_deps(m);
    assert(needs_directly(deps, w[i - 1], w[i - 1 + 1]));
    let j = choose|j: int| 0 <= j < deps[w[i - 1]].len() && #[trigger] deps[w[i - 1]][j] as int == w[i];
    lemma_deps_descend(m, w[i - 1], j);
    if i > 1 {
        lemma_chain_descends(m, w, i - 1);
    }
}

/// The dependencies of a split module have no cycle: a chain of needs never
/// comes back to the part that it started from.
pub proof fn lemma_no_cycle(m: ParseResultView, w: Seq<int>)
    requires
        splittable(m),
        is_chain(split_deps(m), w),
        w.len() >= 2,
    ensures
        w.last() < w.first(),
        w.last() != w.first(),
{
    lemma_chain_descends(m, w, w.len() - 1);
}

/// The facade, the evaluation part and the exports part of a split module are
/// always found, and an internal part is found exactly if the table of parts
/// has its number.
pub proof fn lemma_sentinels_resolve(ident: AssetIdentView, m: ParseResultView)
    requires
        splittable(m),
    ensures
        resolve(split_spec(ident, m), ModulePartView::Facade) == Ok::<u32, PartErrorView>(facade_id(m) as u32),
        resolve(split_spec(ident, m), ModulePartView::Evaluation) == Ok::<u32, PartErrorView>(
            evaluation_id(m) as u32,
        ),
        resolve(split_spec(ident, m), ModulePartView::Exports) == Ok::<u32, PartErrorView>(exports_id(m) as u32),
        evaluation_id(m) < exports_id(m) < facade_id(m),
        facade_id(m) + 1 == split_parts(m).len(),
        forall|id: u32|
            (#[trigger] resolve(split_spec(ident, m), ModulePartView::Internal(id))) is Ok <==> id < split_parts(
                m,
            ).len(),
{
    lemma_group_total(m);
    let entrypoints = split_entrypoints(m);
    lemma_lookup_first(entrypoints, KeyView::ModuleEvaluation, 0);
    lemma_lookup_first(entrypoints, KeyView::Exports, 1);
}

/// Every export of a split module has exactly one entry point, and the
/// address of the export is always found: it names the part that defines the
/// export.
pub proof fn lemma_export_resolves(ident: AssetIdentView, m: ParseResultView, e: int)
    requires
        splittable(m),
        0 <= e < m.exports.len(),
    ensures
        forall|i: int|
            0 <= i < split_entrypoints(m).len() ==> ((#[trigger] split_entrypoints(m)[i]).0 == KeyView::Export(
                m.exports[e].name,
            ) <==> i == e + 2),
        split_entrypoints(m)[e + 2].1 == export_part(m, e),
        export_part(m, e) < group_total(m),
        resolve(split_spec(ident, m), ModulePartView::Export(m.exports[e].name)) == Ok::<u32, PartErrorView>(
            export_part(m, e) as u32,
        ),
{
    lemma_group_total(m);
    lemma_export_part(m, e);
    let entrypoints = split_entrypoints(m);
    let key = KeyView::Export(m.exports[e].name);
    assert forall|i: int| 0 <= i < entrypoints.len() implies ((#[trigger] entrypoints[i]).0 == key <==> i == e + 2) by {
        if i >= 2 && i != e + 2 {
            if i - 2 < e {
                assert(m.exports[i - 2].name != m.exports[e].name);
            } else {
                assert(m.exports[e].name != m.exports[i - 2].name);
            }
        }
    }
    lemma_lookup_first(entrypoints, key, e + 2);
}

/// In a module that was not split, every address stands for the whole module:
/// it projects to the whole module, and a node built on it has the identity
/// and the references of the whole module.
pub proof fn lemma_unsplit_is_whole(node: PartAssetView, analyzed: Seq<AnalyzedReference>)
    requires
        !splittable(node.full_module.parsed@),
    ensures
        module_split(node.full_module) is Failed,
        project(node.full_module.parsed@, module_split(node.full_module), node.part) == Ok::<
            ParseResultView,
            PartErrorView,
        >(node.full_module.parsed@),
        ident_spec(node, module_split(node.full_module)) == node.full_module.ident@,
        references_spec(node, module_split(node.full_module), analyzed) == Ok::<_, PartErrorView>(
            analyzed_view(node.full_module.analysis.references@),
        ),
{
}

/// In a split module, the facade refers to the evaluation part and to the
/// exports part, and needs exactly these two.
pub proof fn lemma_facade_complete(node: PartAssetView, analyzed: Seq<AnalyzedReference>)
    requires
        splittable(node.full_module.parsed@),
        node.part == ModulePartView::Facade,
    ensures
        references_spec(node, module_split(node.full_module), analyzed) == Ok::<_, PartErrorView>(
            facade_references(node) + analyzed_view(analyzed),
        ),
        (facade_references(node) + analyzed_view(analyzed))[0] == part_reference(
            node,
            ModulePartView::Evaluation,
            "ecmascript module evaluation"@,
        ),
        (facade_references(node) + analyzed_view(analyzed))[1] == part_reference(
            node,
            ModulePartView::Exports,
            "ecmascript reexports"@,
        ),
        forall|q: int|
            0 <= q <= facade_id(node.full_module.parsed@) ==> (#[trigger] split_deps(
                node.full_module.parsed@,
            )[facade_id(node.full_module.parsed@) as int].contains(q as u32) <==> (q == evaluation_id(
                node.full_module.parsed@,
            ) || q == exports_id(node.full_module.parsed@))),
{
    let m = node.full_module.parsed@;
    lemma_group_total(m);
    lemma_deps_ordered_set(m, facade_id(m) as int);
    assert forall|q: int| 0 <= q <= facade_id(m) implies (#[trigger] split_deps(m)[facade_id(m) as int].contains(
        q as u32,
    ) <==> (q == evaluation_id(m) || q == exports_id(m))) by {
        assert(needs_part(m, facade_id(m) as int, q) <==> (q == evaluation_id(m) || q == exports_id(m)));
    }
}

/// In a split module, the exports part needs exactly the parts that define
/// exports.
pub proof fn lemma_exports_complete(m: ParseResultView, e: int)
    requires
        splittable(m),
        0 <= e < m.exports.len(),
    ensures
        split_deps(m)[exports_id(m) as int].contains(export_part(m, e) as u32),
{
    lemma_group_total(m);
    lemma_export_part(m, e);
    lemma_deps_ordered_set(m, exports_id(m) as int);
    assert(exports_from_within(m, export_part(m, e) as int, m.exports.len() as int));
    assert(needs_part(m, exports_id(m) as int, export_part(m, e) as int));
}

} // verus!
