//! Splitting a module into parts.

use vstd::prelude::*;
use crate::component::{
    condense, joins, lemma_part_index_bound, part_index, part_links, part_total, Condensation,
};
use crate::counting::{cleared, lemma_marked_push, lemma_select_push, marked, select};
use crate::dependency::{anchor, build_graph, contains_id, lemma_module_graph, module_graph};
use crate::graph::Digraph;
use crate::ident::{AssetIdent, AssetIdentView};
use crate::parse::{
    copy_exports, export_views, statement_views, Export, ParseResult, ParseResultView, Statement,
};
use crate::part::{Key, KeyView};

verus! {

/// Statement `j` declares the binding `id`.
pub open spec fn declares(m: ParseResultView, j: int, id: u32) -> bool {
    0 <= j < m.statements.len() && m.statements[j].declares.contains(id)
}

/// Statement `j` is the one statement that declares the binding `id`.
pub open spec fn defines(m: ParseResultView, j: int, id: u32) -> bool {
    declares(m, j, id) && forall|k: int| #[trigger] declares(m, k, id) ==> k == j
}

/// Exactly one statement declares the binding `id`.
pub open spec fn defined(m: ParseResultView, id: u32) -> bool {
    exists|j: int| defines(m, j, id)
}

/// The statement that declares the binding `id`.
pub open spec fn definer(m: ParseResultView, id: u32) -> int {
    choose|j: int| defines(m, j, id)
}

/// The statement that defines a binding is its definer.
pub proof fn lemma_definer(m: ParseResultView, j: int, id: u32)
    requires
        defines(m, j, id),
    ensures
        defined(m, id),
        definer(m, id) == j,
{
    let d = definer(m, id);
    assert(defines(m, d, id));
    assert(declares(m, d, id));
}

/// Whether a module can be split: its parts can be numbered with 32 bits, no
/// statement hides what it depends on, every exported binding is declared by
/// exactly one statement, and no two exports share a name.
pub open spec fn splittable(m: ParseResultView) -> bool {
    &&& m.statements.len() + 3 <= u32::MAX
    &&& forall|i: int| 0 <= i < m.statements.len() ==> !(#[trigger] m.statements[i]).dynamic
    &&& forall|e: int| 0 <= e < m.exports.len() ==> defined(m, (#[trigger] m.exports[e]).binding)
    &&& forall|e: int, f: int|
        0 <= e < f < m.exports.len() ==> (#[trigger] m.exports[e]).name != (#[trigger] m.exports[f]).name
}

/// The number of the part that holds the node `a` of the dependency graph.
pub open spec fn part_of(m: ParseResultView, a: int) -> nat {
    part_index(module_graph(m), a)
}

/// The number of parts that hold statements, the evaluation part among them.
pub open spec fn group_total(m: ParseResultView) -> nat {
    part_total(module_graph(m))
}

/// The number of the part that defines the `e`-th export.
pub open spec fn export_part(m: ParseResultView, e: int) -> nat {
    part_of(m, definer(m, m.exports[e].binding))
}

/// The number of the evaluation part.
pub open spec fn evaluation_id(m: ParseResultView) -> nat {
    part_of(m, anchor(m))
}

/// The number of the exports part: the first after the parts that hold
/// statements.
pub open spec fn exports_id(m: ParseResultView) -> nat {
    group_total(m)
}

/// The number of the facade: the last of all.
pub open spec fn facade_id(m: ParseResultView) -> nat {
    group_total(m) + 1
}

/// For each statement, whether it belongs to part `p`.
pub open spec fn statement_flags(m: ParseResultView, p: int) -> Seq<bool> {
    Seq::new(m.statements.len(), |i: int| part_of(m, i) == p)
}

/// For each export, whether part `p` defines it.
pub open spec fn export_flags(m: ParseResultView, p: int) -> Seq<bool> {
    Seq::new(m.exports.len(), |e: int| export_part(m, e) == p)
}

/// What the parts before the exports part hold: their statements in source
/// order, and the exports that they define.
pub open spec fn group_unit(m: ParseResultView, p: int) -> ParseResultView {
    ParseResultView {
        statements: select(m.statements, statement_flags(m, p)),
        exports: select(m.exports, export_flags(m, p)),
    }
}

/// What the exports part and the facade hold: no statement of the module, and
/// all of its exports.
pub open spec fn surface_unit(m: ParseResultView) -> ParseResultView {
    ParseResultView { statements: Seq::empty(), exports: m.exports }
}

/// What part `p` holds.
pub open spec fn part_unit(m: ParseResultView, p: int) -> ParseResultView {
    if p < group_total(m) {
        group_unit(m, p)
    } else {
        surface_unit(m)
    }
}

/// The table of parts.
pub open spec fn split_parts(m: ParseResultView) -> Seq<ParseResultView> {
    Seq::new(group_total(m) + 2, |p: int| part_unit(m, p))
}

/// Part `p` holds a node that depends on a node of another part `q`.
pub open spec fn linked(m: ParseResultView, p: int, q: int) -> bool {
    q != p && joins(module_graph(m), p, q)
}

/// Part `q` defines one of the first `limit` exports.
pub open spec fn exports_from_within(m: ParseResultView, q: int, limit: int) -> bool {
    exists|e: int| 0 <= e < limit && #[trigger] export_part(m, e) == q
}

/// Part `q` defines an export.
pub open spec fn exports_from(m: ParseResultView, q: int) -> bool {
    exports_from_within(m, q, m.exports.len() as int)
}

/// Whether part `p` needs part `q`. A part that holds statements needs the
/// parts that it is linked to, the exports part needs the parts that define
/// exports, and the facade needs the evaluation part and the exports part.
pub open spec fn needs_part(m: ParseResultView, p: int, q: int) -> bool {
    if p < group_total(m) {
        linked(m, p, q)
    } else if p == group_total(m) {
        exports_from(m, q)
    } else {
        q == evaluation_id(m) || q == exports_id(m)
    }
}

/// For each part, whether part `p` needs it.
pub open spec fn dependency_flags(m: ParseResultView, p: int) -> Seq<bool> {
    Seq::new(group_total(m) + 2, |q: int| needs_part(m, p, q))
}

/// Part numbers as 32-bit values.
pub open spec fn part_ids(s: Seq<int>) -> Seq<u32> {
    Seq::new(s.len(), |j: int| s[j] as u32)
}

/// For each part, the parts that it needs, in ascending order.
pub open spec fn split_deps(m: ParseResultView) -> Seq<Seq<u32>> {
    Seq::new(group_total(m) + 2, |p: int| part_ids(marked(dependency_flags(m, p))))
}

/// The entry points: the evaluation part, the exports part, and for each
/// export, in the order of the module, the part that defines it.
pub open spec fn split_entrypoints(m: ParseResultView) -> Seq<(KeyView, u32)> {
    Seq::new(
        m.exports.len() + 2,
        |i: int|
            if i == 0 {
                (KeyView::ModuleEvaluation, evaluation_id(m) as u32)
            } else if i == 1 {
                (KeyView::Exports, exports_id(m) as u32)
            } else {
                (KeyView::Export(m.exports[i - 2].name), export_part(m, i - 2) as u32)
            },
    )
}

/// The outcome of splitting a module.
#[derive(Debug, PartialEq, Eq)]
pub enum SplitResult {
    /// The module was split.
    Success {
        /// The identity of the module.
        asset_ident: AssetIdent,
        /// For each part, by its number, the numbers of the parts that it
        /// needs.
        deps: Vec<Vec<u32>>,
        /// What can be asked for by name, and the part that answers.
        entrypoints: Vec<(Key, u32)>,
        /// For each part, by its number, what it holds.
        parts: Vec<ParseResult>,
    },
    /// The module cannot be split and stays one unit.
    Failed,
}

/// The value of a [`SplitResult`].
pub enum SplitResultView {
    Success {
        asset_ident: AssetIdentView,
        deps: Seq<Seq<u32>>,
        entrypoints: Seq<(KeyView, u32)>,
        parts: Seq<ParseResultView>,
    },
    Failed,
}

/// The values of the dependency lists.
pub open spec fn deps_view(deps: Seq<Vec<u32>>) -> Seq<Seq<u32>> {
    Seq::new(deps.len(), |p: int| deps[p]@)
}

/// The values of the entry points.
pub open spec fn entrypoints_view(entrypoints: Seq<(Key, u32)>) -> Seq<(KeyView, u32)> {
    Seq::new(entrypoints.len(), |i: int| (entrypoints[i].0@, entrypoints[i].1))
}

/// The values of the parts.
pub open spec fn parts_view(parts: Seq<ParseResult>) -> Seq<ParseResultView> {
    Seq::new(parts.len(), |p: int| parts[p]@)
}

impl View for SplitResult {
    type V = SplitResultView;

    open spec fn view(&self) -> SplitResultView {
        match self {
            SplitResult::Success { asset_ident, deps, entrypoints, parts } => SplitResultView::Success {
                asset_ident: asset_ident@,
                deps: deps_view(deps@),
                entrypoints: entrypoints_view(entrypoints@),
                parts: parts_view(parts@),
            },
            SplitResult::Failed => SplitResultView::Failed,
        }
    }
}

/// What splitting the module `m` of identity `ident` yields.
pub open spec fn split_spec(ident: AssetIdentView, m: ParseResultView) -> SplitResultView {
    if splittable(m) {
        SplitResultView::Success {
            asset_ident: ident,
            deps: split_deps(m),
            entrypoints: split_entrypoints(m),
            parts: split_parts(m),
        }
    } else {
        SplitResultView::Failed
    }
}

/// The groups `c` are those of the dependency graph of `m`.
pub open spec fn grouped(m: ParseResultView, c: Condensation) -> bool {
    &&& c.part@.len() == m.statements.len() + 1
    &&& forall|a: int| 0 <= a <= m.statements.len() ==> #[trigger] c.part@[a] == part_of(m, a)
    &&& c.total == group_total(m)
    &&& c.total <= m.statements.len() + 1
}

/// `definers` holds, for each export of `m`, the statement that defines it.
pub open spec fn located(m: ParseResultView, definers: Seq<usize>) -> bool {
    &&& definers.len() == m.exports.len()
    &&& forall|e: int|
        0 <= e < m.exports.len() ==> defines(m, #[trigger] definers[e] as int, m.exports[e].binding)
}

/// Whether some statement hides what it depends on.
fn has_dynamic(parsed: &ParseResult) -> (r: bool)
    ensures
        r == exists|i: int| 0 <= i < parsed@.statements.len() && (#[trigger] parsed@.statements[i]).dynamic,
{
    let mut i: usize = 0;
    while i < parsed.statements.len()
        invariant
            i <= parsed.statements@.len(),
            forall|k: int| 0 <= k < i ==> !(#[trigger] parsed@.statements[k]).dynamic,
        decreases parsed.statements@.len() - i,
    {
        proof {
            assert(parsed@.statements[i as int] == parsed.statements@[i as int]@);
        }
        if parsed.statements[i].dynamic {
            return true;
        }
        i += 1;
    }
    false
}

/// The statement that defines the binding `id`, if exactly one declares it.
fn find_definer(parsed: &ParseResult, id: u32) -> (r: Option<usize>)
    ensures
        match r {
            Some(j) => defines(parsed@, j as int, id),
            None => !defined(parsed@, id),
        },
{
    let ghost m = parsed@;
    let n = parsed.statements.len();
    let mut found: Option<usize> = None;
    let mut many = false;
    let mut j: usize = 0;
    while j < n
        invariant
            m == parsed@,
            n == parsed.statements@.len(),
            j <= n,
            match found {
                Some(f) => f < j && declares(m, f as int, id),
                None => !many,
            },
            !many ==> forall|k: int| 0 <= k < j && #[trigger] declares(m, k, id) ==> found == Some(k as usize),
            many ==> exists|k1: int, k2: int|
                k1 != k2 && #[trigger] declares(m, k1, id) && #[trigger] declares(m, k2, id),
        decreases n - j,
    {
        proof {
            assert(m.statements[j as int] == parsed.statements@[j as int]@);
        }
        if contains_id(&parsed.statements[j].declares, id) {
            proof {
                assert(declares(m, j as int, id));
            }
            match found {
                Some(f) => {
                    proof {
                        assert(f != j && declares(m, f as int, id) && declares(m, j as int, id));
                    }
                    many = true;
                },
                None => {
                    found = Some(j);
                },
            }
        }
        j += 1;
    }
    if many {
        proof {
            let (k1, k2) = choose|k1: int, k2: int|
                k1 != k2 && #[trigger] declares(m, k1, id) && #[trigger] declares(m, k2, id);
            assert forall|d: int| !defines(m, d, id) by {
                if defines(m, d, id) {
                    assert(k1 == d);
                    assert(k2 == d);
                }
            }
        }
        None
    } else {
        proof {
            if found is None {
                assert forall|d: int| !defines(m, d, id) by {
                    if defines(m, d, id) {
                        assert(declares(m, d, id));
                    }
                }
            }
        }
        found
    }
}

/// For each export the statement that defines it, if every export has one.
fn export_definers(parsed: &ParseResult) -> (r: Option<Vec<usize>>)
    ensures
        match r {
            Some(definers) => located(parsed@, definers@),
            None => exists|e: int|
                0 <= e < parsed@.exports.len() && !defined(parsed@, (#[trigger] parsed@.exports[e]).binding),
        },
{
    let ghost m = parsed@;
    let mut definers: Vec<usize> = Vec::new();
    let mut e: usize = 0;
    while e < parsed.exports.len()
        invariant
            m == parsed@,
            e <= parsed.exports@.len(),
            definers@.len() == e,
            forall|x: int| 0 <= x < e ==> defines(m, #[trigger] definers@[x] as int, m.exports[x].binding),
        decreases parsed.exports@.len() - e,
    {
        proof {
            assert(m.exports[e as int] == parsed.exports@[e as int]@);
        }
        match find_definer(parsed, parsed.exports[e].binding) {
            Some(j) => {
                definers.push(j);
            },
            None => {
                return None;
            },
        }
        e += 1;
    }
    Some(definers)
}

/// Whether no two exports share a name.
fn distinct_names(parsed: &ParseResult) -> (r: bool)
    ensures
        r == forall|e: int, f: int|
            0 <= e < f < parsed@.exports.len() ==> (#[trigger] parsed@.exports[e]).name != (
            #[trigger] parsed@.exports[f]).name,
{
    let ghost m = parsed@;
    let n = parsed.exports.len();
    let mut f: usize = 0;
    while f < n
        invariant
            m == parsed@,
            n == parsed.exports@.len(),
            f <= n,
            forall|x: int, y: int|
                0 <= x < y < f ==> (#[trigger] m.exports[x]).name != (#[trigger] m.exports[y]).name,
        decreases n - f,
    {
        let mut e: usize = 0;
        while e < f
            invariant
                m == parsed@,
                n == parsed.exports@.len(),
                f < n,
                e <= f,
                forall|x: int| 0 <= x < e ==> (#[trigger] m.exports[x]).name != m.exports[f as int].name,
            decreases f - e,
        {
            proof {
                assert(m.exports[e as int] == parsed.exports@[e as int]@);
                assert(m.exports[f as int] == parsed.exports@[f as int]@);
            }
            if parsed.exports[e].name == parsed.exports[f].name {
                return false;
            }
            e += 1;
        }
        f += 1;
    }
    true
}

/// What part `p` holds, for a part that holds statements.
fn gather_part(parsed: &ParseResult, c: &Condensation, definers: &Vec<usize>, p: usize) -> (r: ParseResult)
    requires
        grouped(parsed@, *c),
        located(parsed@, definers@),
    ensures
        r@ == group_unit(parsed@, p as int),
{
    let ghost m = parsed@;
    let ghost flags = statement_flags(m, p as int);
    let n = parsed.statements.len();
    let mut statements: Vec<Statement> = Vec::new();
    let mut i: usize = 0;
    while i < n
        invariant
            m == parsed@,
            grouped(m, *c),
            flags == statement_flags(m, p as int),
            n == parsed.statements@.len(),
            i <= n,
            statement_views(statements@) == select(m.statements, flags.take(i as int)),
        decreases n - i,
    {
        proof {
            assert(flags.take(i + 1) =~= flags.take(i as int).push(flags[i as int]));
            lemma_select_push(m.statements, flags.take(i as int), flags[i as int]);
            assert(m.statements[i as int] == parsed.statements@[i as int]@);
        }
        if c.part[i] == p {
            let ghost before = statements@;
            statements.push(parsed.statements[i].clone());
            proof {
                assert(statement_views(statements@) =~= statement_views(before).push(m.statements[i as int]));
            }
        }
        i += 1;
    }
    proof {
        assert(flags.take(n as int) =~= flags);
    }
    let ghost marks = export_flags(m, p as int);
    let count = parsed.exports.len();
    let mut exports: Vec<Export> = Vec::new();
    let mut e: usize = 0;
    while e < count
        invariant
            m == parsed@,
            grouped(m, *c),
            located(m, definers@),
            marks == export_flags(m, p as int),
            count == parsed.exports@.len(),
            e <= count,
            export_views(exports@) == select(m.exports, marks.take(e as int)),
        decreases count - e,
    {
        proof {
            assert(marks.take(e + 1) =~= marks.take(e as int).push(marks[e as int]));
            lemma_select_push(m.exports, marks.take(e as int), marks[e as int]);
            assert(m.exports[e as int] == parsed.exports@[e as int]@);
            lemma_definer(m, definers@[e as int] as int, m.exports[e as int].binding);
        }
        if c.part[definers[e]] == p {
            let ghost before = exports@;
            exports.push(parsed.exports[e].clone());
            proof {
                assert(export_views(exports@) =~= export_views(before).push(m.exports[e as int]));
            }
        }
        e += 1;
    }
    proof {
        assert(marks.take(count as int) =~= marks);
    }
    ParseResult { statements, exports }
}

/// The exports part and the facade hold the same.
fn surface(parsed: &ParseResult) -> (r: ParseResult)
    ensures
        r@ == surface_unit(parsed@),
{
    let r = ParseResult { statements: Vec::new(), exports: copy_exports(&parsed.exports) };
    proof {
        assert(r@.statements =~= Seq::empty());
    }
    r
}

/// The table of parts.
fn build_parts(parsed: &ParseResult, c: &Condensation, definers: &Vec<usize>) -> (parts: Vec<ParseResult>)
    requires
        grouped(parsed@, *c),
        located(parsed@, definers@),
    ensures
        parts_view(parts@) == split_parts(parsed@),
{
    let ghost m = parsed@;
    let mut parts: Vec<ParseResult> = Vec::new();
    let mut p: usize = 0;
    while p < c.total
        invariant
            m == parsed@,
            grouped(m, *c),
            located(m, definers@),
            p <= c.total,
            parts@.len() == p,
            forall|x: int| 0 <= x < p ==> (#[trigger] parts@[x])@ == part_unit(m, x),
        decreases c.total - p,
    {
        let unit = gather_part(parsed, c, definers, p);
        parts.push(unit);
        p += 1;
    }
    parts.push(surface(parsed));
    parts.push(surface(parsed));
    proof {
        assert(parts_view(parts@) =~= split_parts(m));
    }
    parts
}

/// The positions of the set flags, as part numbers.
fn collect_ids(flags: &Vec<bool>) -> (ids: Vec<u32>)
    requires
        flags@.len() <= u32::MAX,
    ensures
        ids@ == part_ids(marked(flags@)),
{
    let n = flags.len();
    let mut ids: Vec<u32> = Vec::new();
    let mut i: usize = 0;
    while i < n
        invariant
            n == flags@.len(),
            n <= u32::MAX,
            i <= n,
            ids@ == part_ids(marked(flags@.take(i as int))),
        decreases n - i,
    {
        proof {
            assert(flags@.take(i + 1) =~= flags@.take(i as int).push(flags@[i as int]));
            lemma_marked_push(flags@.take(i as int), flags@[i as int]);
        }
        if flags[i] {
            let ghost before = marked(flags@.take(i as int));
            ids.push(i as u32);
            proof {
                assert(ids@ =~= part_ids(before.push(i as int)));
            }
        }
        i += 1;
    }
    proof {
        assert(flags@.take(n as int) =~= flags@);
    }
    ids
}

/// For each part, whether it defines an export.
fn export_sources(parsed: &ParseResult, c: &Condensation, definers: &Vec<usize>) -> (flags: Vec<bool>)
    requires
        grouped(parsed@, *c),
        located(parsed@, definers@),
        c.total + 2 <= usize::MAX,
    ensures
        flags@ == dependency_flags(parsed@, c.total as int),
{
    let ghost m = parsed@;
    let width = c.total + 2;
    let count = parsed.exports.len();
    let mut flags = cleared(width);
    let mut e: usize = 0;
    while e < count
        invariant
            m == parsed@,
            grouped(m, *c),
            located(m, definers@),
            width == c.total + 2,
            count == m.exports.len(),
            e <= count,
            flags@.len() == width,
            forall|q: int| 0 <= q < width ==> #[trigger] flags@[q] == exports_from_within(m, q, e as int),
        decreases count - e,
    {
        let source = c.part[definers[e]];
        proof {
            lemma_definer(m, definers@[e as int] as int, m.exports[e as int].binding);
            lemma_module_graph(m);
            lemma_part_index_bound(module_graph(m), definers@[e as int] as int);
            assert(source == export_part(m, e as int));
            assert forall|q: int| 0 <= q < width implies exports_from_within(m, q, e + 1) == (
            exports_from_within(m, q, e as int) || q == source) by {
                if exports_from_within(m, q, e + 1) && !exports_from_within(m, q, e as int) {
                    let x = choose|x: int| 0 <= x < e + 1 && #[trigger] export_part(m, x) == q;
                    if x < e {
                        assert(exports_from_within(m, q, e as int));
                    }
                }
                if exports_from_within(m, q, e as int) {
                    let x = choose|x: int| 0 <= x < e && #[trigger] export_part(m, x) == q;
                    assert(0 <= x < e + 1 && export_part(m, x) == q);
                }
                if q == source {
                    assert(0 <= e < e + 1 && export_part(m, e as int) == q);
                }
            }
        }
        flags.set(source, true);
        e += 1;
    }
    proof {
        assert(flags@ =~= dependency_flags(m, c.total as int));
    }
    flags
}

/// For each part, the parts that it needs.
fn build_deps(parsed: &ParseResult, g: &Digraph, c: &Condensation, definers: &Vec<usize>) -> (deps: Vec<Vec<u32>>)
    requires
        g.wf(),
        g@ == module_graph(parsed@),
        grouped(parsed@, *c),
        located(parsed@, definers@),
        parsed@.statements.len() + 3 <= u32::MAX,
    ensures
        deps_view(deps@) == split_deps(parsed@),
{
    let ghost m = parsed@;
    let n = parsed.statements.len();
    let width = c.total + 2;
    let mut deps: Vec<Vec<u32>> = Vec::new();
    let mut p: usize = 0;
    while p < c.total
        invariant
            m == parsed@,
            g.wf(),
            g@ == module_graph(m),
            grouped(m, *c),
            n == m.statements.len(),
            n + 3 <= u32::MAX,
            width == c.total + 2,
            p <= c.total,
            deps@.len() == p,
            forall|x: int| 0 <= x < p ==> (#[trigger] deps@[x])@ == part_ids(marked(dependency_flags(m, x))),
        decreases c.total - p,
    {
        let flags = part_links(g, c, p, width);
        proof {
            assert(flags@ =~= dependency_flags(m, p as int));
        }
        let row = collect_ids(&flags);
        deps.push(row);
        p += 1;
    }
    let flags = export_sources(parsed, c, definers);
    let row = collect_ids(&flags);
    deps.push(row);
    let mut flags = cleared(width);
    proof {
        lemma_module_graph(m);
        lemma_part_index_bound(module_graph(m), n as int);
    }
    flags.set(c.part[n], true);
    flags.set(c.total, true);
    proof {
        assert(flags@ =~= dependency_flags(m, c.total + 1));
    }
    let row = collect_ids(&flags);
    deps.push(row);
    proof {
        assert(deps_view(deps@) =~= split_deps(m));
    }
    deps
}

/// The entry points.
fn build_entrypoints(parsed: &ParseResult, c: &Condensation, definers: &Vec<usize>) -> (entrypoints: Vec<(Key, u32)>)
    requires
        grouped(parsed@, *c),
        located(parsed@, definers@),
        parsed@.statements.len() + 3 <= u32::MAX,
    ensures
        entrypoints_view(entrypoints@) == split_entrypoints(parsed@),
{
    let ghost m = parsed@;
    let n = parsed.statements.len();
    let count = parsed.exports.len();
    let mut entrypoints: Vec<(Key, u32)> = Vec::new();
    entrypoints.push((Key::ModuleEvaluation, c.part[n] as u32));
    entrypoints.push((Key::Exports, c.total as u32));
    let mut e: usize = 0;
    while e < count
        invariant
            m == parsed@,
            grouped(m, *c),
            located(m, definers@),
            n == m.statements.len(),
            count == parsed.exports@.len(),
            e <= count,
            entrypoints@.len() == e + 2,
            forall|i: int|
                0 <= i < e + 2 ==> ((#[trigger] entrypoints@[i]).0@, entrypoints@[i].1) == split_entrypoints(m)[i],
        decreases count - e,
    {
        proof {
            assert(m.exports[e as int] == parsed.exports@[e as int]@);
            lemma_definer(m, definers@[e as int] as int, m.exports[e as int].binding);
        }
        let name = parsed.exports[e].name.clone();
        entrypoints.push((Key::Export(name), c.part[definers[e]] as u32));
        e += 1;
    }
    proof {
        assert(entrypoints_view(entrypoints@) =~= split_entrypoints(m));
    }
    entrypoints
}

/// Splits a module into parts.
///
/// The statements that depend on each other in a circle form one part, and so
/// do all statements with side effects: that is the evaluation part. The
/// parts are numbered by how many nodes of the dependency graph they reach,
/// so that each needs only parts with smaller numbers; among parts that reach
/// equally many, the one whose first statement comes first in the source has
/// the smaller number. The exports part and the facade follow. A module that
/// is not [`splittable`] is not split.
pub fn split(ident: &AssetIdent, parsed: &ParseResult) -> (r: SplitResult)
    ensures
        r@ == split_spec(ident@, parsed@),
{
    if parsed.statements.len() > (u32::MAX - 3) as usize {
        return SplitResult::Failed;
    }
    if has_dynamic(parsed) {
        return SplitResult::Failed;
    }
    let definers = match export_definers(parsed) {
        Some(definers) => definers,
        None => {
            return SplitResult::Failed;
        },
    };
    if !distinct_names(parsed) {
        return SplitResult::Failed;
    }
    let g = build_graph(parsed);
    let c = condense(&g);
    proof {
        let m = parsed@;
        lemma_module_graph(m);
        lemma_part_index_bound(module_graph(m), 0);
        assert forall|e: int| 0 <= e < m.exports.len() implies defined(m, (#[trigger] m.exports[e]).binding) by {
            lemma_definer(m, definers@[e] as int, m.exports[e].binding);
        }
        assert(splittable(m));
    }
    let parts = build_parts(parsed, &c, &definers);
    let deps = build_deps(parsed, &g, &c, &definers);
    let entrypoints = build_entrypoints(parsed, &c, &definers);
    SplitResult::Success { asset_ident: ident.clone(), deps, entrypoints, parts }
}

} // verus!
