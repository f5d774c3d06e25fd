//! The dependency graph of a module's top-level statements.

use vstd::prelude::*;
use crate::counting::{lemma_marked_exact, lemma_marked_push, marked};
use crate::graph::{has_edge, well_formed, Digraph};
use crate::parse::{ParseResult, ParseResultView};

verus! {

/// Statement `a` uses a binding that statement `b` declares.
pub open spec fn statement_needs(m: ParseResultView, a: int, b: int) -> bool {
    exists|id: u32| #[trigger] m.statements[a].uses.contains(id) && m.statements[b].declares.contains(id)
}

/// The node that stands for the evaluation of the module: it comes after the
/// nodes of the statements.
pub open spec fn anchor(m: ParseResultView) -> int {
    m.statements.len() as int
}

/// Node `a` cannot run or be understood without node `b`. A statement depends
/// on the statements that declare what it uses. The evaluation of the module
/// and every statement with a side effect depend on each other.
pub open spec fn depends(m: ParseResultView, a: int, b: int) -> bool {
    let n = anchor(m);
    if 0 <= a < n && 0 <= b < n {
        statement_needs(m, a, b)
    } else if a == n && 0 <= b < n {
        m.statements[b].side_effects
    } else if b == n && 0 <= a < n {
        m.statements[a].side_effects
    } else {
        false
    }
}

/// For each node, whether `a` depends on it.
pub open spec fn dependency_row(m: ParseResultView, a: int) -> Seq<bool> {
    Seq::new((m.statements.len() + 1) as nat, |b: int| depends(m, a, b))
}

/// The dependency graph of a module: one node for each statement, in source
/// order, and the anchor. Each node lists what it depends on, in ascending
/// order.
pub open spec fn module_graph(m: ParseResultView) -> Seq<Seq<int>> {
    Seq::new((m.statements.len() + 1) as nat, |a: int| marked(dependency_row(m, a)))
}

/// The edges of the dependency graph are the dependencies between its nodes.
pub proof fn lemma_module_graph(m: ParseResultView)
    ensures
        well_formed(module_graph(m)),
        module_graph(m).len() == m.statements.len() + 1,
        forall|a: int, b: int| #[trigger]
            has_edge(module_graph(m), a, b) <==> 0 <= a <= anchor(m) && 0 <= b <= anchor(m) && depends(m, a, b),
{
    let g = module_graph(m);
    assert forall|a: int, j: int| 0 <= a < g.len() && 0 <= j < g[a].len() implies 0 <= #[trigger] g[a][j]
        < g.len() by {
        lemma_marked_exact(dependency_row(m, a));
    }
    assert forall|a: int, b: int| #[trigger]
        has_edge(g, a, b) <==> 0 <= a <= anchor(m) && 0 <= b <= anchor(m) && depends(m, a, b) by {
        if 0 <= a <= anchor(m) && 0 <= b <= anchor(m) {
            let row = dependency_row(m, a);
            lemma_marked_exact(row);
            if g[a].contains(b) {
                let j = choose|j: int| 0 <= j < g[a].len() && g[a][j] == b;
                assert(row[marked(row)[j]]);
            }
            if depends(m, a, b) {
                assert(row[b]);
            }
        }
    }
}

/// Whether `ids` holds `id`.
pub fn contains_id(ids: &Vec<u32>, id: u32) -> (r: bool)
    ensures
        r == ids@.contains(id),
{
    let mut i: usize = 0;
    while i < ids.len()
        invariant
            i <= ids@.len(),
            forall|k: int| 0 <= k < i ==> ids@[k] != id,
        decreases ids@.len() - i,
    {
        if ids[i] == id {
            return true;
        }
        i += 1;
    }
    false
}

/// Whether some id of `uses` is among `declares`.
pub fn shares(uses: &Vec<u32>, declares: &Vec<u32>) -> (r: bool)
    ensures
        r == exists|id: u32| #[trigger] uses@.contains(id) && declares@.contains(id),
{
    let mut i: usize = 0;
    while i < uses.len()
        invariant
            i <= uses@.len(),
            forall|k: int| 0 <= k < i ==> !declares@.contains(#[trigger] uses@[k]),
        decreases uses@.len() - i,
    {
        if contains_id(declares, uses[i]) {
            proof {
                assert(uses@.contains(uses@[i as int]));
            }
            return true;
        }
        i += 1;
    }
    false
}

/// Builds the dependency graph of a module.
pub fn build_graph(parsed: &ParseResult) -> (g: Digraph)
    requires
        parsed@.statements.len() < usize::MAX,
    ensures
        g.wf(),
        g@ == module_graph(parsed@),
{
    let ghost m = parsed@;
    let n = parsed.statements.len();
    let mut g = Digraph::new(n + 1);
    let mut a: usize = 0;
    while a < n
        invariant
            m == parsed@,
            n == parsed.statements@.len(),
            n < usize::MAX,
            a <= n,
            g.wf(),
            g@.len() == n + 1,
            forall|x: int| 0 <= x < a ==> #[trigger] g@[x] == marked(dependency_row(m, x)),
            forall|x: int| a <= x <= n ==> #[trigger] g@[x] == Seq::<int>::empty(),
        decreases n - a,
    {
        let ghost row = dependency_row(m, a as int);
        let ghost outer = g@;
        let mut b: usize = 0;
        while b < n
            invariant
                m == parsed@,
                n == parsed.statements@.len(),
                n < usize::MAX,
                a < n,
                b <= n,
                row == dependency_row(m, a as int),
                g.wf(),
                g@.len() == n + 1,
                g@[a as int] == marked(row.take(b as int)),
                outer.len() == n + 1,
                forall|x: int| 0 <= x <= n && x != a ==> #[trigger] g@[x] == outer[x],
            decreases n - b,
        {
            proof {
                assert(row.take(b + 1) =~= row.take(b as int).push(row[b as int]));
                lemma_marked_push(row.take(b as int), row[b as int]);
                assert(m.statements[a as int] == parsed.statements@[a as int]@);
                assert(m.statements[b as int] == parsed.statements@[b as int]@);
            }
            let needed = shares(&parsed.statements[a].uses, &parsed.statements[b].declares);
            proof {
                assert(m.statements.len() == n);
                let us = parsed.statements@[a as int].uses@;
                let ds = parsed.statements@[b as int].declares@;
                assert(m.statements[a as int].uses == us);
                assert(m.statements[b as int].declares == ds);
                if needed {
                    let id = choose|id: u32| #[trigger] us.contains(id) && ds.contains(id);
                    assert(m.statements[a as int].uses.contains(id) && m.statements[b as int].declares.contains(id));
                }
                if statement_needs(m, a as int, b as int) {
                    let id = choose|id: u32| #[trigger]
                        m.statements[a as int].uses.contains(id) && m.statements[b as int].declares.contains(id);
                    assert(us.contains(id) && ds.contains(id));
                }
                assert(needed == statement_needs(m, a as int, b as int));
                assert(row[b as int] == depends(m, a as int, b as int));
            }
            if needed {
                g.add_edge(a, b);
            }
            b += 1;
        }
        proof {
            assert(row.take(n + 1) =~= row);
            assert(row.take(n + 1) =~= row.take(n as int).push(row[n as int]));
            lemma_marked_push(row.take(n as int), row[n as int]);
            assert(m.statements[a as int] == parsed.statements@[a as int]@);
        }
        if parsed.statements[a].side_effects {
            g.add_edge(a, n);
        }
        a += 1;
    }
    let ghost row = dependency_row(m, n as int);
    let ghost outer = g@;
    let mut b: usize = 0;
    while b < n
        invariant
            m == parsed@,
            n == parsed.statements@.len(),
            n < usize::MAX,
            b <= n,
            row == dependency_row(m, n as int),
            g.wf(),
            g@.len() == n + 1,
            g@[n as int] == marked(row.take(b as int)),
            outer.len() == n + 1,
            forall|x: int| 0 <= x < n ==> #[trigger] g@[x] == outer[x],
        decreases n - b,
    {
        proof {
            assert(row.take(b + 1) =~= row.take(b as int).push(row[b as int]));
            lemma_marked_push(row.take(b as int), row[b as int]);
            assert(m.statements[b as int] == parsed.statements@[b as int]@);
        }
        if parsed.statements[b].side_effects {
            g.add_edge(n, b);
        }
        b += 1;
    }
    proof {
        assert(row.take(n + 1) =~= row);
        assert(row.take(n + 1) =~= row.take(n as int).push(row[n as int]));
        lemma_marked_push(row.take(n as int), row[n as int]);
        assert(g@ =~= module_graph(m));
    }
    g
}

} // verus!
