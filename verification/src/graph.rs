//! Directed graphs over adjacency lists, and reachability in them.

use vstd::prelude::*;
use crate::counting::{cleared, count, lemma_count_bound, lemma_count_set};

verus! {

/// The nodes of `g` are `0 .. g.len()`; `g[a]` lists the nodes that `a` points
/// to. Every listed node must itself be a node.
pub open spec fn well_formed(g: Seq<Seq<int>>) -> bool {
    forall|a: int, j: int|
        0 <= a < g.len() && 0 <= j < g[a].len() ==> 0 <= #[trigger] g[a][j] < g.len()
}

/// There is an edge from `a` to `b`.
pub open spec fn has_edge(g: Seq<Seq<int>>, a: int, b: int) -> bool {
    0 <= a < g.len() && 0 <= b < g.len() && g[a].contains(b)
}

/// `w` is a non-empty sequence of nodes, each joined to the next by an edge.
pub open spec fn is_walk(g: Seq<Seq<int>>, w: Seq<int>) -> bool {
    &&& w.len() > 0
    &&& 0 <= w[0] < g.len()
    &&& forall|i: int| 0 <= i < w.len() - 1 ==> has_edge(g, #[trigger] w[i], w[i + 1])
}

/// Some walk leads from `a` to `b`. Every node reaches itself.
pub open spec fn reaches(g: Seq<Seq<int>>, a: int, b: int) -> bool {
    exists|w: Seq<int>| #[trigger] is_walk(g, w) && w.first() == a && w.last() == b
}

/// Only nodes reach and are reached.
pub proof fn lemma_reaches_nodes(g: Seq<Seq<int>>, a: int, b: int)
    requires
        reaches(g, a, b),
    ensures
        0 <= a < g.len(),
        0 <= b < g.len(),
{
    let w = choose|w: Seq<int>| #[trigger] is_walk(g, w) && w.first() == a && w.last() == b;
    if w.len() > 1 {
        assert(has_edge(g, w[w.len() - 2], w[w.len() - 2 + 1]));
    }
}

/// Every node reaches itself.
pub proof fn lemma_reaches_self(g: Seq<Seq<int>>, a: int)
    requires
        0 <= a < g.len(),
    ensures
        reaches(g, a, a),
{
    let w = seq![a];
    assert(is_walk(g, w) && w.first() == a && w.last() == a);
}

/// A walk can be extended by an edge.
pub proof fn lemma_reaches_extend(g: Seq<Seq<int>>, a: int, b: int, c: int)
    requires
        reaches(g, a, b),
        has_edge(g, b, c),
    ensures
        reaches(g, a, c),
{
    let w = choose|w: Seq<int>| #[trigger] is_walk(g, w) && w.first() == a && w.last() == b;
    let x = w.push(c);
    assert forall|i: int| 0 <= i < x.len() - 1 implies has_edge(g, #[trigger] x[i], x[i + 1]) by {
        if i < w.len() - 1 {
            assert(has_edge(g, w[i], w[i + 1]));
        }
    }
    assert(is_walk(g, x) && x.first() == a && x.last() == c);
}

/// An edge is a walk.
pub proof fn lemma_edge_reaches(g: Seq<Seq<int>>, a: int, b: int)
    requires
        has_edge(g, a, b),
    ensures
        reaches(g, a, b),
{
    lemma_reaches_self(g, a);
    lemma_reaches_extend(g, a, a, b);
}

/// Reachability is transitive.
pub proof fn lemma_reaches_trans(g: Seq<Seq<int>>, a: int, b: int, c: int)
    requires
        reaches(g, a, b),
        reaches(g, b, c),
    ensures
        reaches(g, a, c),
{
    let u = choose|w: Seq<int>| #[trigger] is_walk(g, w) && w.first() == a && w.last() == b;
    let v = choose|w: Seq<int>| #[trigger] is_walk(g, w) && w.first() == b && w.last() == c;
    let x = u + v.subrange(1, v.len() as int);
    assert forall|i: int| 0 <= i < x.len() - 1 implies has_edge(g, #[trigger] x[i], x[i + 1]) by {
        if i < u.len() - 1 {
            assert(has_edge(g, u[i], u[i + 1]));
        } else {
            let k = i - u.len() + 1;
            assert(has_edge(g, v[k], v[k + 1]));
        }
    }
    assert(is_walk(g, x) && x.first() == a && x.last() == c);
}

/// Every position of a walk that starts inside a set closed under edges lies
/// inside that set.
proof fn lemma_walk_stays_inside(g: Seq<Seq<int>>, inside: Seq<bool>, w: Seq<int>, i: int)
    requires
        inside.len() == g.len(),
        is_walk(g, w),
        inside[w[0]],
        forall|x: int, y: int| 0 <= x < g.len() && inside[x] && #[trigger] has_edge(g, x, y) ==> inside[y],
        0 <= i < w.len(),
    ensures
        0 <= w[i] < g.len(),
        inside[w[i]],
    decreases i,
{
    if i > 0 {
        lemma_walk_stays_inside(g, inside, w, i - 1);
        assert(has_edge(g, w[i - 1], w[i - 1 + 1]));
    }
}

/// A set of nodes that is closed under edges holds everything that its
/// members reach.
pub proof fn lemma_closed_set_holds_reached(g: Seq<Seq<int>>, inside: Seq<bool>, a: int, b: int)
    requires
        inside.len() == g.len(),
        0 <= a < g.len(),
        inside[a],
        forall|x: int, y: int| 0 <= x < g.len() && inside[x] && #[trigger] has_edge(g, x, y) ==> inside[y],
        reaches(g, a, b),
    ensures
        0 <= b < g.len(),
        inside[b],
{
    let w = choose|w: Seq<int>| #[trigger] is_walk(g, w) && w.first() == a && w.last() == b;
    lemma_walk_stays_inside(g, inside, w, w.len() - 1);
}

/// `v` is one of the nodes waiting on the stack.
spec fn waiting(stack: Seq<usize>, v: int) -> bool {
    exists|i: int| 0 <= i < stack.len() && #[trigger] stack[i] as int == v
}

/// A directed graph with a fixed number of nodes, numbered from zero.
pub struct Digraph {
    succ: Vec<Vec<usize>>,
}

impl View for Digraph {
    type V = Seq<Seq<int>>;

    closed spec fn view(&self) -> Seq<Seq<int>> {
        Seq::new(
            self.succ@.len(),
            |a: int| Seq::new(self.succ@[a]@.len(), |j: int| self.succ@[a]@[j] as int),
        )
    }
}

impl Digraph {
    /// Every edge ends in a node of the graph.
    pub open spec fn wf(&self) -> bool {
        well_formed(self@)
    }

    /// A graph of `n` nodes without edges.
    pub fn new(n: usize) -> (g: Digraph)
        ensures
            g.wf(),
            g@.len() == n,
            forall|a: int| 0 <= a < n ==> #[trigger] g@[a] == Seq::<int>::empty(),
    {
        let mut succ: Vec<Vec<usize>> = Vec::new();
        let mut i: usize = 0;
        while i < n
            invariant
                i <= n,
                succ@.len() == i,
                forall|a: int| 0 <= a < i ==> (#[trigger] succ@[a])@.len() == 0,
            decreases n - i,
        {
            succ.push(Vec::new());
            i += 1;
        }
        let g = Digraph { succ };
        proof {
            assert forall|a: int| 0 <= a < n implies #[trigger] g@[a] == Seq::<int>::empty() by {
                assert(g@[a] =~= Seq::<int>::empty());
            }
        }
        g
    }

    /// The number of nodes.
    pub fn len(&self) -> (n: usize)
        ensures
            n == self@.len(),
    {
        self.succ.len()
    }

    /// Appends `to` to the successors of `from`.
    pub fn add_edge(&mut self, from: usize, to: usize)
        requires
            old(self).wf(),
            from < old(self)@.len(),
            to < old(self)@.len(),
        ensures
            final(self).wf(),
            final(self)@ == old(self)@.update(from as int, old(self)@[from as int].push(to as int)),
    {
        let ghost before = self@;
        let ghost old_succ = self.succ@;
        self.succ[from].push(to);
        proof {
            let after = self@;
            let expected = before.update(from as int, before[from as int].push(to as int));
            assert(after.len() == expected.len());
            assert forall|a: int| 0 <= a < after.len() implies after[a] =~= expected[a] by {
                if a == from {
                } else {
                    assert(self.succ@[a] == old_succ[a]);
                }
            }
            assert(after =~= expected);
            assert forall|a: int, k: int|
                0 <= a < after.len() && 0 <= k < after[a].len() implies 0 <= #[trigger] after[a][k]
                < after.len() by {
                if a == from && k == before[from as int].len() {
                } else {
                    assert(after[a][k] == before[a][k]);
                }
            }
        }
    }

    /// The number of edges that leave `a`.
    pub fn degree(&self, a: usize) -> (d: usize)
        requires
            a < self@.len(),
        ensures
            d == self@[a as int].len(),
    {
        self.succ[a].len()
    }

    /// The end of the `j`-th edge that leaves `a`.
    pub fn target(&self, a: usize, j: usize) -> (b: usize)
        requires
            self.wf(),
            a < self@.len(),
            j < self@[a as int].len(),
        ensures
            b == self@[a as int][j as int],
            b < self@.len(),
    {
        proof {
            assert(0 <= self@[a as int][j as int] < self@.len());
        }
        self.succ[a][j]
    }

    /// Marks the nodes that `start` reaches.
    pub fn reach_from(&self, start: usize) -> (row: Vec<bool>)
        requires
            self.wf(),
            start < self@.len(),
        ensures
            row@.len() == self@.len(),
            forall|b: int| 0 <= b < self@.len() ==> #[trigger] row@[b] == reaches(self@, start as int, b),
    {
        let n = self.succ.len();
        let ghost g = self@;
        let mut seen = cleared(n);
        let mut stack: Vec<usize> = Vec::new();
        let ghost mut done: Set<int> = Set::empty();
        proof {
            lemma_count_bound(seen@);
            lemma_count_set(seen@, start as int);
            lemma_reaches_self(g, start as int);
        }
        seen.set(start, true);
        stack.push(start);
        proof {
            assert(stack@[0] as int == start as int);
            lemma_count_bound(seen@);
        }
        while stack.len() > 0
            invariant
                self.wf(),
                g == self@,
                n == g.len(),
                seen@.len() == n,
                start < n,
                seen@[start as int],
                count(seen@) <= n,
                forall|i: int| 0 <= i < stack@.len() ==> #[trigger] stack@[i] < n && seen@[stack@[i] as int],
                forall|v: int| 0 <= v < n && #[trigger] seen@[v] ==> reaches(g, start as int, v),
                forall|v: int| 0 <= v < n && #[trigger] seen@[v] ==> done.contains(v) || waiting(stack@, v),
                forall|v: int, w: int| done.contains(v) && #[trigger] has_edge(g, v, w) ==> seen@[w],
            decreases 2 * (n - count(seen@)) + stack@.len(),
        {
            let ghost stack_before = stack@;
            let u = stack.pop().unwrap();
            let ghost base = 2 * (n - count(seen@)) + stack@.len();
            proof {
                assert forall|v: int| 0 <= v < n && #[trigger] seen@[v] implies done.contains(v)
                    || waiting(stack@, v) || v == u by {
                    if !done.contains(v) {
                        let i = choose|i: int| 0 <= i < stack_before.len() && #[trigger] stack_before[i] as int == v;
                        if i < stack@.len() {
                            assert(stack@[i] as int == v);
                        }
                    }
                }
            }
            let degree = self.succ[u].len();
            let mut j: usize = 0;
            while j < degree
                invariant
                    self.wf(),
                    g == self@,
                    n == g.len(),
                    seen@.len() == n,
                    start < n,
                    u < n,
                    seen@[start as int],
                    count(seen@) <= n,
                    degree == g[u as int].len(),
                    j <= degree,
                    2 * (n - count(seen@)) + stack@.len() <= base,
                    forall|i: int| 0 <= i < stack@.len() ==> #[trigger] stack@[i] < n && seen@[stack@[i] as int],
                    forall|v: int| 0 <= v < n && #[trigger] seen@[v] ==> reaches(g, start as int, v),
                    reaches(g, start as int, u as int),
                    forall|v: int| 0 <= v < n && #[trigger] seen@[v] ==> done.contains(v) || waiting(stack@, v) || v == u,
                    forall|v: int, w: int| done.contains(v) && #[trigger] has_edge(g, v, w) ==> seen@[w],
                    forall|k: int| 0 <= k < j ==> seen@[#[trigger] g[u as int][k]],
                decreases degree - j,
            {
                let w = self.succ[u][j];
                proof {
                    assert(g[u as int][j as int] == w as int);
                    assert(0 <= g[u as int][j as int] < g.len());
                }
                if !seen[w] {
                    let ghost seen_before = seen@;
                    let ghost stack_mid = stack@;
                    proof {
                        lemma_count_set(seen@, w as int);
                        assert(has_edge(g, u as int, w as int));
                        lemma_reaches_extend(g, start as int, u as int, w as int);
                    }
                    seen.set(w, true);
                    stack.push(w);
                    proof {
                        lemma_count_bound(seen@);
                        assert forall|v: int| 0 <= v < n && #[trigger] seen@[v] implies done.contains(v)
                            || waiting(stack@, v) || v == u by {
                            if v == w {
                                assert(stack@[stack_mid.len() as int] as int == v);
                            } else if !done.contains(v) && v != u {
                                assert(seen_before[v]);
                                let i = choose|i: int| 0 <= i < stack_mid.len() && #[trigger] stack_mid[i] as int == v;
                                assert(stack@[i] as int == v);
                            }
                        }
                    }
                }
                j += 1;
            }
            proof {
                assert forall|v: int, w: int| done.insert(u as int).contains(v) && #[trigger] has_edge(g, v, w)
                    implies seen@[w] by {
                    if v == u && !done.contains(v) {
                        let k = choose|k: int| 0 <= k < g[u as int].len() && g[u as int][k] == w;
                        assert(seen@[g[u as int][k]]);
                    }
                }
                done = done.insert(u as int);
            }
        }
        proof {
            assert forall|b: int| 0 <= b < n implies #[trigger] seen@[b] == reaches(g, start as int, b) by {
                if reaches(g, start as int, b) {
                    assert forall|x: int, y: int| 0 <= x < n && seen@[x] && #[trigger] has_edge(g, x, y) implies seen@[y] by {
                        assert(done.contains(x) || waiting(stack@, x));
                    }
                    lemma_closed_set_holds_reached(g, seen@, start as int, b);
                }
            }
        }
        seen
    }
}

} // verus!
