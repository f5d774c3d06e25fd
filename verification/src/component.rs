//! Strongly connected nodes of a directed graph, grouped and numbered so that
//! every edge between two groups leads to the group with the smaller number.

use vstd::prelude::*;
use crate::counting::{cleared, count, lemma_count_bound, lemma_count_push, lemma_count_strict};
use crate::graph::{
    has_edge, lemma_edge_reaches, lemma_reaches_nodes, lemma_reaches_self, lemma_reaches_trans, reaches,
    well_formed, Digraph,
};

verus! {

/// `a` and `b` reach each other.
pub open spec fn tangled(g: Seq<Seq<int>>, a: int, b: int) -> bool {
    reaches(g, a, b) && reaches(g, b, a)
}

/// `b` is the first node that is tangled with `a`.
pub open spec fn is_least_tangled(g: Seq<Seq<int>>, a: int, b: int) -> bool {
    &&& tangled(g, a, b)
    &&& forall|c: int| 0 <= c < b ==> !tangled(g, a, c)
}

/// The first node of the group of `a`.
pub open spec fn leader(g: Seq<Seq<int>>, a: int) -> int {
    choose|b: int| is_least_tangled(g, a, b)
}

/// `a` is the first node of its group.
pub open spec fn is_leader(g: Seq<Seq<int>>, a: int) -> bool {
    0 <= a < g.len() && leader(g, a) == a
}

/// For each node, whether `a` reaches it.
pub open spec fn reach_row(g: Seq<Seq<int>>, a: int) -> Seq<bool> {
    Seq::new(g.len(), |b: int| reaches(g, a, b))
}

/// The number of nodes that `a` reaches.
pub open spec fn weight(g: Seq<Seq<int>>, a: int) -> nat {
    count(reach_row(g, a))
}

/// The order in which groups are numbered: by the weight of the leader, and
/// among equal weights by the leader's own position.
pub open spec fn precedes(g: Seq<Seq<int>>, a: int, b: int) -> bool {
    weight(g, a) < weight(g, b) || (weight(g, a) == weight(g, b) && a < b)
}

/// For each node, whether it is a leader that precedes `a`.
pub open spec fn earlier_leaders(g: Seq<Seq<int>>, a: int) -> Seq<bool> {
    Seq::new(g.len(), |c: int| is_leader(g, c) && precedes(g, c, a))
}

/// The number of leaders that precede `a`.
pub open spec fn rank(g: Seq<Seq<int>>, a: int) -> nat {
    count(earlier_leaders(g, a))
}

/// For each node, whether it is a leader.
pub open spec fn leaders(g: Seq<Seq<int>>) -> Seq<bool> {
    Seq::new(g.len(), |c: int| is_leader(g, c))
}

/// The number of groups.
pub open spec fn part_total(g: Seq<Seq<int>>) -> nat {
    count(leaders(g))
}

/// The number of the group of `a`.
pub open spec fn part_index(g: Seq<Seq<int>>, a: int) -> nat {
    rank(g, leader(g, a))
}

/// Being tangled is transitive.
pub proof fn lemma_tangled_trans(g: Seq<Seq<int>>, a: int, b: int, c: int)
    requires
        tangled(g, a, b),
        tangled(g, b, c),
    ensures
        tangled(g, a, c),
{
    lemma_reaches_trans(g, a, b, c);
    lemma_reaches_trans(g, c, b, a);
}

proof fn lemma_least_exists(g: Seq<Seq<int>>, a: int, from: int) -> (b: int)
    requires
        0 <= a < g.len(),
        0 <= from <= a,
        forall|c: int| 0 <= c < from ==> !tangled(g, a, c),
    ensures
        is_least_tangled(g, a, b),
        0 <= b <= a,
    decreases a - from,
{
    lemma_reaches_self(g, a);
    if tangled(g, a, from) {
        from
    } else {
        lemma_least_exists(g, a, from + 1)
    }
}

/// The leader of a node is the first node tangled with it, and no later than
/// the node itself.
pub proof fn lemma_leader(g: Seq<Seq<int>>, a: int)
    requires
        0 <= a < g.len(),
    ensures
        is_least_tangled(g, a, leader(g, a)),
        0 <= leader(g, a) <= a,
{
    let b = lemma_least_exists(g, a, 0);
    let l = leader(g, a);
    lemma_reaches_self(g, a);
    lemma_reaches_nodes(g, a, l);
    if l > a {
        assert(tangled(g, a, a));
    }
}

/// The first node tangled with `a` is its leader.
pub proof fn lemma_leader_unique(g: Seq<Seq<int>>, a: int, b: int)
    requires
        is_least_tangled(g, a, b),
    ensures
        leader(g, a) == b,
{
    lemma_reaches_nodes(g, a, b);
    lemma_leader(g, a);
    let l = leader(g, a);
    if l < b {
        assert(!tangled(g, a, l));
    } else if b < l {
        assert(!tangled(g, a, b));
    }
}

/// Tangled nodes have the same leader.
pub proof fn lemma_leader_shared(g: Seq<Seq<int>>, a: int, b: int)
    requires
        tangled(g, a, b),
    ensures
        leader(g, a) == leader(g, b),
{
    lemma_reaches_nodes(g, a, b);
    lemma_leader(g, a);
    let l = leader(g, a);
    lemma_tangled_trans(g, b, a, l);
    assert forall|c: int| 0 <= c < l implies !tangled(g, b, c) by {
        if tangled(g, b, c) {
            lemma_tangled_trans(g, a, b, c);
        }
    }
    lemma_leader_unique(g, b, l);
}

/// The leader of a node is a leader.
pub proof fn lemma_leader_leads(g: Seq<Seq<int>>, a: int)
    requires
        0 <= a < g.len(),
    ensures
        is_leader(g, leader(g, a)),
        tangled(g, a, leader(g, a)),
{
    lemma_leader(g, a);
    lemma_leader_shared(g, a, leader(g, a));
}

/// Tangled nodes have the same weight.
pub proof fn lemma_weight_shared(g: Seq<Seq<int>>, a: int, b: int)
    requires
        tangled(g, a, b),
    ensures
        weight(g, a) == weight(g, b),
{
    assert forall|x: int| 0 <= x < g.len() implies reaches(g, a, x) == reaches(g, b, x) by {
        if reaches(g, a, x) {
            lemma_reaches_trans(g, b, a, x);
        }
        if reaches(g, b, x) {
            lemma_reaches_trans(g, a, b, x);
        }
    }
    assert(reach_row(g, a) =~= reach_row(g, b));
}

/// A node weighs more than a node that it reaches and that does not reach it
/// back.
pub proof fn lemma_weight_strict(g: Seq<Seq<int>>, a: int, b: int)
    requires
        reaches(g, a, b),
        !reaches(g, b, a),
    ensures
        weight(g, b) < weight(g, a),
{
    lemma_reaches_nodes(g, a, b);
    lemma_reaches_self(g, a);
    let low = reach_row(g, b);
    let high = reach_row(g, a);
    assert forall|i: int| 0 <= i < low.len() && #[trigger] low[i] implies high[i] by {
        lemma_reaches_trans(g, a, b, i);
    }
    lemma_count_strict(low, high, a);
}

/// A leader that precedes another has the smaller rank.
pub proof fn lemma_rank_monotone(g: Seq<Seq<int>>, x: int, y: int)
    requires
        is_leader(g, x),
        precedes(g, x, y),
    ensures
        rank(g, x) < rank(g, y),
{
    let low = earlier_leaders(g, x);
    let high = earlier_leaders(g, y);
    assert forall|i: int| 0 <= i < low.len() && #[trigger] low[i] implies high[i] by {
    }
    lemma_count_strict(low, high, x);
}

/// The rank of a leader is below the number of groups.
pub proof fn lemma_rank_bound(g: Seq<Seq<int>>, x: int)
    requires
        is_leader(g, x),
    ensures
        rank(g, x) < part_total(g),
        part_total(g) <= g.len(),
{
    lemma_count_strict(earlier_leaders(g, x), leaders(g), x);
    lemma_count_bound(leaders(g));
}

/// Every node lies in a group whose number is below the number of groups.
pub proof fn lemma_part_index_bound(g: Seq<Seq<int>>, a: int)
    requires
        0 <= a < g.len(),
    ensures
        part_index(g, a) < part_total(g),
        part_total(g) <= g.len(),
{
    lemma_leader_leads(g, a);
    lemma_rank_bound(g, leader(g, a));
}

/// Two nodes lie in the same group exactly if they are tangled.
pub proof fn lemma_part_index_same(g: Seq<Seq<int>>, a: int, b: int)
    requires
        0 <= a < g.len(),
        0 <= b < g.len(),
    ensures
        part_index(g, a) == part_index(g, b) <==> tangled(g, a, b),
{
    lemma_leader_leads(g, a);
    lemma_leader_leads(g, b);
    let x = leader(g, a);
    let y = leader(g, b);
    if tangled(g, a, b) {
        lemma_leader_shared(g, a, b);
    } else if x == y {
        lemma_tangled_trans(g, a, x, b);
    } else if precedes(g, x, y) {
        lemma_rank_monotone(g, x, y);
    } else {
        lemma_rank_monotone(g, y, x);
    }
}

/// Where `a` reaches `b`, the group of `b` has no greater number than the
/// group of `a`.
pub proof fn lemma_reached_part_not_later(g: Seq<Seq<int>>, a: int, b: int)
    requires
        reaches(g, a, b),
    ensures
        part_index(g, b) <= part_index(g, a),
{
    lemma_reaches_nodes(g, a, b);
    lemma_leader_leads(g, a);
    lemma_leader_leads(g, b);
    let x = leader(g, a);
    let y = leader(g, b);
    if reaches(g, b, a) {
        lemma_leader_shared(g, a, b);
    } else {
        lemma_weight_strict(g, a, b);
        lemma_weight_shared(g, a, x);
        lemma_weight_shared(g, b, y);
        lemma_rank_monotone(g, y, x);
    }
}

/// `reach` holds, for every pair of nodes, whether the first reaches the
/// second.
pub open spec fn is_closure(g: Seq<Seq<int>>, reach: Seq<Vec<bool>>) -> bool {
    &&& reach.len() == g.len()
    &&& forall|a: int| 0 <= a < g.len() ==> (#[trigger] reach[a])@ == reach_row(g, a)
}

/// For every pair of nodes, whether the first reaches the second.
pub fn closure(g: &Digraph) -> (reach: Vec<Vec<bool>>)
    requires
        g.wf(),
    ensures
        is_closure(g@, reach@),
{
    let n = g.len();
    let mut reach: Vec<Vec<bool>> = Vec::new();
    let mut a: usize = 0;
    while a < n
        invariant
            g.wf(),
            n == g@.len(),
            a <= n,
            reach@.len() == a,
            forall|x: int| 0 <= x < a ==> (#[trigger] reach@[x])@ == reach_row(g@, x),
        decreases n - a,
    {
        let row = g.reach_from(a);
        proof {
            assert(row@ =~= reach_row(g@, a as int));
        }
        reach.push(row);
        a += 1;
    }
    reach
}

/// The leader of every node.
fn find_leaders(Ghost(g): Ghost<Seq<Seq<int>>>, reach: &Vec<Vec<bool>>) -> (lead: Vec<usize>)
    requires
        is_closure(g, reach@),
    ensures
        lead@.len() == g.len(),
        forall|a: int| 0 <= a < g.len() ==> #[trigger] lead@[a] == leader(g, a),
{
    let n = reach.len();
    let mut lead: Vec<usize> = Vec::new();
    let mut a: usize = 0;
    while a < n
        invariant
            is_closure(g, reach@),
            n == g.len(),
            a <= n,
            lead@.len() == a,
            forall|x: int| 0 <= x < a ==> #[trigger] lead@[x] == leader(g, x),
        decreases n - a,
    {
        let mut b: usize = 0;
        proof {
            lemma_reaches_self(g, a as int);
        }
        while !(reach[a][b] && reach[b][a])
            invariant
                is_closure(g, reach@),
                n == g.len(),
                a < n,
                b <= a,
                tangled(g, a as int, a as int),
                forall|c: int| 0 <= c < b ==> !tangled(g, a as int, c),
            decreases a - b,
        {
            proof {
                assert(reach@[a as int]@[b as int] == reaches(g, a as int, b as int));
                assert(reach@[b as int]@[a as int] == reaches(g, b as int, a as int));
            }
            b += 1;
        }
        proof {
            assert(reach@[a as int]@[b as int] == reaches(g, a as int, b as int));
            assert(reach@[b as int]@[a as int] == reaches(g, b as int, a as int));
            lemma_leader_unique(g, a as int, b as int);
        }
        lead.push(b);
        a += 1;
    }
    lead
}

/// The number of flags that are set.
pub fn count_set(flags: &Vec<bool>) -> (c: usize)
    ensures
        c == count(flags@),
{
    let n = flags.len();
    let mut c: usize = 0;
    let mut i: usize = 0;
    while i < n
        invariant
            n == flags@.len(),
            i <= n,
            c <= i,
            c == count(flags@.take(i as int)),
        decreases n - i,
    {
        proof {
            assert(flags@.take(i + 1) =~= flags@.take(i as int).push(flags@[i as int]));
            lemma_count_push(flags@.take(i as int), flags@[i as int]);
        }
        if flags[i] {
            c += 1;
        }
        i += 1;
    }
    proof {
        assert(flags@.take(n as int) =~= flags@);
    }
    c
}

/// The weight of every node.
fn weigh(Ghost(g): Ghost<Seq<Seq<int>>>, reach: &Vec<Vec<bool>>) -> (weights: Vec<usize>)
    requires
        is_closure(g, reach@),
    ensures
        weights@.len() == g.len(),
        forall|a: int| 0 <= a < g.len() ==> #[trigger] weights@[a] == weight(g, a),
{
    let n = reach.len();
    let mut weights: Vec<usize> = Vec::new();
    let mut a: usize = 0;
    while a < n
        invariant
            is_closure(g, reach@),
            n == g.len(),
            a <= n,
            weights@.len() == a,
            forall|x: int| 0 <= x < a ==> #[trigger] weights@[x] == weight(g, x),
        decreases n - a,
    {
        let w = count_set(&reach[a]);
        weights.push(w);
        a += 1;
    }
    weights
}

/// The rank of the node `a`.
fn rank_of(
    Ghost(g): Ghost<Seq<Seq<int>>>,
    lead: &Vec<usize>,
    weights: &Vec<usize>,
    a: usize,
) -> (r: usize)
    requires
        lead@.len() == g.len(),
        weights@.len() == g.len(),
        a < g.len(),
        forall|x: int| 0 <= x < g.len() ==> #[trigger] lead@[x] == leader(g, x),
        forall|x: int| 0 <= x < g.len() ==> #[trigger] weights@[x] == weight(g, x),
    ensures
        r == rank(g, a as int),
{
    let n = lead.len();
    let ghost flags = earlier_leaders(g, a as int);
    let mut r: usize = 0;
    let mut c: usize = 0;
    while c < n
        invariant
            n == g.len(),
            lead@.len() == n,
            weights@.len() == n,
            a < n,
            flags == earlier_leaders(g, a as int),
            forall|x: int| 0 <= x < g.len() ==> #[trigger] lead@[x] == leader(g, x),
            forall|x: int| 0 <= x < g.len() ==> #[trigger] weights@[x] == weight(g, x),
            c <= n,
            r <= c,
            r == count(flags.take(c as int)),
        decreases n - c,
    {
        proof {
            assert(flags.take(c + 1) =~= flags.take(c as int).push(flags[c as int]));
            lemma_count_push(flags.take(c as int), flags[c as int]);
        }
        if lead[c] == c && (weights[c] < weights[a] || (weights[c] == weights[a] && c < a)) {
            r += 1;
        }
        c += 1;
    }
    proof {
        assert(flags.take(n as int) =~= flags);
    }
    r
}

/// The groups of a graph: for every node the number of its group, and the
/// number of groups.
pub struct Condensation {
    pub part: Vec<usize>,
    pub total: usize,
}

/// Groups the nodes of `g` that reach each other and numbers the groups.
pub fn condense(g: &Digraph) -> (c: Condensation)
    requires
        g.wf(),
    ensures
        c.part@.len() == g@.len(),
        c.total == part_total(g@),
        forall|a: int| 0 <= a < g@.len() ==> #[trigger] c.part@[a] == part_index(g@, a),
{
    let n = g.len();
    let reach = closure(g);
    let lead = find_leaders(Ghost(g@), &reach);
    let weights = weigh(Ghost(g@), &reach);
    let mut part: Vec<usize> = Vec::new();
    let mut total: usize = 0;
    let ghost flags = leaders(g@);
    let mut a: usize = 0;
    while a < n
        invariant
            n == g@.len(),
            lead@.len() == n,
            weights@.len() == n,
            flags == leaders(g@),
            forall|x: int| 0 <= x < n ==> #[trigger] lead@[x] == leader(g@, x),
            forall|x: int| 0 <= x < n ==> #[trigger] weights@[x] == weight(g@, x),
            a <= n,
            part@.len() == a,
            forall|x: int| 0 <= x < a ==> #[trigger] part@[x] == part_index(g@, x),
            total <= a,
            total == count(flags.take(a as int)),
        decreases n - a,
    {
        proof {
            assert(flags.take(a + 1) =~= flags.take(a as int).push(flags[a as int]));
            lemma_count_push(flags.take(a as int), flags[a as int]);
            lemma_leader(g@, a as int);
        }
        let r = rank_of(Ghost(g@), &lead, &weights, lead[a]);
        part.push(r);
        if lead[a] == a {
            total += 1;
        }
        a += 1;
    }
    proof {
        assert(flags.take(n as int) =~= flags);
    }
    Condensation { part, total }
}

/// An edge leads from `x` in group `p` to `y` in group `q`.
pub open spec fn edge_between(g: Seq<Seq<int>>, p: int, q: int, x: int, y: int) -> bool {
    has_edge(g, x, y) && part_index(g, x) == p && part_index(g, y) == q
}

/// Some edge leads from a node of group `p` to a node of group `q`.
pub open spec fn joins(g: Seq<Seq<int>>, p: int, q: int) -> bool {
    exists|x: int, y: int| #[trigger] edge_between(g, p, q, x, y)
}

/// Some edge from group `p` to group `q` is among those that leave a node
/// before `a`, or among the first `j` that leave `a`.
pub open spec fn joins_within(g: Seq<Seq<int>>, p: int, q: int, a: int, j: int) -> bool {
    ||| exists|x: int, y: int| #[trigger] edge_between(g, p, q, x, y) && x < a
    ||| (0 <= a < g.len() && part_index(g, a) == p && exists|i: int|
        0 <= i < j && i < g[a].len() && part_index(g, #[trigger] g[a][i]) == q)
}

proof fn lemma_joins_within_step(g: Seq<Seq<int>>, p: int, q: int, a: int, j: int)
    requires
        well_formed(g),
        0 <= a < g.len(),
        part_index(g, a) == p,
        0 <= j < g[a].len(),
    ensures
        joins_within(g, p, q, a, j + 1) == (joins_within(g, p, q, a, j) || part_index(g, g[a][j]) == q),
{
    if joins_within(g, p, q, a, j + 1) && !joins_within(g, p, q, a, j) {
        let i = choose|i: int| 0 <= i < j + 1 && i < g[a].len() && part_index(g, #[trigger] g[a][i]) == q;
        if i < j {
            assert(joins_within(g, p, q, a, j));
        }
    }
    if part_index(g, g[a][j]) == q {
        assert(0 <= j < j + 1 && j < g[a].len() && part_index(g, g[a][j]) == q);
    }
    if joins_within(g, p, q, a, j) {
        if exists|i: int| 0 <= i < j && i < g[a].len() && part_index(g, #[trigger] g[a][i]) == q {
            let i = choose|i: int| 0 <= i < j && i < g[a].len() && part_index(g, #[trigger] g[a][i]) == q;
            assert(0 <= i < j + 1 && i < g[a].len() && part_index(g, g[a][i]) == q);
        }
    }
}

proof fn lemma_joins_within_next(g: Seq<Seq<int>>, p: int, q: int, a: int, j: int)
    requires
        well_formed(g),
        0 <= a < g.len(),
        part_index(g, a) == p ==> j == g[a].len(),
    ensures
        joins_within(g, p, q, a + 1, 0) == joins_within(g, p, q, a, j),
{
    if joins_within(g, p, q, a + 1, 0) {
        let (x, y) = choose|x: int, y: int| #[trigger] edge_between(g, p, q, x, y) && x < a + 1;
        if x == a {
            let i = choose|i: int| 0 <= i < g[a].len() && g[a][i] == y;
            assert(0 <= i < j && i < g[a].len() && part_index(g, g[a][i]) == q);
        }
    }
    if joins_within(g, p, q, a, j) {
        if exists|x: int, y: int| #[trigger] edge_between(g, p, q, x, y) && x < a {
            let (x, y) = choose|x: int, y: int| #[trigger] edge_between(g, p, q, x, y) && x < a;
            assert(edge_between(g, p, q, x, y) && x < a + 1);
        } else {
            let i = choose|i: int| 0 <= i < j && i < g[a].len() && part_index(g, #[trigger] g[a][i]) == q;
            assert(g[a].contains(g[a][i]));
            assert(edge_between(g, p, q, a, g[a][i]) && a < a + 1);
        }
    }
}

proof fn lemma_joins_within_all(g: Seq<Seq<int>>, p: int, q: int)
    ensures
        joins_within(g, p, q, g.len() as int, 0) == joins(g, p, q),
{
    if joins(g, p, q) {
        let (x, y) = choose|x: int, y: int| #[trigger] edge_between(g, p, q, x, y);
        assert(edge_between(g, p, q, x, y) && x < g.len());
    }
}

/// For each of the first `width` group numbers, whether it is another group
/// than `p` and some edge leads to it from group `p`.
pub fn part_links(g: &Digraph, c: &Condensation, p: usize, width: usize) -> (flags: Vec<bool>)
    requires
        g.wf(),
        c.part@.len() == g@.len(),
        forall|a: int| 0 <= a < g@.len() ==> #[trigger] c.part@[a] == part_index(g@, a),
        part_total(g@) <= width,
    ensures
        flags@.len() == width,
        forall|q: int| 0 <= q < width ==> #[trigger] flags@[q] == (q != p && joins(g@, p as int, q)),
{
    let n = g.len();
    let mut flags = cleared(width);
    let mut a: usize = 0;
    while a < n
        invariant
            g.wf(),
            n == g@.len(),
            c.part@.len() == n,
            forall|x: int| 0 <= x < n ==> #[trigger] c.part@[x] == part_index(g@, x),
            part_total(g@) <= width,
            a <= n,
            flags@.len() == width,
            forall|q: int| 0 <= q < width ==> #[trigger] flags@[q] == (q != p && joins_within(g@, p as int, q, a as int, 0)),
        decreases n - a,
    {
        let mut j: usize = 0;
        if c.part[a] == p {
            let degree = g.degree(a);
            while j < degree
                invariant
                    g.wf(),
                    n == g@.len(),
                    c.part@.len() == n,
                    forall|x: int| 0 <= x < n ==> #[trigger] c.part@[x] == part_index(g@, x),
                    part_total(g@) <= width,
                    a < n,
                    c.part@[a as int] == p,
                    degree == g@[a as int].len(),
                    j <= degree,
                    flags@.len() == width,
                    forall|q: int| 0 <= q < width ==> #[trigger] flags@[q] == (q != p && joins_within(g@, p as int, q, a as int, j as int)),
                decreases degree - j,
            {
                let b = g.target(a, j);
                let q0 = c.part[b];
                proof {
                    lemma_part_index_bound(g@, b as int);
                    assert forall|q: int| 0 <= q < width implies joins_within(g@, p as int, q, a as int, j + 1)
                        == (joins_within(g@, p as int, q, a as int, j as int) || q == q0) by {
                        lemma_joins_within_step(g@, p as int, q, a as int, j as int);
                    }
                }
                if q0 != p {
                    flags.set(q0, true);
                }
                j += 1;
            }
        }
        proof {
            assert forall|q: int| 0 <= q < width implies joins_within(g@, p as int, q, a + 1, 0)
                == joins_within(g@, p as int, q, a as int, j as int) by {
                lemma_joins_within_next(g@, p as int, q, a as int, j as int);
            }
        }
        a += 1;
    }
    proof {
        assert forall|q: int| 0 <= q < width implies #[trigger] flags@[q] == (q != p && joins(g@, p as int, q)) by {
            lemma_joins_within_all(g@, p as int, q);
        }
    }
    flags
}

/// An edge between two groups leads to the group with the smaller number.
pub proof fn lemma_joined_part_earlier(g: Seq<Seq<int>>, p: int, q: int)
    requires
        p != q,
        joins(g, p, q),
    ensures
        0 <= q < p < part_total(g),
{
    let (x, y) = choose|x: int, y: int| #[trigger] edge_between(g, p, q, x, y);
    lemma_edge_reaches(g, x, y);
    lemma_reached_part_not_later(g, x, y);
    lemma_part_index_bound(g, x);
}

} // verus!
