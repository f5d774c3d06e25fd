use tree_shake::component::{closure, condense, count_set, part_links};
use tree_shake::counting::cleared;
use tree_shake::dependency::{build_graph, contains_id, shares};
use tree_shake::graph::Digraph;
use tree_shake::parse::{copy_exports, copy_ids, copy_statements, Export, ParseResult, Statement};
use swc_core::common::{BytePos, Span};

fn graph(n: usize, edges: &[(usize, usize)]) -> Digraph {
    let mut g = Digraph::new(n);
    for (from, to) in edges {
        g.add_edge(*from, *to);
    }
    g
}

#[test]
fn new_graph_has_no_edges() {
    let g = Digraph::new(3);
    assert_eq!(g.len(), 3);
    for a in 0..3 {
        assert_eq!(g.degree(a), 0);
    }
    assert_eq!(Digraph::new(0).len(), 0);
}

#[test]
fn edges_are_kept_in_the_order_added() {
    let g = graph(4, &[(0, 3), (0, 1), (2, 0), (0, 3)]);
    assert_eq!(g.degree(0), 3);
    assert_eq!(g.target(0, 0), 3);
    assert_eq!(g.target(0, 1), 1);
    assert_eq!(g.target(0, 2), 3);
    assert_eq!(g.degree(1), 0);
    assert_eq!(g.degree(2), 1);
    assert_eq!(g.target(2, 0), 0);
}

#[test]
fn every_node_reaches_itself() {
    let g = Digraph::new(2);
    assert_eq!(g.reach_from(0), vec![true, false]);
    assert_eq!(g.reach_from(1), vec![false, true]);
}

#[test]
fn reachability_follows_walks() {
    let g = graph(5, &[(0, 1), (1, 2), (2, 0), (2, 3)]);
    assert_eq!(g.reach_from(0), vec![true, true, true, true, false]);
    assert_eq!(g.reach_from(3), vec![false, false, false, true, false]);
    assert_eq!(g.reach_from(4), vec![false, false, false, false, true]);
    assert_eq!(
        closure(&g),
        vec![
            vec![true, true, true, true, false],
            vec![true, true, true, true, false],
            vec![true, true, true, true, false],
            vec![false, false, false, true, false],
            vec![false, false, false, false, true],
        ]
    );
}

#[test]
fn groups_are_numbered_from_the_leaves() {
    // 0 -> 1 -> 2 -> 0 is one group; it needs 3; 4 stands alone.
    let g = graph(5, &[(0, 1), (1, 2), (2, 0), (2, 3)]);
    let c = condense(&g);
    assert_eq!(c.total, 3);
    assert_eq!(c.part, vec![2, 2, 2, 0, 1]);
}

#[test]
fn equal_weights_are_numbered_in_order() {
    let c = condense(&Digraph::new(4));
    assert_eq!(c.total, 4);
    assert_eq!(c.part, vec![0, 1, 2, 3]);
}

#[test]
fn a_chain_is_numbered_from_its_end() {
    let c = condense(&graph(3, &[(0, 1), (1, 2)]));
    assert_eq!(c.part, vec![2, 1, 0]);
    assert_eq!(c.total, 3);
}

#[test]
fn links_between_groups() {
    let g = graph(5, &[(0, 1), (1, 2), (2, 0), (2, 3), (0, 4)]);
    let c = condense(&g);
    assert_eq!(c.part, vec![2, 2, 2, 0, 1]);
    assert_eq!(part_links(&g, &c, 2, 3), vec![true, true, false]);
    assert_eq!(part_links(&g, &c, 0, 3), vec![false, false, false]);
    assert_eq!(part_links(&g, &c, 1, 5), vec![false, false, false, false, false]);
}

#[test]
fn flags_are_counted() {
    assert_eq!(count_set(&vec![]), 0);
    assert_eq!(count_set(&vec![true, false, true, true]), 3);
    assert_eq!(count_set(&cleared(6)), 0);
    assert_eq!(cleared(3), vec![false, false, false]);
}

#[test]
fn shared_bindings() {
    assert!(contains_id(&vec![4, 5, 6], 6));
    assert!(!contains_id(&vec![4, 5, 6], 7));
    assert!(!contains_id(&vec![], 0));
    assert!(shares(&vec![1, 2, 3], &vec![9, 3]));
    assert!(!shares(&vec![1, 2, 3], &vec![9, 8]));
    assert!(!shares(&vec![], &vec![1]));
}

#[test]
fn graph_of_a_module() {
    let at = Span::new(BytePos(0), BytePos(1));
    let module = ParseResult {
        statements: vec![
            Statement { span: at, declares: vec![1], uses: vec![], side_effects: false, dynamic: false },
            Statement { span: at, declares: vec![2], uses: vec![1, 2], side_effects: false, dynamic: false },
            Statement { span: at, declares: vec![], uses: vec![1], side_effects: true, dynamic: false },
        ],
        exports: vec![],
    };
    let g = build_graph(&module);
    assert_eq!(g.len(), 4);
    assert_eq!(g.degree(0), 0);
    // A statement that uses what it declares depends on itself.
    assert_eq!(g.degree(1), 2);
    assert_eq!(g.target(1, 0), 0);
    assert_eq!(g.target(1, 1), 1);
    assert_eq!(g.degree(2), 2);
    assert_eq!(g.target(2, 0), 0);
    assert_eq!(g.target(2, 1), 3);
    assert_eq!(g.degree(3), 1);
    assert_eq!(g.target(3, 0), 2);
}

#[test]
fn copies_equal_their_originals() {
    let at = Span::new(BytePos(7), BytePos(9));
    let statements =
        vec![Statement { span: at, declares: vec![1, 2], uses: vec![3], side_effects: true, dynamic: true }];
    let exports = vec![Export { name: "x".to_string(), binding: 1 }];
    assert_eq!(copy_ids(&vec![3, 1, 2]), vec![3, 1, 2]);
    assert_eq!(copy_statements(&statements), statements);
    assert_eq!(copy_exports(&exports), exports);
}
