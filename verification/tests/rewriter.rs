use quizx::graph::{EType, GraphLike, VType};
use quizx::phase::Phase;
use quizx::vec_graph::Graph;
use superopt::rewrite_sets::{DecodedGraph, RewriteIos, RewriteRhs, RewriteSet, RuleSide};
use superopt::rewriter::{
    CausalRewriter, CompileError, Matching, PatternMatch, Rewriter,
};
use superopt::surgery::RewriteError;

/// A graph with 2 inputs, 2 outputs and two chains of four spiders each,
/// joined by cross edges.
fn simple_graph() -> (Graph, Vec<usize>) {
    let mut g = Graph::new();
    let vs = vec![
        g.add_vertex(VType::B),
        g.add_vertex(VType::B),
        g.add_vertex(VType::Z),
        g.add_vertex(VType::Z),
        g.add_vertex(VType::Z),
        g.add_vertex(VType::Z),
        g.add_vertex(VType::Z),
        g.add_vertex(VType::Z),
        g.add_vertex(VType::Z),
        g.add_vertex(VType::Z),
        g.add_vertex(VType::B),
        g.add_vertex(VType::B),
    ];

    g.set_inputs(vec![vs[0], vs[1]]);
    g.set_outputs(vec![vs[10], vs[11]]);

    g.add_edge_with_type(vs[0], vs[2], EType::N);
    g.add_edge_with_type(vs[1], vs[3], EType::N);

    g.add_edge_with_type(vs[2], vs[4], EType::H);
    g.add_edge_with_type(vs[3], vs[5], EType::H);
    g.add_edge_with_type(vs[2], vs[3], EType::H);

    g.add_edge_with_type(vs[4], vs[6], EType::H);
    g.add_edge_with_type(vs[5], vs[7], EType::H);

    g.add_edge_with_type(vs[6], vs[8], EType::H);
    g.add_edge_with_type(vs[7], vs[9], EType::H);
    g.add_edge_with_type(vs[6], vs[7], EType::H);

    g.add_edge_with_type(vs[8], vs[10], EType::N);
    g.add_edge_with_type(vs[9], vs[11], EType::N);

    (g, vs)
}

/// Names the vertices of `g`: boundary vertices `b0, b1, ..` and the others
/// `v0, v1, ..`, in index order.
fn named(g: Graph) -> DecodedGraph {
    let mut pairs = Vec::new();
    let (mut b, mut v) = (0, 0);
    for x in g.vertices() {
        if g.vertex_type(x) == VType::B {
            pairs.push((format!("b{b}"), x));
            b += 1;
        } else {
            pairs.push((format!("v{v}"), x));
            v += 1;
        }
    }
    DecodedGraph::new(g, pairs).unwrap()
}

/// A chain `b0 - s_1 = s_2 = .. = s_n - b1` of `n` Z spiders joined by
/// Hadamard edges, the spiders carrying the given phases.
fn chain(phases: &[(i64, i64)]) -> Graph {
    let mut g = Graph::new();
    let b0 = g.add_vertex(VType::B);
    let b1 = g.add_vertex(VType::B);
    let spiders: Vec<usize> = phases
        .iter()
        .map(|&p| g.add_vertex_with_phase(VType::Z, Phase::from(p)))
        .collect();
    g.add_edge_with_type(b0, spiders[0], EType::N);
    for w in spiders.windows(2) {
        g.add_edge_with_type(w[0], w[1], EType::H);
    }
    g.add_edge_with_type(*spiders.last().unwrap(), b1, EType::N);
    g.set_inputs(vec![b0]);
    g.set_outputs(vec![b1]);
    g
}

fn ios(inputs: &[&str], outputs: &[&str]) -> RewriteIos {
    RewriteIos::new(
        inputs.iter().map(|s| s.to_string()).collect(),
        outputs.iter().map(|s| s.to_string()).collect(),
    )
}

fn rhs(reduction: isize, g: Graph) -> RewriteRhs {
    RewriteRhs::new(reduction, named(g), vec![ios(&["b0"], &["b1"])], None, None, None)
}

/// Three rule sets on chains of spiders. The first replaces a chain of three
/// by a chain of four or by a chain of two.
fn rule_sets() -> Vec<RewriteSet> {
    let zero = (0, 1);
    let quarter = (1, 4);
    vec![
        RewriteSet::new(
            named(chain(&[zero, zero, zero])),
            vec![ios(&["b0"], &["b1"]), ios(&["b1"], &["b0"])],
            vec![rhs(-1, chain(&[quarter, zero, zero, zero])), rhs(1, chain(&[zero, quarter]))],
        ),
        RewriteSet::new(
            named(chain(&[zero, zero])),
            vec![ios(&["b0"], &["b1"])],
            vec![rhs(0, chain(&[quarter, quarter]))],
        ),
        RewriteSet::new(
            named(chain(&[zero, zero, zero, zero])),
            vec![ios(&["b0"], &["b1"])],
            vec![rhs(2, chain(&[zero, zero]))],
        ),
    ]
}

/// Compiles the rule sets, every pattern certified.
fn compiled(rules: Vec<RewriteSet>) -> CausalRewriter {
    let certified = vec![true; CausalRewriter::patterns_of(&rules).unwrap().len()];
    CausalRewriter::from_rewrite_rules(rules, &certified).unwrap()
}

fn found(pattern_id: usize, boundary: &[usize], internal: &[usize]) -> Matching {
    Matching::Found(vec![PatternMatch {
        pattern_id,
        boundary: boundary.to_vec(),
        internal: internal.to_vec(),
    }])
}

fn sorted_edges(g: &Graph) -> Vec<(usize, usize, EType)> {
    let mut es: Vec<_> = g.edges().collect();
    es.sort();
    es
}

#[test]
fn test_rewrite_set_serde() {
    let rewrite_sets = rule_sets();

    assert_eq!(rewrite_sets.len(), 3);

    for set in rewrite_sets {
        let lhs = set.lhs();
        for rhs in set.rhss() {
            assert_eq!(lhs.boundary().unwrap().len(), rhs.boundary().unwrap().len());
        }
    }
}

#[test]
fn test_match_apply() {
    let rewriter = compiled(rule_sets());
    let (g, _) = simple_graph();

    // The chain 2 = 4 = 6 and the chain 3 = 5 = 7 match the first rule set.
    let matching = Matching::Found(vec![
        PatternMatch { pattern_id: 0, boundary: vec![2, 6], internal: vec![4] },
        PatternMatch { pattern_id: 1, boundary: vec![7, 3], internal: vec![5] },
    ]);
    let rewrites = rewriter.get_rewrites(&matching).unwrap();
    assert_eq!(rewrites.len(), 4);

    for rw in rewrites {
        let r = rewriter.apply_rewrite(rw, &g).unwrap();
        assert_eq!(r.cost_delta, 0);
        assert_eq!(r.graph.inputs(), g.inputs());
        assert_eq!(r.graph.outputs(), g.outputs());
        // What lies outside both matches is as it was.
        for v in [0, 1, 8, 9, 10, 11] {
            assert_eq!(r.graph.vertex_type(v), g.vertex_type(v));
            assert_eq!(r.graph.phase(v), g.phase(v));
            let mut before: Vec<_> = g.incident_edges(v).collect();
            let mut after: Vec<_> = r.graph.incident_edges(v).collect();
            before.sort();
            after.sort();
            assert_eq!(before, after);
        }
    }
}

#[test]
fn apply_replaces_a_chain_of_three_by_a_chain_of_four() {
    let rewriter = compiled(rule_sets());
    let (g, _) = simple_graph();
    let mut rewrites = rewriter.get_rewrites(&found(0, &[2, 6], &[4])).unwrap();
    assert_eq!(rewrites.len(), 2);
    let r = rewriter.apply_rewrite(rewrites.remove(0), &g).unwrap();
    let h = r.graph;

    // Vertex 4 went and two vertices came: the first took the free index 4,
    // the second the new index 12.
    assert_eq!(h.num_vertices(), 13);
    assert_eq!(h.vertices().collect::<Vec<_>>(), (0..13).collect::<Vec<_>>());
    assert_eq!(h.vertex_type(4), VType::Z);
    assert_eq!(h.vertex_type(12), VType::Z);
    // The border took the phases of the replacement's border.
    assert_eq!(h.phase(2), Phase::from((1, 4)));
    assert_eq!(h.phase(6), Phase::from((0, 1)));
    assert_eq!(
        sorted_edges(&h),
        vec![
            (0, 2, EType::N),
            (1, 3, EType::N),
            (2, 3, EType::H),
            (2, 4, EType::H),
            (3, 5, EType::H),
            (4, 12, EType::H),
            (5, 7, EType::H),
            (6, 7, EType::H),
            (6, 8, EType::H),
            (6, 12, EType::H),
            (7, 9, EType::H),
            (8, 10, EType::N),
            (9, 11, EType::N),
        ]
    );
    // The target itself is untouched.
    assert_eq!(g, simple_graph().0);
}

#[test]
fn apply_replaces_a_chain_of_three_by_a_chain_of_two() {
    let rewriter = compiled(rule_sets());
    let (g, _) = simple_graph();
    let mut rewrites = rewriter.get_rewrites(&found(1, &[3, 7], &[5])).unwrap();
    let r = rewriter.apply_rewrite(rewrites.remove(1), &g).unwrap();
    let h = r.graph;

    assert_eq!(h.num_vertices(), 11);
    assert!(!h.contains_vertex(5));
    assert_eq!(h.phase(3), Phase::from((0, 1)));
    assert_eq!(h.phase(7), Phase::from((1, 4)));
    assert_eq!(h.edge_type_opt(3, 7), Some(EType::H));
    assert_eq!(h.edge_type_opt(3, 5), None);
    assert_eq!(h.edge_type_opt(2, 3), Some(EType::H));
    assert_eq!(h.edge_type_opt(6, 7), Some(EType::H));
    assert_eq!(h.num_edges(), 11);
}

#[test]
fn parallel_hadamard_edges_cancel() {
    // The border vertices 2 and 3 are joined already: the edge that the
    // replacement puts between them cancels the one that is there.
    let rewriter = compiled(rule_sets());
    let (g, _) = simple_graph();
    let mut rewrites = rewriter.get_rewrites(&found(0, &[2, 3], &[])).unwrap();
    let r = rewriter.apply_rewrite(rewrites.remove(1), &g).unwrap();
    assert_eq!(g.edge_type_opt(2, 3), Some(EType::H));
    assert_eq!(r.graph.edge_type_opt(2, 3), None);
    assert_eq!(r.graph.num_edges(), g.num_edges() - 1);
    assert_eq!(r.graph.phase(3), Phase::from((1, 4)));
}

#[test]
fn applying_twice_gives_the_same_diagram() {
    let rewriter = compiled(rule_sets());
    let (g, _) = simple_graph();
    let mut first = rewriter.get_rewrites(&found(0, &[2, 6], &[4])).unwrap();
    let mut second = rewriter.get_rewrites(&found(0, &[2, 6], &[4])).unwrap();
    let a = rewriter.apply_rewrite(first.remove(0), &g).unwrap();
    let b = rewriter.apply_rewrite(second.remove(0), &g).unwrap();
    assert_eq!(a.graph.vertices().collect::<Vec<_>>(), b.graph.vertices().collect::<Vec<_>>());
    assert_eq!(sorted_edges(&a.graph), sorted_edges(&b.graph));
    for v in a.graph.vertices() {
        assert_eq!(a.graph.vertex_type(v), b.graph.vertex_type(v));
        assert_eq!(a.graph.phase(v), b.graph.phase(v));
    }
    assert_eq!(a.cost_delta, b.cost_delta);
}

#[test]
fn edge_kinds_stay_in_normal_form() {
    let rewriter = compiled(rule_sets());
    let (g, _) = simple_graph();
    let rewrites = rewriter.get_rewrites(&found(0, &[2, 6], &[4])).unwrap();
    for rw in rewrites {
        let h = rewriter.apply_rewrite(rw, &g).unwrap().graph;
        for (s, t, kind) in h.edges() {
            let at_boundary = h.vertex_type(s) == VType::B || h.vertex_type(t) == VType::B;
            assert_eq!(kind, if at_boundary { EType::N } else { EType::H });
        }
    }
}

#[test]
fn no_causal_flow_is_reported() {
    let rewriter = compiled(rule_sets());
    let r = rewriter.get_rewrites(&Matching::NoCausalFlow);
    assert!(matches!(r, Err(RewriteError::NoCausalFlow)));
}

#[test]
fn a_match_of_an_unknown_pattern_is_refused() {
    let rewriter = compiled(rule_sets());
    assert_eq!(rewriter.patterns().len(), 4);
    let r = rewriter.get_rewrites(&found(4, &[2, 6], &[4]));
    assert!(matches!(r, Err(RewriteError::UnknownPattern)));
}

#[test]
fn a_match_with_the_wrong_border_is_refused() {
    let rewriter = compiled(rule_sets());
    let r = rewriter.get_rewrites(&found(0, &[2, 4, 6], &[]));
    assert!(matches!(r, Err(RewriteError::ArityMismatch)));
}

#[test]
fn no_matches_give_no_candidates() {
    let rewriter = compiled(rule_sets());
    let r = rewriter.get_rewrites(&Matching::Found(vec![])).unwrap();
    assert!(r.is_empty());
}

#[test]
fn a_match_outside_the_diagram_is_refused() {
    let rewriter = compiled(rule_sets());
    let (g, _) = simple_graph();
    for (boundary, internal) in [
        (vec![2, 6], vec![40]),
        (vec![2, 60], vec![4]),
        (vec![2, 6], vec![4, 4]),
        (vec![2, 4], vec![4]),
    ] {
        let mut rewrites = rewriter.get_rewrites(&found(0, &boundary, &internal)).unwrap();
        let r = rewriter.apply_rewrite(rewrites.remove(0), &g);
        assert!(matches!(r, Err(RewriteError::MissingVertex)));
    }
}

#[test]
fn a_parallel_edge_at_a_box_is_refused() {
    // The replacement turns its border into Hadamard boxes and joins them;
    // in the target the two border vertices are joined already.
    let mut boxes = Graph::new();
    let b0 = boxes.add_vertex(VType::B);
    let b1 = boxes.add_vertex(VType::B);
    let h0 = boxes.add_vertex(VType::H);
    let h1 = boxes.add_vertex(VType::H);
    boxes.add_edge_with_type(b0, h0, EType::N);
    boxes.add_edge_with_type(h0, h1, EType::H);
    boxes.add_edge_with_type(h1, b1, EType::N);
    boxes.set_inputs(vec![b0]);
    boxes.set_outputs(vec![b1]);
    let rules = vec![RewriteSet::new(
        named(chain(&[(0, 1), (0, 1)])),
        vec![ios(&["b0"], &["b1"])],
        vec![rhs(0, boxes)],
    )];
    let rewriter = compiled(rules);
    let (g, _) = simple_graph();
    let mut rewrites = rewriter.get_rewrites(&found(0, &[2, 3], &[])).unwrap();
    let r = rewriter.apply_rewrite(rewrites.remove(0), &g);
    assert!(matches!(r, Err(RewriteError::UnsupportedMerge)));
    // Where the two border vertices are not joined, the edge is added.
    let mut rewrites = rewriter.get_rewrites(&found(0, &[2, 5], &[])).unwrap();
    let h = rewriter.apply_rewrite(rewrites.remove(0), &g).unwrap().graph;
    assert_eq!(h.vertex_type(2), VType::H);
    assert_eq!(h.vertex_type(5), VType::H);
    assert_eq!(h.edge_type_opt(2, 5), Some(EType::H));
}

#[test]
fn patterns_are_the_left_hand_sides_under_each_assignment() {
    let rewriter = compiled(rule_sets());
    let patterns = rewriter.patterns();
    assert_eq!(patterns.len(), 4);
    // In `chain` the boundary vertices are 0 and 1 and the spiders follow.
    assert_eq!(patterns[0].graph.inputs(), &vec![0]);
    assert_eq!(patterns[0].graph.outputs(), &vec![1]);
    assert_eq!(patterns[1].graph.inputs(), &vec![1]);
    assert_eq!(patterns[1].graph.outputs(), &vec![0]);
    assert_eq!(patterns[0].boundary, vec![2, 4]);
    assert_eq!(patterns[1].boundary, vec![2, 4]);
    assert_eq!(patterns[2].boundary, vec![2, 3]);
    assert_eq!(patterns[3].boundary, vec![2, 5]);
    assert_eq!(patterns[3].graph.num_vertices(), 6);
    assert_eq!(patterns[3].graph.num_edges(), 5);
}

#[test]
fn a_pattern_without_causal_flow_fails_compilation() {
    let refused = |certified: Vec<bool>| {
        match CausalRewriter::from_rewrite_rules(rule_sets(), &certified) {
            Ok(_) => panic!("the rules compiled"),
            Err(e) => e,
        }
    };
    assert!(CausalRewriter::from_rewrite_rules(rule_sets(), &vec![true, true, true, true]).is_ok());
    assert_eq!(
        refused(vec![true, false, true, false]),
        CompileError::NoCausalFlow { rule_set: 0, orientation: 1 }
    );
    assert_eq!(
        refused(vec![true, true]),
        CompileError::NoCausalFlow { rule_set: 1, orientation: 0 }
    );
    assert_eq!(
        refused(vec![true, true, true]),
        CompileError::NoCausalFlow { rule_set: 2, orientation: 0 }
    );
    assert_eq!(refused(vec![]), CompileError::NoCausalFlow { rule_set: 0, orientation: 0 });
}

/// Why the rule sets do not compile, whatever the causal flows.
fn refusal(rules: Vec<RewriteSet>) -> CompileError {
    let listing = CausalRewriter::patterns_of(&rules).err();
    match CausalRewriter::from_rewrite_rules(rules, &vec![]) {
        Ok(_) => panic!("the rules compiled"),
        Err(e) => {
            assert_eq!(listing, Some(e));
            e
        }
    }
}

#[test]
fn a_malformed_rule_set_fails_compilation() {
    let zero = (0, 1);
    let good = || RewriteSet::new(
        named(chain(&[zero, zero])),
        vec![ios(&["b0"], &["b1"])],
        vec![rhs(0, chain(&[zero, zero]))],
    );

    // An input with two neighbours.
    let mut forked = chain(&[zero, zero]);
    forked.add_edge_with_type(0, 3, EType::N);
    let rules = vec![
        good(),
        RewriteSet::new(named(forked.clone()), vec![], vec![]),
    ];
    assert_eq!(refusal(rules), CompileError::LhsBoundary { rule_set: 1 });

    // An assignment that names no vertex.
    let rules = vec![RewriteSet::new(
        named(chain(&[zero, zero])),
        vec![ios(&["b0"], &["b1"]), ios(&["b0"], &["b7"])],
        vec![],
    )];
    assert_eq!(refusal(rules), CompileError::UnknownName { rule_set: 0, orientation: 1 });

    // A replacement whose input has two neighbours.
    let rules = vec![
        good(),
        good(),
        RewriteSet::new(
            named(chain(&[zero, zero])),
            vec![ios(&["b0"], &["b1"])],
            vec![rhs(0, chain(&[zero])), rhs(0, forked)],
        ),
    ];
    assert_eq!(refusal(rules), CompileError::RhsBoundary { rule_set: 2, rhs: 1 });

    // A replacement with one more output than the left-hand side.
    let mut wide = chain(&[zero, zero]);
    let extra = wide.add_vertex(VType::B);
    wide.add_edge_with_type(extra, 2, EType::N);
    wide.set_outputs(vec![1, extra]);
    let rules = vec![RewriteSet::new(
        named(chain(&[zero, zero])),
        vec![ios(&["b0"], &["b1"])],
        vec![rhs(0, wide)],
    )];
    assert_eq!(refusal(rules), CompileError::ArityMismatch { rule_set: 0, rhs: 0 });

    // A replacement with a plain edge between two spiders.
    let mut plain = chain(&[zero, zero]);
    plain.set_edge_type(2, 3, EType::N);
    let rules = vec![RewriteSet::new(
        named(chain(&[zero, zero])),
        vec![ios(&["b0"], &["b1"])],
        vec![rhs(0, chain(&[zero, zero])), rhs(0, plain)],
    )];
    assert_eq!(refusal(rules), CompileError::PlainInteriorEdge { rule_set: 0, rhs: 1 });
}
