use quizx::graph::{EType, GraphLike, VType};
use quizx::vec_graph::Graph;
use superopt::rewrite_sets::{
    DecodedGraph, RewriteIos, RewriteLhs, RewriteRhs, RewriteSet, RuleSide,
};

fn ios(inputs: &[&str], outputs: &[&str]) -> RewriteIos {
    RewriteIos::new(
        inputs.iter().map(|s| s.to_string()).collect(),
        outputs.iter().map(|s| s.to_string()).collect(),
    )
}

/// `in - z = x - out`, with the names `in`, `z`, `x` and `out`.
fn wire() -> DecodedGraph {
    let mut g = Graph::new();
    let b0 = g.add_vertex(VType::B);
    let z = g.add_vertex(VType::Z);
    let x = g.add_vertex(VType::X);
    let b1 = g.add_vertex(VType::B);
    g.add_edge_with_type(b0, z, EType::N);
    g.add_edge_with_type(z, x, EType::H);
    g.add_edge_with_type(x, b1, EType::N);
    g.set_inputs(vec![b0]);
    g.set_outputs(vec![b1]);
    let pairs = [("in", b0), ("z", z), ("x", x), ("out", b1)];
    DecodedGraph::new(g, pairs.iter().map(|(n, v)| (n.to_string(), *v)).collect()).unwrap()
}

#[test]
fn ios_keep_their_names_in_order() {
    let ios = ios(&["b0", "b1"], &["b2"]);
    assert_eq!(ios.inputs(), &["b0".to_string(), "b1".to_string()]);
    assert_eq!(ios.outputs(), &["b2".to_string()]);
}

#[test]
fn a_side_hands_out_its_graph_border_and_assignments() {
    let g = wire();
    let all = vec![ios(&["in"], &["out"]), ios(&["out"], &["in"]), ios(&[], &["in", "out"])];
    let lhs = RewriteLhs::new(&g, &all);
    assert_eq!(lhs.decoded_ios().len(), 3);
    assert_eq!(lhs.decoded_graph().from_name(&"x".to_string()), Some(2));
    assert_eq!(lhs.graph().num_vertices(), 4);
    assert_eq!(lhs.boundary(), Some(vec![1, 2]));
    assert_eq!(
        lhs.ios(),
        Ok(vec![(vec![0], vec![3]), (vec![3], vec![0]), (vec![], vec![0, 3])])
    );

    let all = vec![ios(&["in"], &["out"]), ios(&["in"], &["exit"]), ios(&["entry"], &["out"])];
    let lhs = RewriteLhs::new(&g, &all);
    assert_eq!(lhs.ios(), Err(1));
}

#[test]
fn a_rule_set_hands_out_its_sides() {
    let rhs = RewriteRhs::new(2, wire(), vec![ios(&["in"], &["out"])], Some(vec![1]), None, None);
    assert_eq!(rhs.reduction, 2);
    assert_eq!(rhs.unfused, Some(vec![1]));
    assert_eq!(rhs.unfused1, None);
    assert_eq!(rhs.unfused2, None);
    assert_eq!(rhs.boundary(), Some(vec![1, 2]));
    assert_eq!(rhs.ios(), Ok(vec![(vec![0], vec![3])]));

    let set = RewriteSet::new(wire(), vec![ios(&["out"], &["in"])], vec![rhs]);
    assert_eq!(set.rhss().len(), 1);
    assert_eq!(set.rhss()[0].reduction, 2);
    let lhs = set.lhs();
    assert_eq!(lhs.ios(), Ok(vec![(vec![3], vec![0])]));
    assert_eq!(lhs.decoded_graph().name(1), Some(&"z".to_string()));
}
