use quizx::graph::{EType, GraphLike, VType};
use quizx::json::JsonPhase;
use quizx::phase::Phase;
use quizx::vec_graph::Graph;
use superopt::diagram::{is_simple, EdgeKind, VertexKind};
use superopt::document::{EdgeRecord, GraphDocument, VertexRecord};
use superopt::rewrite_sets::{border, DecodeError, DecodedGraph, RewriteIos};

fn vertex(name: &str, kind: VertexKind, phase: (i64, i64)) -> VertexRecord {
    VertexRecord { name: name.to_string(), kind, phase: Phase::from(phase) }
}

fn edge(src: &str, tgt: &str, kind: EdgeKind) -> EdgeRecord {
    EdgeRecord { src: src.to_string(), tgt: tgt.to_string(), kind }
}

fn names(list: &[&str]) -> Vec<String> {
    list.iter().map(|s| s.to_string()).collect()
}

/// `b0 - v0 = v1 - b1`, the Hadamard edge written as the node `h0`.
fn small_document() -> GraphDocument {
    GraphDocument {
        vertices: vec![
            vertex("v0", VertexKind::Z, (1, 4)),
            vertex("v1", VertexKind::X, (0, 1)),
            vertex("b0", VertexKind::Boundary, (0, 1)),
            vertex("b1", VertexKind::Boundary, (0, 1)),
        ],
        hadamards: names(&["h0"]),
        inputs: names(&["b0"]),
        outputs: names(&["b1"]),
        edges: vec![
            edge("b0", "v0", EdgeKind::Plain),
            edge("v0", "h0", EdgeKind::Plain),
            edge("h0", "v1", EdgeKind::Plain),
            edge("v1", "b1", EdgeKind::Plain),
        ],
    }
}

fn decode_error(document: GraphDocument) -> DecodeError {
    match document.decode() {
        Ok(_) => panic!("the document was decoded"),
        Err(e) => e,
    }
}

fn naming_error(g: Graph, pairs: Vec<(String, usize)>) -> DecodeError {
    match DecodedGraph::new(g, pairs) {
        Ok(_) => panic!("the names were accepted"),
        Err(e) => e,
    }
}

#[test]
fn a_document_is_decoded_vertex_by_vertex() {
    let decoded = small_document().decode().unwrap();
    let g = decoded.graph();
    assert_eq!(g.num_vertices(), 4);
    assert_eq!(g.vertex_type(0), VType::Z);
    assert_eq!(g.vertex_type(1), VType::X);
    assert_eq!(g.vertex_type(2), VType::B);
    assert_eq!(g.vertex_type(3), VType::B);
    assert_eq!(g.phase(0), Phase::from((1, 4)));
    assert_eq!(g.phase(1), Phase::from((0, 1)));
    assert_eq!(g.inputs(), &vec![2]);
    assert_eq!(g.outputs(), &vec![3]);
    let mut edges: Vec<_> = g.edges().collect();
    edges.sort();
    assert_eq!(edges, vec![(0, 1, EType::H), (0, 2, EType::N), (1, 3, EType::N)]);
    assert_eq!(decoded.name(0), Some(&"v0".to_string()));
    assert_eq!(decoded.name(3), Some(&"b1".to_string()));
    assert_eq!(decoded.name(4), None);
    assert_eq!(decoded.from_name(&"b0".to_string()), Some(2));
    assert_eq!(decoded.from_name(&"v1".to_string()), Some(1));
    assert_eq!(decoded.from_name(&"h0".to_string()), None);
    assert_eq!(decoded.from_name(&"b2".to_string()), None);
    assert!(is_simple(g));
    assert_eq!(border(g), Some(vec![0, 1]));
}

#[test]
fn parallel_edges_of_a_document_are_simplified() {
    // Two Hadamard edges between two Z spiders cancel.
    let mut document = small_document();
    document.vertices[1] = vertex("v1", VertexKind::Z, (0, 1));
    document.edges.push(edge("v1", "v0", EdgeKind::Hadamard));
    let decoded = document.decode().unwrap();
    assert_eq!(decoded.graph().edge_type_opt(0, 1), None);
    assert_eq!(decoded.graph().num_edges(), 2);

    // A plain edge beside a Hadamard edge between two Z spiders stays, and
    // the first end of the edge that came later gains a half turn.
    let mut document = small_document();
    document.vertices[1] = vertex("v1", VertexKind::Z, (0, 1));
    document.edges.insert(0, edge("v1", "v0", EdgeKind::Plain));
    let decoded = document.decode().unwrap();
    assert_eq!(decoded.graph().edge_type_opt(0, 1), Some(EType::N));
    assert_eq!(decoded.graph().phase(0), Phase::from((-3, 4)));
    assert_eq!(decoded.graph().phase(1), Phase::from((0, 1)));
}

#[test]
fn a_malformed_document_is_refused() {
    let mut document = small_document();
    document.inputs = names(&["b5"]);
    assert_eq!(decode_error(document), DecodeError::UnknownName);

    let mut document = small_document();
    document.outputs = names(&["h0"]);
    assert_eq!(decode_error(document), DecodeError::UnknownName);

    let mut document = small_document();
    document.edges.push(edge("v0", "nowhere", EdgeKind::Plain));
    assert_eq!(decode_error(document), DecodeError::UnknownName);

    let mut document = small_document();
    document.hadamards.push("h1".to_string());
    document.edges.push(edge("h0", "h1", EdgeKind::Plain));
    assert_eq!(decode_error(document), DecodeError::ChainedHadamards);

    let mut document = small_document();
    document.edges.push(edge("h0", "b1", EdgeKind::Plain));
    assert_eq!(decode_error(document), DecodeError::HadamardEnds);

    let mut document = small_document();
    document.hadamards.push("h1".to_string());
    assert_eq!(decode_error(document), DecodeError::HadamardEnds);

    // A second edge between a spider and a boundary vertex.
    let mut document = small_document();
    document.edges.push(edge("v0", "b0", EdgeKind::Plain));
    assert_eq!(decode_error(document), DecodeError::UnsupportedEdge);

    // A loop at a boundary vertex.
    let mut document = small_document();
    document.edges.push(edge("b0", "b0", EdgeKind::Plain));
    assert_eq!(decode_error(document), DecodeError::UnsupportedEdge);

    // A Hadamard edge beside an edge at a boundary vertex.
    let mut document = small_document();
    document.hadamards.push("h1".to_string());
    document.edges.push(edge("b1", "h1", EdgeKind::Plain));
    document.edges.push(edge("h1", "v1", EdgeKind::Plain));
    assert_eq!(decode_error(document), DecodeError::UnsupportedEdge);

    let mut document = small_document();
    document.vertices.push(vertex("v0", VertexKind::Z, (0, 1)));
    assert_eq!(decode_error(document), DecodeError::DuplicateName);
}

#[test]
fn a_hadamard_loop_adds_a_half_turn() {
    let mut document = small_document();
    document.edges.push(edge("v0", "v0", EdgeKind::Hadamard));
    document.edges.push(edge("v1", "v1", EdgeKind::Plain));
    let decoded = document.decode().unwrap();
    assert_eq!(decoded.graph().phase(0), Phase::from((-3, 4)));
    assert_eq!(decoded.graph().phase(1), Phase::from((0, 1)));
    assert_eq!(decoded.graph().num_edges(), 3);
}

#[test]
fn a_half_turn_needs_room_in_the_phase() {
    // The denominator is the largest to which a half turn can be added.
    let mut document = small_document();
    document.vertices[0] = vertex("v0", VertexKind::Z, (1, 0x3fff_ffff_ffff_ffff));
    document.edges.push(edge("v0", "v0", EdgeKind::Hadamard));
    let decoded = document.decode().unwrap();
    assert_eq!(
        decoded.graph().phase(0),
        Phase::from((-0x3fff_ffff_ffff_fffe, 0x3fff_ffff_ffff_ffff))
    );

    let mut document = small_document();
    document.vertices[0] = vertex("v0", VertexKind::Z, (1, 0x4000_0000_0000_0001));
    document.edges.push(edge("v0", "v0", EdgeKind::Hadamard));
    assert_eq!(decode_error(document), DecodeError::UnsupportedEdge);

    // A plain loop adds nothing, whatever the phase.
    let mut document = small_document();
    document.vertices[0] = vertex("v0", VertexKind::Z, (1, 0x4000_0000_0000_0001));
    document.edges.push(edge("v0", "v0", EdgeKind::Plain));
    assert!(document.decode().is_ok());
}

#[test]
fn names_must_fit_the_graph_one_for_one() {
    let graph = || {
        let mut g = Graph::new();
        g.add_vertex(VType::Z);
        g.add_vertex(VType::Z);
        g.remove_vertex(0);
        g.add_vertex(VType::X);
        g.add_vertex(VType::B);
        g.remove_vertex(1);
        g
    };
    let pair = |name: &str, v: usize| (name.to_string(), v);
    assert_eq!(graph().vertices().collect::<Vec<_>>(), vec![0, 2]);

    let decoded = DecodedGraph::new(graph(), vec![pair("x", 2), pair("y", 0)]).unwrap();
    assert_eq!(decoded.name(0), Some(&"y".to_string()));
    assert_eq!(decoded.name(1), None);
    assert_eq!(decoded.name(2), Some(&"x".to_string()));
    assert_eq!(decoded.from_name(&"x".to_string()), Some(2));
    assert_eq!(decoded.from_name(&"z".to_string()), None);

    assert_eq!(
        naming_error(graph(), vec![pair("x", 2), pair("y", 1), pair("z", 0)]),
        DecodeError::UnknownVertex
    );
    assert_eq!(
        naming_error(graph(), vec![pair("x", 2), pair("y", 2), pair("z", 0)]),
        DecodeError::DuplicateVertex
    );
    assert_eq!(
        naming_error(graph(), vec![pair("x", 2), pair("x", 0)]),
        DecodeError::DuplicateName
    );
    assert_eq!(naming_error(graph(), vec![pair("x", 2)]), DecodeError::UnnamedVertex);
    assert_eq!(naming_error(graph(), vec![]), DecodeError::UnnamedVertex);
    // The first entry with something wrong decides.
    assert_eq!(
        naming_error(graph(), vec![pair("x", 2), pair("x", 2), pair("y", 7)]),
        DecodeError::DuplicateVertex
    );
}

#[test]
fn names_are_translated_in_order() {
    let decoded = small_document().decode().unwrap();
    let ios = RewriteIos::new(names(&["b1", "b0"]), names(&["v0"]));
    assert_eq!(ios.translated(&decoded), Some((vec![3, 2], vec![0])));
    let ios = RewriteIos::new(names(&[]), names(&[]));
    assert_eq!(ios.translated(&decoded), Some((vec![], vec![])));
    let ios = RewriteIos::new(names(&["b0"]), names(&["b1", "b2"]));
    assert_eq!(ios.translated(&decoded), None);
    let ios = RewriteIos::new(names(&["h0"]), names(&["b1"]));
    assert_eq!(ios.translated(&decoded), None);
}

#[test]
fn the_border_is_one_neighbour_for_each_input_and_output() {
    let mut g = Graph::new();
    let vs: Vec<usize> = [VType::B, VType::B, VType::Z, VType::B]
        .into_iter()
        .map(|t| g.add_vertex(t))
        .collect();
    g.add_edge_with_type(vs[0], vs[2], EType::N);
    g.add_edge_with_type(vs[1], vs[2], EType::N);
    g.add_edge_with_type(vs[2], vs[3], EType::N);
    g.set_inputs(vec![vs[1], vs[0]]);
    g.set_outputs(vec![vs[3]]);
    assert_eq!(border(&g), Some(vec![2, 2, 2]));

    // A spider with three neighbours is no end of a wire.
    g.set_outputs(vec![vs[2]]);
    assert_eq!(border(&g), None);
    // Nor is what is no vertex.
    g.set_outputs(vec![9]);
    assert_eq!(border(&g), None);
    g.set_outputs(vec![]);
    assert_eq!(border(&g), Some(vec![2, 2]));
}

#[test]
fn simple_graphs_are_told_from_others() {
    let mut g = Graph::new();
    let a = g.add_vertex(VType::Z);
    let b = g.add_vertex(VType::Z);
    assert!(is_simple(&g));
    g.add_edge_with_type(a, b, EType::H);
    assert!(is_simple(&g));
    let mut parallel = g.clone();
    parallel.add_edge_with_type(a, b, EType::N);
    assert!(!is_simple(&parallel));
    let mut looped = g.clone();
    looped.add_edge_with_type(a, a, EType::H);
    assert!(!is_simple(&looped));
}

/// The document that the text of a `.qgraph` holds. The vertices stand in
/// the order of their names, the nodes before the boundary vertices.
fn document_of(text: &str) -> GraphDocument {
    let json: serde_json::Value = serde_json::from_str(text).unwrap();
    let table = |key: &str| -> Vec<(String, serde_json::Value)> {
        let mut entries: Vec<_> = match json.get(key).and_then(|v| v.as_object()) {
            Some(map) => map.iter().map(|(k, v)| (k.clone(), v.clone())).collect(),
            None => vec![],
        };
        entries.sort_by(|a, b| a.0.cmp(&b.0));
        entries
    };
    let mut vertices = Vec::new();
    let mut hadamards = Vec::new();
    for (name, attrs) in table("node_vertices") {
        let data = &attrs["data"];
        let kind = match data["type"].as_str().unwrap_or("Z") {
            "Z" => VertexKind::Z,
            "X" => VertexKind::X,
            "hadamard" => VertexKind::HBox,
            other => panic!("a vertex of kind {other}"),
        };
        if kind == VertexKind::HBox && data["is_edge"].as_str() == Some("true") {
            hadamards.push(name);
            continue;
        }
        let value = data.get("value").cloned().unwrap_or(serde_json::Value::String(String::new()));
        let phase: JsonPhase = serde_json::from_value(value).unwrap();
        let phase = phase.to_phase().unwrap().unwrap_or(Phase::from(0));
        vertices.push(VertexRecord { name, kind, phase });
    }
    let mut inputs = Vec::new();
    let mut outputs = Vec::new();
    for (name, attrs) in table("wire_vertices") {
        if let Some(at) = attrs["annotation"]["input"].as_u64() {
            inputs.push((at, name.clone()));
        }
        if let Some(at) = attrs["annotation"]["output"].as_u64() {
            outputs.push((at, name.clone()));
        }
        vertices.push(VertexRecord { name, kind: VertexKind::Boundary, phase: Phase::from(0) });
    }
    inputs.sort();
    outputs.sort();
    let edges = table("undir_edges")
        .into_iter()
        .map(|(_, e)| EdgeRecord {
            src: e["src"].as_str().unwrap().to_string(),
            tgt: e["tgt"].as_str().unwrap().to_string(),
            kind: match e.get("type").and_then(|t| t.as_str()) {
                Some("hadamard") => EdgeKind::Hadamard,
                _ => EdgeKind::Plain,
            },
        })
        .collect();
    GraphDocument {
        vertices,
        hadamards,
        inputs: inputs.into_iter().map(|(_, n)| n).collect(),
        outputs: outputs.into_iter().map(|(_, n)| n).collect(),
        edges,
    }
}

#[test]
fn decoding_an_encoded_diagram_gives_the_diagram_back() {
    let mut g = Graph::new();
    let vs = vec![
        g.add_vertex(VType::B),
        g.add_vertex(VType::B),
        g.add_vertex_with_phase(VType::Z, Phase::from((1, 4))),
        g.add_vertex_with_phase(VType::X, Phase::from((1, 2))),
        g.add_vertex_with_phase(VType::X, Phase::from((1, 1))),
        g.add_vertex_with_phase(VType::Z, Phase::from((-3, 4))),
        g.add_vertex(VType::B),
        g.add_vertex(VType::B),
    ];
    g.set_inputs(vec![vs[1], vs[0]]);
    g.set_outputs(vec![vs[6], vs[7]]);
    g.add_edge(vs[0], vs[2]);
    g.add_edge(vs[1], vs[3]);
    g.add_edge(vs[2], vs[4]);
    g.add_edge_with_type(vs[2], vs[3], EType::H);
    g.add_edge_with_type(vs[2], vs[5], EType::H);
    g.add_edge(vs[3], vs[5]);
    g.add_edge(vs[4], vs[6]);
    g.add_edge(vs[5], vs[7]);

    let text = quizx::json::encode_graph(&g).unwrap();
    let decoded = document_of(&text).decode().unwrap();
    let h = decoded.graph();

    // The encoder names the boundary vertices `b0, b1, ..` and the others
    // `v0, v1, ..`, in index order.
    let (mut b, mut v) = (0, 0);
    let image: Vec<usize> = g
        .vertices()
        .map(|x| {
            let name = if g.vertex_type(x) == VType::B {
                b += 1;
                format!("b{}", b - 1)
            } else {
                v += 1;
                format!("v{}", v - 1)
            };
            decoded.from_name(&name).unwrap()
        })
        .collect();

    assert_eq!(h.num_vertices(), g.num_vertices());
    assert_eq!(h.num_edges(), g.num_edges());
    for x in g.vertices() {
        assert_eq!(h.vertex_type(image[x]), g.vertex_type(x));
        if g.vertex_type(x) != VType::B {
            assert_eq!(h.phase(image[x]), g.phase(x));
        }
    }
    for (s, t, kind) in g.edges() {
        assert_eq!(h.edge_type_opt(image[s], image[t]), Some(kind));
    }
    let inputs: Vec<usize> = g.inputs().iter().map(|&x| image[x]).collect();
    let outputs: Vec<usize> = g.outputs().iter().map(|&x| image[x]).collect();
    assert_eq!(h.inputs(), &inputs);
    assert_eq!(h.outputs(), &outputs);
}
