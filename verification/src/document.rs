//! Diagram documents: what a rule file says of a diagram, vertex by vertex and
//! edge by edge, and the decoded graph that it stands for.

use crate::diagram::{
    add_edge_smart, add_vertex_with_phase, admits_edge, lemma_wiring, model, new_graph, set_inputs,
    set_outputs, spiders, well_formed, wires, Diagram, EdgeKind, Spider, VertexKind,
};
use crate::faults::first_fault;
use crate::rewrite_sets::{entry_fault, named, texts, DecodeError, DecodedGraph};
use quizx::phase::Phase;
use quizx::vec_graph::Graph;
use vstd::prelude::*;

verus! {

/// A vertex of a document.
#[derive(Debug)]
pub struct VertexRecord {
    /// The name of the vertex in the document.
    pub name: String,
    /// Its kind.
    pub kind: VertexKind,
    /// Its phase.
    pub phase: Phase,
}

/// An edge of a document, between two names. A name is that of a vertex or
/// that of a Hadamard edge of which this edge is one half.
#[derive(Debug)]
pub struct EdgeRecord {
    pub src: String,
    pub tgt: String,
    pub kind: EdgeKind,
}

/// A diagram document.
#[derive(Debug)]
pub struct GraphDocument {
    /// The vertices. The place of a vertex in the list becomes its index.
    pub vertices: Vec<VertexRecord>,
    /// The names of the Hadamard edges that the document writes as a node
    /// between two plain edges.
    pub hadamards: Vec<String>,
    /// The names of the input vertices, in order.
    pub inputs: Vec<String>,
    /// The names of the output vertices, in order.
    pub outputs: Vec<String>,
    /// The edges.
    pub edges: Vec<EdgeRecord>,
}

/// What a name in a document stands for.
#[derive(Debug)]
pub enum End {
    /// The vertex at this place.
    Vertex(usize),
    /// The Hadamard edge at this place.
    Hadamard(usize),
}

/// The first place at which `names` holds `name`.
pub open spec fn place(names: Seq<Seq<char>>, name: Seq<char>) -> Option<usize> {
    if exists|i: int| 0 <= i < names.len() && names[i] == name {
        Some(
            (choose|i: int|
                0 <= i < names.len() && names[i] == name && forall|j: int|
                    0 <= j < i ==> names[j] != name) as usize,
        )
    } else {
        None
    }
}

/// The places at which `names` holds each of `wanted`; `None` where it does
/// not hold one of them.
pub open spec fn places(names: Seq<Seq<char>>, wanted: Seq<Seq<char>>) -> Option<Seq<usize>> {
    if forall|i: int| 0 <= i < wanted.len() ==> (#[trigger] place(names, wanted[i])) is Some {
        Some(Seq::new(wanted.len(), |i: int| place(names, wanted[i])->Some_0))
    } else {
        None
    }
}

/// Whether two entries of `names` are the same.
pub open spec fn repeats(names: Seq<Seq<char>>) -> bool {
    exists|i: int, j: int| 0 <= i < j < names.len() && names[i] == names[j]
}

/// The state of laying a document out: the diagram so far, and the ends
/// that were found for each Hadamard edge.
pub struct Layout {
    pub diagram: Diagram,
    pub ends: Seq<Seq<usize>>,
}

impl GraphDocument {
    /// The names of the vertices.
    pub open spec fn vertex_names(self) -> Seq<Seq<char>> {
        self.vertices@.map_values(|r: VertexRecord| r.name@)
    }

    /// What `name` stands for: a Hadamard edge, or else a vertex.
    pub open spec fn end_of(self, name: Seq<char>) -> Option<End> {
        match place(texts(self.hadamards@), name) {
            Some(h) => Some(End::Hadamard(h)),
            None => match place(self.vertex_names(), name) {
                Some(v) => Some(End::Vertex(v)),
                None => None,
            },
        }
    }

    /// The diagram of the vertices alone, with the given inputs and outputs:
    /// the vertex at place `v` has index `v`.
    pub open spec fn sown(self, inputs: Seq<usize>, outputs: Seq<usize>) -> Diagram {
        Diagram {
            spiders: Map::new(
                |v: usize| v < self.vertices@.len(),
                |v: usize|
                    Spider {
                        kind: self.vertices@[v as int].kind,
                        phase: self.vertices@[v as int].phase,
                    },
            ),
            wires: Map::empty(),
            inputs,
            outputs,
            vacancies: Seq::empty(),
            slots: self.vertices@.len(),
        }
    }

    /// The layout after edge `e`. An edge between two vertices is inserted
    /// with simplification; an edge between a vertex and a Hadamard edge
    /// makes the vertex an end of the Hadamard edge.
    #[verifier::opaque]
    pub open spec fn link(self, l: Layout, e: EdgeRecord) -> Result<Layout, DecodeError> {
        match (self.end_of(e.src@), self.end_of(e.tgt@)) {
            (Some(End::Vertex(a)), Some(End::Vertex(b))) => if l.diagram.admits_edge(a, b, e.kind) {
                Ok(Layout { diagram: l.diagram.smart_insert(a, b, e.kind), ends: l.ends })
            } else {
                Err(DecodeError::UnsupportedEdge)
            },
            (Some(End::Hadamard(h)), Some(End::Vertex(b))) => Ok(
                Layout {
                    diagram: l.diagram,
                    ends: l.ends.update(h as int, l.ends[h as int].push(b)),
                },
            ),
            (Some(End::Vertex(a)), Some(End::Hadamard(h))) => Ok(
                Layout {
                    diagram: l.diagram,
                    ends: l.ends.update(h as int, l.ends[h as int].push(a)),
                },
            ),
            (Some(End::Hadamard(_)), Some(End::Hadamard(_))) => Err(DecodeError::ChainedHadamards),
            _ => Err(DecodeError::UnknownName),
        }
    }

    /// The layout after the first `n` edges.
    pub open spec fn linked(self, start: Layout, n: nat) -> Result<Layout, DecodeError>
        decreases n,
    {
        if n == 0 {
            Ok(start)
        } else {
            match self.linked(start, (n - 1) as nat) {
                Err(e) => Err(e),
                Ok(l) => self.link(l, self.edges@[n - 1]),
            }
        }
    }

    /// The diagram after the first `n` Hadamard edges were inserted between
    /// their two ends, with simplification.
    pub open spec fn bridged(self, d: Diagram, ends: Seq<Seq<usize>>, n: nat) -> Result<
        Diagram,
        DecodeError,
    >
        decreases n,
    {
        if n == 0 {
            Ok(d)
        } else {
            match self.bridged(d, ends, (n - 1) as nat) {
                Err(e) => Err(e),
                Ok(d1) => if ends[n - 1].len() != 2 {
                    Err(DecodeError::HadamardEnds)
                } else if !d1.admits_edge(ends[n - 1][0], ends[n - 1][1], EdgeKind::Hadamard) {
                    Err(DecodeError::UnsupportedEdge)
                } else {
                    Ok(d1.smart_insert(ends[n - 1][0], ends[n - 1][1], EdgeKind::Hadamard))
                },
            }
        }
    }

    /// The diagram that the document stands for, or what is wrong with the
    /// document.
    pub open spec fn decoded(self) -> Result<Diagram, DecodeError> {
        match (
            places(self.vertex_names(), texts(self.inputs@)),
            places(self.vertex_names(), texts(self.outputs@)),
        ) {
            (Some(ins), Some(outs)) => match self.linked(
                Layout {
                    diagram: self.sown(ins, outs),
                    ends: no_ends_yet(self.hadamards@.len()),
                },
                self.edges@.len(),
            ) {
                Err(e) => Err(e),
                Ok(l) => match self.bridged(l.diagram, l.ends, self.hadamards@.len()) {
                    Err(e) => Err(e),
                    Ok(d) => if repeats(self.vertex_names()) {
                        Err(DecodeError::DuplicateName)
                    } else {
                        Ok(d)
                    },
                },
            },
            _ => Err(DecodeError::UnknownName),
        }
    }
}

/// `n` Hadamard edges without ends.
pub open spec fn no_ends_yet(n: nat) -> Seq<Seq<usize>> {
    Seq::new(n, |h: int| Seq::empty())
}

/// The views of the lists of ends.
pub open spec fn ends_view(ends: Seq<Vec<usize>>) -> Seq<Seq<usize>> {
    ends.map_values(|e: Vec<usize>| e@)
}

/// Once an edge could not be laid out, the error stays.
proof fn lemma_linked_fails(doc: GraphDocument, start: Layout, n: nat, m: nat)
    requires
        n <= m,
        doc.linked(start, n) is Err,
    ensures
        doc.linked(start, m) == doc.linked(start, n),
    decreases m,
{
    if n < m {
        lemma_linked_fails(doc, start, n, (m - 1) as nat);
    }
}

/// Once a Hadamard edge could not be inserted, the error stays.
proof fn lemma_bridged_fails(doc: GraphDocument, d: Diagram, ends: Seq<Seq<usize>>, n: nat, m: nat)
    requires
        n <= m,
        doc.bridged(d, ends, n) is Err,
    ensures
        doc.bridged(d, ends, m) == doc.bridged(d, ends, n),
    decreases m,
{
    if n < m {
        lemma_bridged_fails(doc, d, ends, n, (m - 1) as nat);
    }
}

/// Pairs that give the vertices `0, 1, ..` of a graph the names `names`, in
/// order, name its vertices one for one unless a name repeats.
proof fn lemma_naming(g: Graph, pairs: Seq<(String, usize)>, names: Seq<Seq<char>>, n: nat)
    requires
        n <= pairs.len(),
        pairs.len() == names.len(),
        forall|i: int|
            0 <= i < pairs.len() ==> (#[trigger] pairs[i]).1 == i && pairs[i].0@ == names[i],
        forall|v: usize| spiders(g).dom().contains(v) <==> v < pairs.len(),
    ensures
        first_fault(entry_fault(g, pairs), n) == if repeats(names.take(n as int)) {
            Some(DecodeError::DuplicateName)
        } else {
            None
        },
    decreases n,
{
    if n > 0 {
        let m = (n - 1) as nat;
        lemma_naming(g, pairs, names, m);
        let before = names.take(m as int);
        let now = names.take(n as int);
        assert(spiders(g).dom().contains(pairs[m as int].1));
        assert(!exists|j: int| 0 <= j < m && pairs[j].1 == pairs[m as int].1);
        if repeats(before) {
            let (i, j) = choose|i: int, j: int| 0 <= i < j < before.len() && before[i] == before[j];
            assert(0 <= i < j < now.len() && now[i] == now[j]);
        } else if exists|j: int| 0 <= j < m && pairs[j].0@ == pairs[m as int].0@ {
            let j = choose|j: int| 0 <= j < m && pairs[j].0@ == pairs[m as int].0@;
            assert(0 <= j < m < now.len() && now[j] == now[m as int]);
        } else {
            if repeats(now) {
                let (i, j) = choose|i: int, j: int| 0 <= i < j < now.len() && now[i] == now[j];
                if j < m {
                    assert(0 <= i < j < before.len() && before[i] == before[j]);
                } else {
                    assert(0 <= i < m && pairs[i].0@ == pairs[m as int].0@);
                }
            }
        }
    }
}

impl GraphDocument {
    /// The diagram of the first `k` vertices alone, without inputs and outputs.
    spec fn sprouting(self, k: nat) -> Diagram {
        Diagram {
            spiders: Map::new(
                |v: usize| v < k,
                |v: usize|
                    Spider {
                        kind: self.vertices@[v as int].kind,
                        phase: self.vertices@[v as int].phase,
                    },
            ),
            wires: Map::empty(),
            inputs: Seq::empty(),
            outputs: Seq::empty(),
            vacancies: Seq::empty(),
            slots: k,
        }
    }

    /// What `name` stands for.
    fn classify(&self, names: &Vec<String>, name: &String) -> (r: Option<End>)
        requires
            texts(names@) == self.vertex_names(),
        ensures
            r == self.end_of(name@),
            r matches Some(End::Hadamard(h)) ==> h < self.hadamards@.len(),
            r matches Some(End::Vertex(v)) ==> v < self.vertices@.len(),
    {
        match find(&self.hadamards, name) {
            Some(h) => Some(End::Hadamard(h)),
            None => match find(names, name) {
                Some(v) => Some(End::Vertex(v)),
                None => None,
            },
        }
    }

    /// The graph of the vertices alone, their names, and the pairs of name
    /// and index.
    fn sow(&self) -> (r: (Graph, Vec<String>, Vec<(String, usize)>))
        ensures
            well_formed(r.0),
            model(r.0) == self.sprouting(self.vertices@.len()),
            texts(r.1@) == self.vertex_names(),
            r.2@.len() == self.vertices@.len(),
            forall|u: int|
                0 <= u < self.vertices@.len() ==> (#[trigger] r.2@[u]).1 == u && r.2@[u].0@
                    == self.vertices@[u].name@,
    {
        let n = self.vertices.len();
        let mut g = new_graph();
        let mut names: Vec<String> = Vec::new();
        let mut pairs: Vec<(String, usize)> = Vec::new();
        proof {
            assert(wires(g) =~= Map::empty());
            assert(spiders(g) =~= self.sprouting(0).spiders);
        }
        let mut v: usize = 0;
        while v < n
            invariant
                v <= n,
                n == self.vertices@.len(),
                well_formed(g),
                model(g) == self.sprouting(v as nat),
                names@.len() == v,
                pairs@.len() == v,
                forall|u: int| 0 <= u < v ==> (#[trigger] names@[u])@ == self.vertices@[u].name@,
                forall|u: int|
                    0 <= u < v ==> (#[trigger] pairs@[u]).1 == u && pairs@[u].0@
                        == self.vertices@[u].name@,
            decreases n - v,
        {
            let record = &self.vertices[v];
            let at = add_vertex_with_phase(&mut g, record.kind, record.phase);
            names.push(record.name.clone());
            pairs.push((record.name.clone(), at));
            proof {
                assert(at == v);
                assert(model(g).spiders =~= self.sprouting((v + 1) as nat).spiders);
            }
            v += 1;
        }
        assert(texts(names@) =~= self.vertex_names());
        (g, names, pairs)
    }

    /// Lays one edge out: inserts it into `g` where it joins two vertices, and
    /// else files the vertex at one end as an end of the Hadamard edge at
    /// the other.
    fn lay_edge(
        &self,
        g: &mut Graph,
        names: &Vec<String>,
        ends: &mut Vec<Vec<usize>>,
        edge: &EdgeRecord,
    ) -> (r: Option<DecodeError>)
        requires
            well_formed(*old(g)),
            texts(names@) == self.vertex_names(),
            old(ends)@.len() == self.hadamards@.len(),
        ensures
            final(ends)@.len() == self.hadamards@.len(),
            match self.link(
                Layout { diagram: model(*old(g)), ends: ends_view(old(ends)@) },
                *edge,
            ) {
                Err(e) => r == Some(e),
                Ok(l) => r is None && model(*final(g)) == l.diagram && ends_view(final(ends)@)
                    == l.ends && well_formed(*final(g)),
            },
    {
        reveal(GraphDocument::link);
        let src = self.classify(names, &edge.src);
        let tgt = self.classify(names, &edge.tgt);
        match (src, tgt) {
            (Some(End::Vertex(a)), Some(End::Vertex(b))) => {
                if admits_edge(g, a, b, edge.kind) {
                    add_edge_smart(g, a, b, edge.kind);
                    None
                } else {
                    Some(DecodeError::UnsupportedEdge)
                }
            },
            (Some(End::Hadamard(h)), Some(End::Vertex(b))) => {
                file_end(ends, h, b);
                None
            },
            (Some(End::Vertex(a)), Some(End::Hadamard(h))) => {
                file_end(ends, h, a);
                None
            },
            (Some(End::Hadamard(_)), Some(End::Hadamard(_))) => Some(
                DecodeError::ChainedHadamards,
            ),
            _ => Some(DecodeError::UnknownName),
        }
    }

    /// Lays the edges out: inserts those between two vertices into `g`, and
    /// returns the ends that the others give to each Hadamard edge.
    #[verifier::loop_isolation(false)]
    fn lay_edges(&self, g: &mut Graph, names: &Vec<String>) -> (r: Result<
        Vec<Vec<usize>>,
        DecodeError,
    >)
        requires
            well_formed(*old(g)),
            texts(names@) == self.vertex_names(),
        ensures
            match self.linked(
                Layout {
                    diagram: model(*old(g)),
                    ends: no_ends_yet(self.hadamards@.len()),
                },
                self.edges@.len(),
            ) {
                Err(e) => r == Err::<Vec<Vec<usize>>, DecodeError>(e),
                Ok(l) => r is Ok && ends_view(r->Ok_0@) == l.ends && model(*final(g)) == l.diagram
                    && well_formed(*final(g)) && r->Ok_0@.len() == self.hadamards@.len(),
            },
    {
        let ghost start = Layout {
            diagram: model(*g),
            ends: no_ends_yet(self.hadamards@.len()),
        };
        let mut ends = no_ends(self.hadamards.len());
        let mut i: usize = 0;
        while i < self.edges.len()
            invariant
                i <= self.edges.len(),
                well_formed(*g),
                texts(names@) == self.vertex_names(),
                ends@.len() == self.hadamards@.len(),
                self.linked(start, i as nat) == Ok::<Layout, DecodeError>(
                    Layout { diagram: model(*g), ends: ends_view(ends@) },
                ),
            decreases self.edges.len() - i,
        {
            let ghost l = Layout { diagram: model(*g), ends: ends_view(ends@) };
            let edge = &self.edges[i];
            let fault = self.lay_edge(g, names, &mut ends, edge);
            assert(self.linked(start, (i + 1) as nat) == self.link(l, self.edges@[i as int]));
            if let Some(e) = fault {
                proof {
                    assert(self.linked(start, (i + 1) as nat) == Err::<Layout, DecodeError>(e));
                    lemma_linked_fails(*self, start, (i + 1) as nat, self.edges@.len());
                }
                return Err(e);
            }
            i += 1;
        }
        Ok(ends)
    }

    /// Inserts each Hadamard edge between its two ends.
    #[verifier::loop_isolation(false)]
    fn bridge(&self, g: &mut Graph, ends: &Vec<Vec<usize>>) -> (r: Result<(), DecodeError>)
        requires
            well_formed(*old(g)),
            ends@.len() == self.hadamards@.len(),
        ensures
            match self.bridged(model(*old(g)), ends_view(ends@), self.hadamards@.len()) {
                Err(e) => r == Err::<(), DecodeError>(e),
                Ok(d) => r is Ok && model(*final(g)) == d && well_formed(*final(g)),
            },
    {
        let ghost laid = model(*g);
        let ghost all_ends = ends_view(ends@);
        let mut h: usize = 0;
        while h < self.hadamards.len()
            invariant
                h <= self.hadamards.len(),
                ends@.len() == self.hadamards@.len(),
                all_ends == ends_view(ends@),
                well_formed(*g),
                self.bridged(laid, all_ends, h as nat) == Ok::<Diagram, DecodeError>(model(*g)),
            decreases self.hadamards.len() - h,
        {
            let pair = &ends[h];
            assert(pair@ == all_ends[h as int]);
            if pair.len() != 2 {
                proof {
                    assert(self.bridged(laid, all_ends, (h + 1) as nat) == Err::<
                        Diagram,
                        DecodeError,
                    >(DecodeError::HadamardEnds));
                    lemma_bridged_fails(
                        *self,
                        laid,
                        all_ends,
                        (h + 1) as nat,
                        self.hadamards@.len(),
                    );
                }
                return Err(DecodeError::HadamardEnds);
            }
            let a = pair[0];
            let b = pair[1];
            if !admits_edge(g, a, b, EdgeKind::Hadamard) {
                proof {
                    assert(self.bridged(laid, all_ends, (h + 1) as nat) == Err::<
                        Diagram,
                        DecodeError,
                    >(DecodeError::UnsupportedEdge));
                    lemma_bridged_fails(
                        *self,
                        laid,
                        all_ends,
                        (h + 1) as nat,
                        self.hadamards@.len(),
                    );
                }
                return Err(DecodeError::UnsupportedEdge);
            }
            add_edge_smart(g, a, b, EdgeKind::Hadamard);
            h += 1;
        }
        Ok(())
    }

    /// Decodes the document: makes the graph that it stands for, and files the
    /// names of its vertices. The vertex at place `v` of the document gets the
    /// index `v`.
    pub fn decode(&self) -> (r: Result<DecodedGraph, DecodeError>)
        ensures
            match self.decoded() {
                Err(e) => r == Err::<DecodedGraph, DecodeError>(e),
                Ok(d) => r is Ok && well_formed(r->Ok_0.graph_spec()) && model(
                    r->Ok_0.graph_spec(),
                ) == d && forall|v: usize|
                    v < self.vertices@.len() ==> r->Ok_0.name_spec(v) == Some(
                        (#[trigger] self.vertices@[v as int]).name@,
                    ),
            },
    {
        let n = self.vertices.len();
        let (mut g, names, pairs) = self.sow();
        let ins = match find_all(&names, &self.inputs) {
            None => {
                return Err(DecodeError::UnknownName);
            },
            Some(ins) => ins,
        };
        let outs = match find_all(&names, &self.outputs) {
            None => {
                return Err(DecodeError::UnknownName);
            },
            Some(outs) => outs,
        };
        let ghost bare = g;
        let ghost ins_view = ins@;
        let ghost outs_view = outs@;
        set_inputs(&mut g, ins);
        set_outputs(&mut g, outs);
        proof {
            lemma_wiring(bare, g);
            assert(model(g) == self.sown(ins_view, outs_view));
            assert(model(g).sound());
        }
        let ends = match self.lay_edges(&mut g, &names) {
            Err(e) => {
                return Err(e);
            },
            Ok(ends) => ends,
        };
        match self.bridge(&mut g, &ends) {
            Err(e) => {
                return Err(e);
            },
            Ok(()) => {},
        }
        proof {
            let all = self.vertex_names();
            self.lemma_vertices(ins_view, outs_view, model(g));
            assert forall|v: usize| spiders(g).dom().contains(v) <==> v < pairs@.len() by {
                assert(model(g).has(v) <==> v < self.vertices@.len());
            }
            assert(all.take(n as int) =~= all);
            lemma_naming(g, pairs@, all, n as nat);
            assert forall|v: usize| spiders(g).dom().contains(v) implies named(pairs@, v) by {
                assert(0 <= v < pairs@.len() && pairs@[v as int].1 == v);
            }
        }
        let ghost filed = pairs@;
        let r = DecodedGraph::new(g, pairs);
        proof {
            if r is Ok {
                assert forall|v: usize| v < self.vertices@.len() implies r->Ok_0.name_spec(v)
                    == Some((#[trigger] self.vertices@[v as int]).name@) by {
                    assert(filed[v as int].1 == v);
                }
            }
        }
        r
    }

    /// Laying a document out keeps the vertices that were sown.
    proof fn lemma_vertices(self, ins: Seq<usize>, outs: Seq<usize>, d: Diagram)
        requires
            self.linked(
                Layout {
                    diagram: self.sown(ins, outs),
                    ends: no_ends_yet(self.hadamards@.len()),
                },
                self.edges@.len(),
            ) matches Ok(l) && self.bridged(l.diagram, l.ends, self.hadamards@.len())
                == Ok::<Diagram, DecodeError>(d),
        ensures
            forall|v: usize| d.has(v) <==> v < self.vertices@.len(),
    {
        let start = Layout {
            diagram: self.sown(ins, outs),
            ends: no_ends_yet(self.hadamards@.len()),
        };
        let l = self.linked(start, self.edges@.len())->Ok_0;
        self.lemma_linked_keeps(start, self.edges@.len());
        self.lemma_bridged_keeps(l.diagram, l.ends, self.hadamards@.len());
    }

    /// The diagram of a document has one vertex for each vertex record, at the
    /// place of the record and with its kind, and the inputs and outputs that
    /// the document names. A phase may differ from the record's by the half
    /// turns that simplification adds.
    pub proof fn lemma_decoded(self)
        requires
            self.decoded() is Ok,
        ensures
            forall|v: usize| self.decoded()->Ok_0.has(v) <==> v < self.vertices@.len(),
            forall|v: usize|
                v < self.vertices@.len() ==> #[trigger] self.decoded()->Ok_0.kind(v)
                    == self.vertices@[v as int].kind,
            Some(self.decoded()->Ok_0.inputs) == places(self.vertex_names(), texts(self.inputs@)),
            Some(self.decoded()->Ok_0.outputs) == places(
                self.vertex_names(),
                texts(self.outputs@),
            ),
    {
        let ins = places(self.vertex_names(), texts(self.inputs@))->Some_0;
        let outs = places(self.vertex_names(), texts(self.outputs@))->Some_0;
        let start = Layout {
            diagram: self.sown(ins, outs),
            ends: no_ends_yet(self.hadamards@.len()),
        };
        let l = self.linked(start, self.edges@.len())->Ok_0;
        self.lemma_linked_keeps(start, self.edges@.len());
        self.lemma_bridged_keeps(l.diagram, l.ends, self.hadamards@.len());
    }

    /// Laying out edges keeps the vertices, their kinds, and the inputs and
    /// outputs.
    proof fn lemma_linked_keeps(self, start: Layout, n: nat)
        ensures
            self.linked(start, n) matches Ok(l) ==> same_vertices(l.diagram, start.diagram),
        decreases n,
    {
        if n > 0 {
            reveal(GraphDocument::link);
            self.lemma_linked_keeps(start, (n - 1) as nat);
            if let Ok(l) = self.linked(start, n) {
                let before = self.linked(start, (n - 1) as nat)->Ok_0;
                let e = self.edges@[n - 1];
                if let (Some(End::Vertex(a)), Some(End::Vertex(b))) = (
                    self.end_of(e.src@),
                    self.end_of(e.tgt@),
                ) {
                    lemma_insert_keeps(before.diagram, a, b, e.kind);
                }
                assert forall|v: usize| #[trigger] l.diagram.kind(v) == start.diagram.kind(v) by {
                    assert(before.diagram.kind(v) == start.diagram.kind(v));
                }
            }
        }
    }

    /// Inserting Hadamard edges keeps the vertices, their kinds, and the
    /// inputs and outputs.
    proof fn lemma_bridged_keeps(self, d: Diagram, ends: Seq<Seq<usize>>, n: nat)
        ensures
            self.bridged(d, ends, n) matches Ok(e) ==> same_vertices(e, d),
        decreases n,
    {
        if n > 0 {
            self.lemma_bridged_keeps(d, ends, (n - 1) as nat);
            if let Ok(e) = self.bridged(d, ends, n) {
                let before = self.bridged(d, ends, (n - 1) as nat)->Ok_0;
                lemma_insert_keeps(before, ends[n - 1][0], ends[n - 1][1], EdgeKind::Hadamard);
                assert forall|v: usize| #[trigger] e.kind(v) == d.kind(v) by {
                    assert(before.kind(v) == d.kind(v));
                }
            }
        }
    }
}

/// Inserting an edge keeps the vertices, their kinds, and the inputs and
/// outputs.
proof fn lemma_insert_keeps(d: Diagram, s: usize, t: usize, k: EdgeKind)
    requires
        d.has(s),
    ensures
        same_vertices(d.smart_insert(s, t, k), d),
{
    let e = d.smart_insert(s, t, k);
    assert(e.spiders.dom() =~= d.spiders.dom());
    assert forall|v: usize| #[trigger] e.kind(v) == d.kind(v) by {}
}

/// Whether two diagrams have the same vertices, of the same kinds, and the
/// same inputs and outputs.
pub open spec fn same_vertices(a: Diagram, b: Diagram) -> bool {
    &&& a.spiders.dom() == b.spiders.dom()
    &&& forall|v: usize| #[trigger] a.kind(v) == b.kind(v)
    &&& a.inputs == b.inputs
    &&& a.outputs == b.outputs
}

/// `n` empty lists of ends.
fn no_ends(n: usize) -> (r: Vec<Vec<usize>>)
    ensures
        r@.len() == n,
        ends_view(r@) == no_ends_yet(n as nat),
{
    let mut ends: Vec<Vec<usize>> = Vec::new();
    let mut h: usize = 0;
    while h < n
        invariant
            h <= n,
            ends@.len() == h,
            forall|a: int| 0 <= a < h ==> (#[trigger] ends@[a])@ == Seq::<usize>::empty(),
        decreases n - h,
    {
        ends.push(Vec::new());
        h += 1;
    }
    assert(ends_view(ends@) =~= no_ends_yet(n as nat));
    ends
}

/// Files `v` as one more end of the Hadamard edge at place `h`.
fn file_end(ends: &mut Vec<Vec<usize>>, h: usize, v: usize)
    requires
        h < old(ends)@.len(),
    ensures
        final(ends)@.len() == old(ends)@.len(),
        ends_view(final(ends)@) == ends_view(old(ends)@).update(
            h as int,
            ends_view(old(ends)@)[h as int].push(v),
        ),
{
    let ghost before = ends_view(ends@);
    let mut list = ends[h].clone();
    list.push(v);
    ends.set(h, list);
    assert(ends_view(ends@) =~= before.update(h as int, before[h as int].push(v)));
}

/// The first place at which `names` holds `name`.
fn find(names: &Vec<String>, name: &String) -> (r: Option<usize>)
    ensures
        r == place(texts(names@), name@),
        r is Some ==> r->Some_0 < names@.len(),
{
    let mut i: usize = 0;
    while i < names.len()
        invariant
            i <= names.len(),
            forall|j: int| 0 <= j < i ==> texts(names@)[j] != name@,
        decreases names.len() - i,
    {
        if names[i].eq(name) {
            assert(texts(names@)[i as int] == name@);
            return Some(i);
        }
        i += 1;
    }
    None
}

/// The places at which `names` holds each of `wanted`.
fn find_all(names: &Vec<String>, wanted: &Vec<String>) -> (r: Option<Vec<usize>>)
    ensures
        match places(texts(names@), texts(wanted@)) {
            Some(at) => r is Some && r->Some_0@ == at,
            None => r is None,
        },
{
    let mut found: Vec<usize> = Vec::new();
    let mut i: usize = 0;
    while i < wanted.len()
        invariant
            i <= wanted.len(),
            found@.len() == i,
            forall|j: int|
                0 <= j < i ==> (#[trigger] place(texts(names@), texts(wanted@)[j])) == Some(
                    found@[j],
                ),
        decreases wanted.len() - i,
    {
        match find(names, &wanted[i]) {
            None => {
                assert(place(texts(names@), texts(wanted@)[i as int]) is None);
                return None;
            },
            Some(v) => {
                found.push(v);
            },
        }
        i += 1;
    }
    assert(found@ =~= places(texts(names@), texts(wanted@))->Some_0);
    Some(found)
}

} // verus!
