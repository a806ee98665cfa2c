//! The diagram store and its mathematical model.
//!
//! Diagrams are held in `quizx::vec_graph::Graph`. This module names what such a
//! graph holds, gives every operation that the rewriting engine performs on it a
//! contract over those names, and defines the abstract [`Diagram`] on which the
//! engine's own contracts are stated.
//!
//! The model holds what rewriting reads and writes: the kind and the phase of
//! each vertex, the edges with their kinds, the input and output lists, and
//! the free vertex indices, which decide what index a new vertex gets. It
//! leaves out the scalar of a graph, the positions of its vertices and the
//! boolean variables of their phases. The contracts of the operations, which
//! are believed and not proved, are stated for simple graphs: quizx leaves
//! open what the operations do to a graph with parallel edges.

use quizx::graph::{EType, GraphLike, VType};
use quizx::phase::Phase;
use quizx::vec_graph::Graph;
use vstd::prelude::*;

verus! {

/// The diagram store: vertices with a kind and a phase, typed edges, and
/// ordered input and output lists.
#[verifier::external_type_specification]
#[verifier::external_body]
pub struct ExGraph(Graph);

/// A phase, in half turns. The engine moves phases around and never looks inside.
#[verifier::external_type_specification]
#[verifier::external_body]
pub struct ExPhase(Phase);

/// The kind of a vertex.
#[derive(Clone, Copy, Debug, PartialEq, Eq, Structural)]
pub enum VertexKind {
    /// The end of an external wire.
    Boundary,
    /// A green spider.
    Z,
    /// A red spider.
    X,
    /// A Hadamard box.
    HBox,
    /// The input side of a W node.
    WInput,
    /// The output side of a W node.
    WOutput,
    /// A Z box.
    ZBox,
}

/// The kind of an edge.
#[derive(Clone, Copy, Debug, PartialEq, Eq, Structural)]
pub enum EdgeKind {
    /// A plain wire.
    Plain,
    /// A wire with a Hadamard gate on it.
    Hadamard,
    /// The wire inside a W node.
    Wio,
}

/// What a vertex carries.
pub struct Spider {
    pub kind: VertexKind,
    pub phase: Phase,
}

/// The vertices of a graph, each with its kind and phase.
pub uninterp spec fn spiders(g: Graph) -> Map<usize, Spider>;

/// The neighbour list of each vertex: the other end of each incident edge with
/// the kind of that edge, in storage order.
pub uninterp spec fn adjacency(g: Graph) -> Map<usize, Seq<(usize, EdgeKind)>>;

/// The input vertices, in order.
pub uninterp spec fn input_list(g: Graph) -> Seq<usize>;

/// The output vertices, in order.
pub uninterp spec fn output_list(g: Graph) -> Seq<usize>;

/// The indices that deleted vertices have left free; the last one is reused first.
pub uninterp spec fn vacancies(g: Graph) -> Seq<usize>;

/// The number of vertex slots allocated so far, free ones included.
pub uninterp spec fn slot_count(g: Graph) -> nat;

/// The vertices in the order in which the graph enumerates them.
pub uninterp spec fn vertex_list(g: Graph) -> Seq<usize>;

/// The edges in the order in which the graph enumerates them.
pub uninterp spec fn edge_list(g: Graph) -> Seq<(usize, usize, EdgeKind)>;

/// The phase that results from adding a half turn to `p`.
pub uninterp spec fn half_turn_added(p: Phase) -> Phase;

/// The denominator of `p`, a fraction of half turns in lowest terms.
pub uninterp spec fn denominator(p: Phase) -> i64;

/// The largest denominator of a phase to which a half turn can be added
/// without leaving the range of the machine integers that hold the fraction.
pub const HALF_TURN_ROOM: i64 = 0x3fff_ffff_ffff_ffff;

/// The abstract diagram: the mathematical content of a graph.
pub struct Diagram {
    /// Kind and phase of every vertex.
    pub spiders: Map<usize, Spider>,
    /// The kind of the edge between two vertices, recorded in both directions.
    pub wires: Map<(usize, usize), EdgeKind>,
    /// The input vertices, in order.
    pub inputs: Seq<usize>,
    /// The output vertices, in order.
    pub outputs: Seq<usize>,
    /// Free indices; the last one is handed out first.
    pub vacancies: Seq<usize>,
    /// The number of indices handed out so far, and so the index that is
    /// handed out when none is free.
    pub slots: nat,
}

/// Whether the neighbour list `nhd` holds an edge of kind `k` to `t`.
pub open spec fn joins(nhd: Seq<(usize, EdgeKind)>, t: usize, k: EdgeKind) -> bool {
    nhd.contains((t, k))
}

/// The edges of a graph as a map from ordered pairs of endpoints to kinds.
pub open spec fn wires(g: Graph) -> Map<(usize, usize), EdgeKind> {
    Map::new(
        |p: (usize, usize)|
            spiders(g).dom().contains(p.0) && exists|k: EdgeKind| #[trigger]
                joins(adjacency(g)[p.0], p.1, k),
        |p: (usize, usize)| choose|k: EdgeKind| #[trigger] joins(adjacency(g)[p.0], p.1, k),
    )
}

/// The abstract diagram that a graph holds.
pub open spec fn model(g: Graph) -> Diagram {
    Diagram {
        spiders: spiders(g),
        wires: wires(g),
        inputs: input_list(g),
        outputs: output_list(g),
        vacancies: vacancies(g),
        slots: slot_count(g),
    }
}

/// A graph is simple when every neighbour is a vertex, no vertex neighbours
/// itself, no two edges join the same pair, and both ends of an edge record it
/// with the same kind.
pub open spec fn simple(g: Graph) -> bool {
    forall|v: usize| #[trigger]
        spiders(g).dom().contains(v) ==> neighbourhood_ok(g, v, adjacency(g)[v])
}

/// A graph is well formed when it is simple and its free indices are sound.
/// Every graph that quizx makes has sound free indices; whether a graph is
/// simple, [`is_simple`] tells.
pub open spec fn well_formed(g: Graph) -> bool {
    simple(g) && model(g).sound()
}

/// What simplicity asks of the neighbour list `nhd` of vertex `v`.
pub open spec fn neighbourhood_ok(g: Graph, v: usize, nhd: Seq<(usize, EdgeKind)>) -> bool {
    &&& forall|i: int|
        0 <= i < nhd.len() ==> {
            &&& (#[trigger] nhd[i]).0 != v
            &&& spiders(g).dom().contains(nhd[i].0)
            &&& adjacency(g)[nhd[i].0].contains((v, nhd[i].1))
        }
    &&& forall|i: int, j: int|
        0 <= i < j < nhd.len() ==> (#[trigger] nhd[i]).0 != (#[trigger] nhd[j]).0
}

/// Two graphs that differ at most in what their vertices carry.
pub open spec fn same_wiring(a: Graph, b: Graph) -> bool {
    &&& spiders(a).dom() == spiders(b).dom()
    &&& adjacency(a) == adjacency(b)
    &&& input_list(a) == input_list(b)
    &&& output_list(a) == output_list(b)
    &&& vacancies(a) == vacancies(b)
    &&& slot_count(a) == slot_count(b)
    &&& vertex_list(a) == vertex_list(b)
    &&& edge_list(a) == edge_list(b)
}

/// Whether a graph is simple, and which edges it has, depends on its vertex
/// set and its neighbour lists alone.
pub(crate) proof fn lemma_wiring(a: Graph, b: Graph)
    requires
        spiders(a).dom() == spiders(b).dom(),
        adjacency(a) == adjacency(b),
    ensures
        wires(a) == wires(b),
        simple(a) == simple(b),
{
    assert(wires(a) =~= wires(b));
    assert forall|v: usize, nhd: Seq<(usize, EdgeKind)>|
        neighbourhood_ok(a, v, nhd) == neighbourhood_ok(b, v, nhd) by {}
}

impl VertexKind {
    /// Z and X spiders are the vertices on which parallel edges and loops can
    /// be simplified away.
    pub open spec fn is_spider(self) -> bool {
        self == VertexKind::Z || self == VertexKind::X
    }

    /// Whether the kind is that of a Z or X spider.
    pub fn spider(self) -> (r: bool)
        ensures
            r == self.is_spider(),
    {
        match self {
            VertexKind::Z => true,
            VertexKind::X => true,
            _ => false,
        }
    }

    /// Whether the kind is that of a boundary vertex.
    pub fn boundary(self) -> (r: bool)
        ensures
            r == (self == VertexKind::Boundary),
    {
        match self {
            VertexKind::Boundary => true,
            _ => false,
        }
    }
}

impl Diagram {
    /// The free indices are sound when they are distinct, none of them is a
    /// vertex, and they and the vertices lie below the slot count, which
    /// counts no more indices than there are.
    pub open spec fn sound(self) -> bool {
        &&& self.slots <= usize::MAX + 1
        &&& forall|i: int, j: int|
            0 <= i < j < self.vacancies.len() ==> self.vacancies[i] != self.vacancies[j]
        &&& forall|i: int|
            0 <= i < self.vacancies.len() ==> !self.has(#[trigger] self.vacancies[i])
                && self.vacancies[i] < self.slots
        &&& forall|v: usize| #[trigger] self.has(v) ==> v < self.slots
    }

    /// Whether `v` is a vertex.
    pub open spec fn has(self, v: usize) -> bool {
        self.spiders.dom().contains(v)
    }

    /// The kind of vertex `v`.
    pub open spec fn kind(self, v: usize) -> VertexKind {
        self.spiders[v].kind
    }

    /// The kind of the edge between `s` and `t`, if there is one.
    pub open spec fn wire(self, s: usize, t: usize) -> Option<EdgeKind> {
        if self.wires.dom().contains((s, t)) {
            Some(self.wires[(s, t)])
        } else {
            None
        }
    }

    /// The diagram with `spider` at vertex `v`.
    pub open spec fn with_spider(self, v: usize, spider: Spider) -> Diagram {
        Diagram { spiders: self.spiders.insert(v, spider), ..self }
    }

    /// The diagram with the kind of `v` replaced.
    pub open spec fn with_kind(self, v: usize, kind: VertexKind) -> Diagram {
        self.with_spider(v, Spider { kind, phase: self.spiders[v].phase })
    }

    /// The diagram with the phase of `v` replaced.
    pub open spec fn with_phase(self, v: usize, phase: Phase) -> Diagram {
        self.with_spider(v, Spider { kind: self.spiders[v].kind, phase })
    }

    /// The diagram with an edge of kind `k` between `s` and `t`.
    pub open spec fn with_wire(self, s: usize, t: usize, k: EdgeKind) -> Diagram {
        Diagram { wires: self.wires.insert((s, t), k).insert((t, s), k), ..self }
    }

    /// The diagram without the edge between `s` and `t`.
    pub open spec fn without_wire(self, s: usize, t: usize) -> Diagram {
        Diagram { wires: self.wires.remove((s, t)).remove((t, s)), ..self }
    }

    /// The diagram without vertex `v` and its edges. The index of `v` becomes
    /// the first to be reused.
    pub open spec fn without_vertex(self, v: usize) -> Diagram {
        Diagram {
            spiders: self.spiders.remove(v),
            wires: Map::new(
                |p: (usize, usize)| self.wires.dom().contains(p) && p.0 != v && p.1 != v,
                |p: (usize, usize)| self.wires[p],
            ),
            vacancies: self.vacancies.push(v),
            ..self
        }
    }

    /// The index that the next new vertex gets.
    pub open spec fn next_vertex(self) -> usize {
        if self.vacancies.len() > 0 {
            self.vacancies.last()
        } else {
            self.slots as usize
        }
    }

    /// The diagram with a new vertex, at index `self.next_vertex()`.
    pub open spec fn with_new_vertex(self, spider: Spider) -> Diagram {
        if self.vacancies.len() > 0 {
            Diagram {
                spiders: self.spiders.insert(self.vacancies.last(), spider),
                vacancies: self.vacancies.drop_last(),
                ..self
            }
        } else {
            Diagram {
                spiders: self.spiders.insert(self.slots as usize, spider),
                slots: self.slots + 1,
                ..self
            }
        }
    }

    /// The kind of edge that leaves a parallel edge between `s` and `t` as it
    /// is: plain between spiders of one colour, Hadamard between spiders of
    /// two colours.
    pub open spec fn neutral(self, s: usize, t: usize) -> EdgeKind {
        if self.kind(s) == self.kind(t) {
            EdgeKind::Plain
        } else {
            EdgeKind::Hadamard
        }
    }

    /// Whether inserting an edge of kind `k` between `s` and `t` with
    /// simplification adds a half turn to `s`: the edge is a Hadamard loop, or
    /// it is parallel to an edge, and just one of the two is of the neutral
    /// kind.
    pub open spec fn turns(self, s: usize, t: usize, k: EdgeKind) -> bool {
        if s == t {
            k == EdgeKind::Hadamard
        } else {
            self.wires.dom().contains((s, t)) && (self.wires[(s, t)] == self.neutral(s, t)) != (k
                == self.neutral(s, t))
        }
    }

    /// Whether an edge of kind `k` between `s` and `t` can be inserted with
    /// simplification: both are vertices; a loop sits on a spider; an edge
    /// parallel to an existing one joins two spiders, and neither is a W wire;
    /// and where `s` gains a half turn, its phase has room for it.
    pub open spec fn admits_edge(self, s: usize, t: usize, k: EdgeKind) -> bool {
        &&& self.has(s)
        &&& self.has(t)
        &&& s == t ==> self.kind(s).is_spider()
        &&& s != t && self.wires.dom().contains((s, t)) ==> {
            &&& self.kind(s).is_spider()
            &&& self.kind(t).is_spider()
            &&& k != EdgeKind::Wio
            &&& self.wires[(s, t)] != EdgeKind::Wio
        }
        &&& self.turns(s, t, k) ==> denominator(self.spiders[s].phase) <= HALF_TURN_ROOM
    }

    /// The diagram after an edge of kind `k` between `s` and `t` was inserted
    /// with simplification.
    ///
    /// A loop vanishes. Where no edge joins `s` and `t` the edge is added.
    /// Beside a neutral edge a parallel edge vanishes; beside an edge of the
    /// other kind, a neutral edge takes its place and one of the other kind
    /// cancels it. Where the insertion turns, `s` gains a half turn.
    pub open spec fn smart_insert(self, s: usize, t: usize, k: EdgeKind) -> Diagram {
        let rewired = if s == t {
            self
        } else if !self.wires.dom().contains((s, t)) {
            self.with_wire(s, t, k)
        } else if self.wires[(s, t)] == self.neutral(s, t) {
            self
        } else if k == self.neutral(s, t) {
            self.with_wire(s, t, k)
        } else {
            self.without_wire(s, t)
        };
        if self.turns(s, t, k) {
            rewired.with_phase(s, half_turn_added(self.spiders[s].phase))
        } else {
            rewired
        }
    }
}

/// `GraphLike::new`: a graph without vertices.
#[verifier::external_body]
pub(crate) fn new_graph() -> (r: Graph)
    ensures
        spiders(r).dom() == Set::<usize>::empty(),
        input_list(r) == Seq::<usize>::empty(),
        output_list(r) == Seq::<usize>::empty(),
        vacancies(r) == Seq::<usize>::empty(),
        slot_count(r) == 0,
{
    Graph::new()
}

/// `Graph::clone`: a copy that holds what `g` holds.
#[verifier::external_body]
pub(crate) fn clone_graph(g: &Graph) -> (r: Graph)
    ensures
        r == *g,
{
    g.clone()
}

/// `GraphLike::contains_vertex`: whether `v` is a vertex.
#[verifier::external_body]
pub(crate) fn contains_vertex(g: &Graph, v: usize) -> (r: bool)
    ensures
        r == spiders(*g).dom().contains(v),
{
    g.contains_vertex(v)
}

/// `GraphLike::vertex_type`: the kind of vertex `v`.
#[verifier::external_body]
pub(crate) fn vertex_kind(g: &Graph, v: usize) -> (r: VertexKind)
    requires
        spiders(*g).dom().contains(v),
    ensures
        r == spiders(*g)[v].kind,
{
    match g.vertex_type(v) {
        VType::B => VertexKind::Boundary,
        VType::Z => VertexKind::Z,
        VType::X => VertexKind::X,
        VType::H => VertexKind::HBox,
        VType::WInput => VertexKind::WInput,
        VType::WOutput => VertexKind::WOutput,
        VType::ZBox => VertexKind::ZBox,
    }
}

/// `GraphLike::phase`: the phase of vertex `v`.
#[verifier::external_body]
pub(crate) fn vertex_phase(g: &Graph, v: usize) -> (r: Phase)
    requires
        spiders(*g).dom().contains(v),
    ensures
        r == spiders(*g)[v].phase,
{
    g.phase(v)
}

/// `Phase::to_rational` and `Ratio::denom`: the denominator of the phase.
#[verifier::external_body]
pub(crate) fn phase_denominator(p: Phase) -> (r: i64)
    ensures
        r == denominator(p),
{
    *p.to_rational().denom()
}

/// `GraphLike::vertices`: the vertices in increasing order.
#[verifier::external_body]
pub(crate) fn vertices(g: &Graph) -> (r: Vec<usize>)
    ensures
        r@ == vertex_list(*g),
        forall|v: usize| r@.contains(v) <==> spiders(*g).dom().contains(v),
        forall|i: int, j: int| 0 <= i < j < r@.len() ==> r@[i] < r@[j],
{
    g.vertices().collect()
}

/// `GraphLike::edges`: the edges as triples of the smaller endpoint, the larger
/// endpoint and the kind. They are read off the neighbour lists: an entry of
/// the list of a vertex is listed where the neighbour is not the smaller of
/// the two.
#[verifier::external_body]
pub(crate) fn edges(g: &Graph) -> (r: Vec<(usize, usize, EdgeKind)>)
    ensures
        r@ == edge_list(*g),
        forall|i: int|
            0 <= i < r@.len() ==> {
                &&& (#[trigger] r@[i]).0 <= r@[i].1
                &&& spiders(*g).dom().contains(r@[i].0)
                &&& adjacency(*g)[r@[i].0].contains((r@[i].1, r@[i].2))
            },
        forall|u: usize, v: usize, k: EdgeKind|
            spiders(*g).dom().contains(u) && u <= v && adjacency(*g)[u].contains((v, k))
                ==> #[trigger] r@.contains((u, v, k)),
{
    g.edges().map(|(u, v, k)| (u, v, match k {
        EType::N => EdgeKind::Plain,
        EType::H => EdgeKind::Hadamard,
        EType::Wio => EdgeKind::Wio,
    })).collect()
}

/// `GraphLike::incident_edges`: the neighbour list of vertex `v`.
#[verifier::external_body]
pub(crate) fn incident_edges(g: &Graph, v: usize) -> (r: Vec<(usize, EdgeKind)>)
    requires
        spiders(*g).dom().contains(v),
    ensures
        r@ == adjacency(*g)[v],
{
    g.incident_edges(v).map(|(u, k)| (u, match k {
        EType::N => EdgeKind::Plain,
        EType::H => EdgeKind::Hadamard,
        EType::Wio => EdgeKind::Wio,
    })).collect()
}

/// `GraphLike::inputs`: the input vertices, in order.
#[verifier::external_body]
pub(crate) fn inputs(g: &Graph) -> (r: Vec<usize>)
    ensures
        r@ == input_list(*g),
{
    g.inputs().clone()
}

/// `GraphLike::outputs`: the output vertices, in order.
#[verifier::external_body]
pub(crate) fn outputs(g: &Graph) -> (r: Vec<usize>)
    ensures
        r@ == output_list(*g),
{
    g.outputs().clone()
}

/// `GraphLike::set_inputs`: replaces the input list and nothing else.
#[verifier::external_body]
pub(crate) fn set_inputs(g: &mut Graph, inputs: Vec<usize>)
    ensures
        input_list(*final(g)) == inputs@,
        spiders(*final(g)) == spiders(*old(g)),
        adjacency(*final(g)) == adjacency(*old(g)),
        output_list(*final(g)) == output_list(*old(g)),
        vacancies(*final(g)) == vacancies(*old(g)),
        slot_count(*final(g)) == slot_count(*old(g)),
        vertex_list(*final(g)) == vertex_list(*old(g)),
        edge_list(*final(g)) == edge_list(*old(g)),
{
    g.set_inputs(inputs)
}

/// `GraphLike::set_outputs`: replaces the output list and nothing else.
#[verifier::external_body]
pub(crate) fn set_outputs(g: &mut Graph, outputs: Vec<usize>)
    ensures
        output_list(*final(g)) == outputs@,
        spiders(*final(g)) == spiders(*old(g)),
        adjacency(*final(g)) == adjacency(*old(g)),
        input_list(*final(g)) == input_list(*old(g)),
        vacancies(*final(g)) == vacancies(*old(g)),
        slot_count(*final(g)) == slot_count(*old(g)),
        vertex_list(*final(g)) == vertex_list(*old(g)),
        edge_list(*final(g)) == edge_list(*old(g)),
{
    g.set_outputs(outputs)
}

/// `GraphLike::set_phase`: replaces the phase of vertex `v` and nothing else.
#[verifier::external_body]
pub(crate) fn set_phase(g: &mut Graph, v: usize, phase: Phase)
    requires
        spiders(*old(g)).dom().contains(v),
    ensures
        same_wiring(*old(g), *final(g)),
        spiders(*final(g)) == model(*old(g)).with_phase(v, phase).spiders,
{
    g.set_phase(v, phase)
}

/// `GraphLike::set_vertex_type`: replaces the kind of vertex `v` and nothing else.
#[verifier::external_body]
pub(crate) fn set_kind(g: &mut Graph, v: usize, kind: VertexKind)
    requires
        spiders(*old(g)).dom().contains(v),
    ensures
        same_wiring(*old(g), *final(g)),
        spiders(*final(g)) == model(*old(g)).with_kind(v, kind).spiders,
{
    g.set_vertex_type(v, match kind {
        VertexKind::Boundary => VType::B,
        VertexKind::Z => VType::Z,
        VertexKind::X => VType::X,
        VertexKind::HBox => VType::H,
        VertexKind::WInput => VType::WInput,
        VertexKind::WOutput => VType::WOutput,
        VertexKind::ZBox => VType::ZBox,
    })
}

/// `GraphLike::remove_vertex`: deletes vertex `v` with its edges, and leaves its
/// index free. The input and output lists stay as they are.
#[verifier::external_body]
pub(crate) fn remove_vertex(g: &mut Graph, v: usize)
    requires
        well_formed(*old(g)),
        spiders(*old(g)).dom().contains(v),
    ensures
        well_formed(*final(g)),
        model(*final(g)) == model(*old(g)).without_vertex(v),
{
    g.remove_vertex(v)
}

/// `GraphLike::add_vertex_with_phase`: adds a vertex without edges, at the free
/// index that was left last or, where none is free, at a new one.
#[verifier::external_body]
pub(crate) fn add_vertex_with_phase(g: &mut Graph, kind: VertexKind, phase: Phase) -> (v: usize)
    requires
        well_formed(*old(g)),
    ensures
        v == model(*old(g)).next_vertex(),
        well_formed(*final(g)),
        model(*final(g)) == model(*old(g)).with_new_vertex((Spider { kind, phase })),
{
    let ty = match kind {
        VertexKind::Boundary => VType::B,
        VertexKind::Z => VType::Z,
        VertexKind::X => VType::X,
        VertexKind::HBox => VType::H,
        VertexKind::WInput => VType::WInput,
        VertexKind::WOutput => VType::WOutput,
        VertexKind::ZBox => VType::ZBox,
    };
    g.add_vertex_with_phase(ty, phase)
}

/// `GraphLike::add_edge_smart`: inserts an edge and simplifies a loop or a
/// parallel edge away, as [`Diagram::smart_insert`] says. Where the insertion
/// turns, the phase of `s` becomes what adding a half turn to it gives; the
/// sum is computed in machine integers, which is why the phase must have room.
/// The scalar of the graph, which the model leaves out, absorbs the factor of
/// each simplification.
#[verifier::external_body]
pub(crate) fn add_edge_smart(g: &mut Graph, s: usize, t: usize, kind: EdgeKind)
    requires
        well_formed(*old(g)),
        model(*old(g)).admits_edge(s, t, kind),
    ensures
        well_formed(*final(g)),
        model(*final(g)) == model(*old(g)).smart_insert(s, t, kind),
        spiders(*final(g))[s].phase == if model(*old(g)).turns(s, t, kind) {
            half_turn_added(spiders(*old(g))[s].phase)
        } else {
            spiders(*old(g))[s].phase
        },
{
    let ety = match kind {
        EdgeKind::Plain => EType::N,
        EdgeKind::Hadamard => EType::H,
        EdgeKind::Wio => EType::Wio,
    };
    g.add_edge_smart(s, t, ety)
}

/// The kind of the edge between `s` and `t`, if there is one.
fn wire_between(g: &Graph, s: usize, t: usize) -> (r: Option<EdgeKind>)
    requires
        well_formed(*g),
    ensures
        r == model(*g).wire(s, t),
{
    if !contains_vertex(g, s) {
        return None;
    }
    let nhd = incident_edges(g, s);
    let mut i: usize = 0;
    while i < nhd.len()
        invariant
            i <= nhd.len(),
            well_formed(*g),
            spiders(*g).dom().contains(s),
            nhd@ == adjacency(*g)[s],
            forall|j: int| 0 <= j < i ==> (#[trigger] nhd@[j]).0 != t,
        decreases nhd.len() - i,
    {
        if nhd[i].0 == t {
            proof {
                let k = nhd@[i as int].1;
                assert(nhd@[i as int] == (t, k));
                assert(joins(adjacency(*g)[(s, t).0], (s, t).1, k));
                assert(wires(*g).dom().contains((s, t)));
                let chosen = wires(*g)[(s, t)];
                assert(joins(nhd@, t, chosen));
                let j = choose|j: int| 0 <= j < nhd@.len() && nhd@[j] == (t, chosen);
                assert(neighbourhood_ok(*g, s, nhd@));
                assert(nhd@[j].0 == nhd@[i as int].0);
                assert(j == i);
            }
            return Some(nhd[i].1);
        }
        i += 1;
    }
    proof {
        if exists|k: EdgeKind| #[trigger] joins(nhd@, t, k) {
            let k = choose|k: EdgeKind| #[trigger] joins(nhd@, t, k);
            let j = choose|j: int| 0 <= j < nhd@.len() && nhd@[j] == (t, k);
            assert(nhd@[j].0 == t);
        }
    }
    None
}

/// The kind of edge that leaves a parallel edge between vertices of kinds `a`
/// and `b` as it is.
fn neutral_kind(a: VertexKind, b: VertexKind) -> (r: EdgeKind)
    ensures
        r == if a == b {
            EdgeKind::Plain
        } else {
            EdgeKind::Hadamard
        },
{
    if a == b {
        EdgeKind::Plain
    } else {
        EdgeKind::Hadamard
    }
}

/// Whether an edge of kind `kind` between `s` and `t` can be inserted with
/// simplification.
pub fn admits_edge(g: &Graph, s: usize, t: usize, kind: EdgeKind) -> (r: bool)
    requires
        well_formed(*g),
    ensures
        r == model(*g).admits_edge(s, t, kind),
{
    if !contains_vertex(g, s) || !contains_vertex(g, t) {
        return false;
    }
    let at_s = vertex_kind(g, s);
    let turns = if s == t {
        if !at_s.spider() {
            return false;
        }
        kind == EdgeKind::Hadamard
    } else {
        match wire_between(g, s, t) {
            None => false,
            Some(e) => {
                let at_t = vertex_kind(g, t);
                if !at_s.spider() || !at_t.spider() || kind == EdgeKind::Wio || e == EdgeKind::Wio {
                    return false;
                }
                let neutral = neutral_kind(at_s, at_t);
                (e == neutral) != (kind == neutral)
            },
        }
    };
    !turns || phase_denominator(vertex_phase(g, s)) <= HALF_TURN_ROOM
}

/// Whether `nhd` holds the neighbour `u` with the edge kind `k`.
fn records(nhd: &Vec<(usize, EdgeKind)>, u: usize, k: EdgeKind) -> (r: bool)
    ensures
        r == nhd@.contains((u, k)),
{
    let mut i: usize = 0;
    while i < nhd.len()
        invariant
            i <= nhd.len(),
            forall|j: int| 0 <= j < i ==> nhd@[j] != (u, k),
        decreases nhd.len() - i,
    {
        if nhd[i].0 == u && nhd[i].1 == k {
            return true;
        }
        i += 1;
    }
    false
}

/// Whether no entry of `nhd` after entry `i` has the neighbour of entry `i`.
fn unrepeated(nhd: &Vec<(usize, EdgeKind)>, i: usize) -> (r: bool)
    requires
        i < nhd.len(),
    ensures
        r == forall|j: int| i < j < nhd@.len() ==> nhd@[i as int].0 != (#[trigger] nhd@[j]).0,
{
    let mut j: usize = i + 1;
    while j < nhd.len()
        invariant
            i < j <= nhd.len(),
            forall|a: int| i < a < j ==> nhd@[i as int].0 != (#[trigger] nhd@[a]).0,
        decreases nhd.len() - j,
    {
        if nhd[j].0 == nhd[i].0 {
            return false;
        }
        j += 1;
    }
    true
}

/// Whether the neighbour list of vertex `v` is as a simple graph has it.
fn neighbourhood_is_ok(g: &Graph, v: usize) -> (r: bool)
    requires
        spiders(*g).dom().contains(v),
    ensures
        r == neighbourhood_ok(*g, v, adjacency(*g)[v]),
{
    let nhd = incident_edges(g, v);
    let mut i: usize = 0;
    while i < nhd.len()
        invariant
            i <= nhd.len(),
            nhd@ == adjacency(*g)[v],
            forall|a: int|
                0 <= a < i ==> {
                    &&& (#[trigger] nhd@[a]).0 != v
                    &&& spiders(*g).dom().contains(nhd@[a].0)
                    &&& adjacency(*g)[nhd@[a].0].contains((v, nhd@[a].1))
                },
            forall|a: int, b: int|
                0 <= a < i && a < b < nhd@.len() ==> (#[trigger] nhd@[a]).0 != (
                #[trigger] nhd@[b]).0,
        decreases nhd.len() - i,
    {
        let u = nhd[i].0;
        let k = nhd[i].1;
        if u == v || !contains_vertex(g, u) {
            return false;
        }
        let back = incident_edges(g, u);
        if !records(&back, v, k) {
            return false;
        }
        if !unrepeated(&nhd, i) {
            return false;
        }
        i += 1;
    }
    true
}

/// Whether the graph is simple.
pub fn is_simple(g: &Graph) -> (r: bool)
    ensures
        r == simple(*g),
{
    let all = vertices(g);
    let mut i: usize = 0;
    while i < all.len()
        invariant
            i <= all.len(),
            forall|v: usize| all@.contains(v) <==> spiders(*g).dom().contains(v),
            forall|a: int|
                0 <= a < i ==> neighbourhood_ok(*g, #[trigger] all@[a], adjacency(*g)[all@[a]]),
        decreases all.len() - i,
    {
        assert(all@.contains(all@[i as int]));
        if !neighbourhood_is_ok(g, all[i]) {
            return false;
        }
        i += 1;
    }
    assert forall|v: usize| #[trigger] spiders(*g).dom().contains(v) implies neighbourhood_ok(
        *g,
        v,
        adjacency(*g)[v],
    ) by {
        assert(all@.contains(v));
        let a = choose|a: int| 0 <= a < all@.len() && all@[a] == v;
        assert(neighbourhood_ok(*g, all@[a], adjacency(*g)[all@[a]]));
    }
    true
}

} // verus!
