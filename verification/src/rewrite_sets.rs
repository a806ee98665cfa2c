//! Sets of causal-flow preserving rewrite rules, as they are loaded from a
//! rule file.

use crate::diagram::{
    adjacency, contains_vertex, incident_edges, input_list, inputs, output_list, outputs, spiders,
    vertices,
};
use crate::faults::{first_fault, lemma_fault_stays};
use quizx::vec_graph::Graph;
use std::collections::HashMap;
use vstd::prelude::*;

verus! {

/// The views of a list of names.
pub open spec fn texts(names: Seq<String>) -> Seq<Seq<char>> {
    names.map_values(|s: String| s@)
}

/// One admissible assignment of input and output roles to boundary vertices,
/// by name.
#[derive(Debug, Clone, PartialEq, Eq, Hash)]
pub struct RewriteIos(Vec<String>, Vec<String>);

impl View for RewriteIos {
    type V = (Seq<Seq<char>>, Seq<Seq<char>>);

    closed spec fn view(&self) -> (Seq<Seq<char>>, Seq<Seq<char>>) {
        (texts(self.0@), texts(self.1@))
    }
}

impl RewriteIos {
    /// An assignment with the given input names and output names, in order.
    pub fn new(inputs: Vec<String>, outputs: Vec<String>) -> (r: Self)
        ensures
            r@ == (texts(inputs@), texts(outputs@)),
    {
        Self(inputs, outputs)
    }

    /// The input names, in order.
    pub fn inputs(&self) -> (r: &[String])
        ensures
            texts(r@) == self@.0,
    {
        self.0.as_slice()
    }

    /// The output names, in order.
    pub fn outputs(&self) -> (r: &[String])
        ensures
            texts(r@) == self@.1,
    {
        self.1.as_slice()
    }
}

/// Why a document, or a graph and a list of names, do not make a decoded graph.
#[derive(Clone, Copy, Debug, PartialEq, Eq, Structural)]
pub enum DecodeError {
    /// A name is given to an index that is no vertex of the graph.
    UnknownVertex,
    /// Two names are given to one vertex.
    DuplicateVertex,
    /// One name is given to two vertices.
    DuplicateName,
    /// A vertex of the graph has no name.
    UnnamedVertex,
    /// An input, an output or an end of an edge is the name of nothing.
    UnknownName,
    /// An edge is parallel to another one, or is a loop, where the diagram
    /// algebra has no rule to simplify it away, or where simplifying it away
    /// adds a half turn to a phase that has no room for it.
    UnsupportedEdge,
    /// An edge joins two Hadamard edges.
    ChainedHadamards,
    /// A Hadamard edge has not exactly two ends.
    HadamardEnds,
}

/// A graph together with the names that its vertices have in the document it
/// was decoded from. Every vertex has one name, and no two share one.
#[derive(Debug)]
pub struct DecodedGraph {
    g: Graph,
    /// The name of each vertex, by vertex index.
    names: Vec<Option<String>>,
    /// Where a name was filed. It speeds the lookup by name up; what it
    /// answers is checked against `names`.
    index: HashMap<String, usize>,
}

/// Whether `table` holds `name` at `v`.
pub open spec fn filed(table: Seq<Option<String>>, v: usize, name: Seq<char>) -> bool {
    v < table.len() && table[v as int] is Some && table[v as int]->Some_0@ == name
}

/// Whether no two entries of `table` hold the same name.
pub open spec fn distinct(table: Seq<Option<String>>) -> bool {
    forall|u: usize, v: usize, name: Seq<char>|
        #![trigger filed(table, u, name), filed(table, v, name)]
        filed(table, u, name) && filed(table, v, name) ==> u == v
}

/// What is wrong with each entry of `pairs`, given the entries before it: its
/// index is no vertex of `g`, or an earlier entry has the same index, or an
/// earlier entry has the same name.
pub open spec fn entry_fault(g: Graph, pairs: Seq<(String, usize)>) -> spec_fn(int) -> Option<
    DecodeError,
> {
    |i: int|
        if !spiders(g).dom().contains(pairs[i].1) {
            Some(DecodeError::UnknownVertex)
        } else if exists|j: int| 0 <= j < i && pairs[j].1 == pairs[i].1 {
            Some(DecodeError::DuplicateVertex)
        } else if exists|j: int| 0 <= j < i && pairs[j].0@ == pairs[i].0@ {
            Some(DecodeError::DuplicateName)
        } else {
            None
        }
}

/// Whether some entry of `pairs` gives vertex `v` a name.
pub open spec fn named(pairs: Seq<(String, usize)>, v: usize) -> bool {
    exists|i: int| 0 <= i < pairs.len() && pairs[i].1 == v
}

/// Why `pairs` does not name the vertices of `g` one for one; `None` where it
/// does.
pub open spec fn naming_error(g: Graph, pairs: Seq<(String, usize)>) -> Option<DecodeError> {
    match first_fault(entry_fault(g, pairs), pairs.len()) {
        Some(e) => Some(e),
        None => if exists|v: usize| spiders(g).dom().contains(v) && !named(pairs, v) {
            Some(DecodeError::UnnamedVertex)
        } else {
            None
        },
    }
}

impl DecodedGraph {
    #[verifier::type_invariant]
    spec fn inv(self) -> bool {
        &&& distinct(self.names@)
        &&& forall|v: usize|
            spiders(self.g).dom().contains(v) <==> v < self.names@.len() && (
            #[trigger] self.names@[v as int]) is Some
    }

    /// The graph.
    pub closed spec fn graph_spec(self) -> Graph {
        self.g
    }

    /// The name of vertex `v`, if it has one.
    pub closed spec fn name_spec(self, v: usize) -> Option<Seq<char>> {
        if v < self.names@.len() && self.names@[v as int] is Some {
            Some(self.names@[v as int]->Some_0@)
        } else {
            None
        }
    }

    /// Takes a graph and the names of its vertices, as pairs of a name and a
    /// vertex index. The pairs must name the vertices one for one.
    #[verifier::loop_isolation(false)]
    pub fn new(g: Graph, pairs: Vec<(String, usize)>) -> (r: Result<Self, DecodeError>)
        ensures
            match naming_error(g, pairs@) {
                Some(e) => r == Err::<Self, DecodeError>(e),
                None => r is Ok && r->Ok_0.graph_spec() == g && forall|i: int|
                    0 <= i < pairs@.len() ==> r->Ok_0.name_spec((#[trigger] pairs@[i]).1) == Some(
                        pairs@[i].0@,
                    ),
            },
    {
        let mut names: Vec<Option<String>> = Vec::new();
        let mut index: HashMap<String, usize> = HashMap::new();
        let mut i: usize = 0;
        while i < pairs.len()
            invariant
                i <= pairs.len(),
                first_fault(entry_fault(g, pairs@), i as nat) is None,
                distinct(names@),
                forall|j: int|
                    0 <= j < i ==> spiders(g).dom().contains((#[trigger] pairs@[j]).1) && filed(
                        names@,
                        pairs@[j].1,
                        pairs@[j].0@,
                    ),
                forall|v: usize|
                    v < names@.len() && (#[trigger] names@[v as int]) is Some ==> exists|j: int|
                        0 <= j < i && pairs@[j].1 == v,
            decreases pairs.len() - i,
        {
            let v = pairs[i].1;
            let name = pairs[i].0.clone();
            if !contains_vertex(&g, v) {
                proof {
                    lemma_fault_stays(entry_fault(g, pairs@), (i + 1) as nat, pairs@.len());
                }
                return Err(DecodeError::UnknownVertex);
            }
            while names.len() <= v
                invariant
                    distinct(names@),
                    forall|j: int|
                        0 <= j < i ==> filed(names@, (#[trigger] pairs@[j]).1, pairs@[j].0@),
                    forall|u: usize|
                        u < names@.len() && (#[trigger] names@[u as int]) is Some ==> exists|j: int|
                            0 <= j < i && pairs@[j].1 == u,
                decreases v + 1 - names.len(),
            {
                let ghost before = names@;
                names.push(None);
                proof {
                    assert forall|u: usize, n: Seq<char>| filed(names@, u, n) implies filed(
                        before,
                        u,
                        n,
                    ) by {}
                    assert forall|u: usize|
                        u < names@.len() && (#[trigger] names@[u as int]) is Some implies exists|
                        j: int,
                    | 0 <= j < i && pairs@[j].1 == u by {
                        assert(before[u as int] is Some);
                    }
                }
            }
            if names[v].is_some() {
                proof {
                    let j = choose|j: int| 0 <= j < i && pairs@[j].1 == v;
                    assert(entry_fault(g, pairs@)(i as int) == Some(DecodeError::DuplicateVertex));
                    lemma_fault_stays(entry_fault(g, pairs@), (i + 1) as nat, pairs@.len());
                }
                return Err(DecodeError::DuplicateVertex);
            }
            let taken = search(&names, &name);
            if taken.is_some() {
                proof {
                    let u = taken->Some_0;
                    assert(names@[u as int] is Some);
                    let j = choose|j: int| 0 <= j < i && pairs@[j].1 == u;
                    assert(filed(names@, pairs@[j].1, pairs@[j].0@));
                    assert(pairs@[j].0@ == pairs@[i as int].0@);
                    assert(!exists|j: int| 0 <= j < i && pairs@[j].1 == pairs@[i as int].1) by {
                        if exists|j: int| 0 <= j < i && pairs@[j].1 == pairs@[i as int].1 {
                            let k = choose|k: int| 0 <= k < i && pairs@[k].1 == pairs@[i as int].1;
                            assert(filed(names@, pairs@[k].1, pairs@[k].0@));
                        }
                    }
                    assert(entry_fault(g, pairs@)(i as int) == Some(DecodeError::DuplicateName));
                    lemma_fault_stays(entry_fault(g, pairs@), (i + 1) as nat, pairs@.len());
                }
                return Err(DecodeError::DuplicateName);
            }
            proof {
                assert(!exists|j: int| 0 <= j < i && pairs@[j].1 == pairs@[i as int].1) by {
                    if exists|j: int| 0 <= j < i && pairs@[j].1 == pairs@[i as int].1 {
                        let k = choose|k: int| 0 <= k < i && pairs@[k].1 == pairs@[i as int].1;
                        assert(filed(names@, pairs@[k].1, pairs@[k].0@));
                    }
                }
                assert(!exists|j: int| 0 <= j < i && pairs@[j].0@ == pairs@[i as int].0@) by {
                    if exists|j: int| 0 <= j < i && pairs@[j].0@ == pairs@[i as int].0@ {
                        let k = choose|k: int| 0 <= k < i && pairs@[k].0@ == pairs@[i as int].0@;
                        assert(filed(names@, pairs@[k].1, name@));
                    }
                }
                assert(entry_fault(g, pairs@)(i as int) is None);
            }
            let ghost before = names@;
            index.insert(name.clone(), v);
            names.set(v, Some(name));
            proof {
                assert forall|u: usize, w: usize, n: Seq<char>|
                    #![trigger filed(names@, u, n), filed(names@, w, n)]
                    filed(names@, u, n) && filed(names@, w, n) implies u == w by {
                    if u != v {
                        assert(filed(before, u, n));
                    }
                    if w != v {
                        assert(filed(before, w, n));
                    }
                }
                assert forall|j: int| 0 <= j < i + 1 implies spiders(g).dom().contains(
                    (#[trigger] pairs@[j]).1,
                ) && filed(names@, pairs@[j].1, pairs@[j].0@) by {
                    if j < i {
                        assert(filed(before, pairs@[j].1, pairs@[j].0@));
                        assert(pairs@[j].1 != v);
                    }
                }
                assert forall|u: usize|
                    u < names@.len() && (#[trigger] names@[u as int]) is Some implies exists|
                    j: int,
                | 0 <= j < i + 1 && pairs@[j].1 == u by {
                    if u != v {
                        assert(before[u as int] is Some);
                        let j = choose|j: int| 0 <= j < i && pairs@[j].1 == u;
                        assert(0 <= j < i + 1 && pairs@[j].1 == u);
                    } else {
                        assert(0 <= i < i + 1 && pairs@[i as int].1 == u);
                    }
                }
            }
            i += 1;
        }
        let all = vertices(&g);
        let mut k: usize = 0;
        while k < all.len()
            invariant
                k <= all.len(),
                forall|j: int|
                    0 <= j < k ==> (#[trigger] all@[j]) < names@.len() && names@[all@[j] as int]
                        is Some,
            decreases all.len() - k,
        {
            let v = all[k];
            if v >= names.len() || names[v].is_none() {
                proof {
                    assert(all@.contains(v));
                    assert(!named(pairs@, v)) by {
                        if named(pairs@, v) {
                            let j = choose|j: int| 0 <= j < pairs@.len() && pairs@[j].1 == v;
                            assert(filed(names@, pairs@[j].1, pairs@[j].0@));
                        }
                    }
                }
                return Err(DecodeError::UnnamedVertex);
            }
            k += 1;
        }
        proof {
            assert forall|v: usize| spiders(g).dom().contains(v) implies named(pairs@, v) by {
                assert(all@.contains(v));
                let j = choose|j: int| 0 <= j < all@.len() && all@[j] == v;
                assert(names@[all@[j] as int] is Some);
            }
            assert forall|v: usize|
                spiders(g).dom().contains(v) <==> v < names@.len() && (
                #[trigger] names@[v as int]) is Some by {
                if spiders(g).dom().contains(v) {
                    assert(all@.contains(v));
                    let j = choose|j: int| 0 <= j < all@.len() && all@[j] == v;
                    assert(names@[all@[j] as int] is Some);
                }
                if v < names@.len() && names@[v as int] is Some {
                    let j = choose|j: int| 0 <= j < pairs@.len() && pairs@[j].1 == v;
                    assert(spiders(g).dom().contains(pairs@[j].1));
                }
            }
        }
        Ok(DecodedGraph { g, names, index })
    }

    /// The vertex called `name`, if there is one.
    pub closed spec fn vertex_spec(self, name: Seq<char>) -> Option<usize> {
        if exists|v: usize| filed(self.names@, v, name) {
            Some(choose|v: usize| filed(self.names@, v, name))
        } else {
            None
        }
    }

    /// The graph.
    pub fn graph(&self) -> (r: &Graph)
        ensures
            *r == self.graph_spec(),
    {
        &self.g
    }

    /// The name of vertex `v`; `None` where `v` is no vertex.
    pub fn name(&self, v: usize) -> (r: Option<&String>)
        ensures
            r is Some <==> spiders(self.graph_spec()).dom().contains(v),
            match r {
                Some(name) => self.name_spec(v) == Some(name@),
                None => self.name_spec(v) is None,
            },
    {
        proof {
            use_type_invariant(self);
        }
        if v < self.names.len() {
            self.names[v].as_ref()
        } else {
            None
        }
    }

    /// The vertex called `name`; `None` where no vertex is.
    pub fn from_name(&self, name: &String) -> (r: Option<usize>)
        ensures
            r == self.vertex_spec(name@),
            match r {
                Some(v) => self.name_spec(v) == Some(name@) && spiders(
                    self.graph_spec(),
                ).dom().contains(v),
                None => forall|v: usize| self.name_spec(v) != Some(name@),
            },
    {
        proof {
            use_type_invariant(self);
        }
        let hint = self.index.get(name);
        if let Some(at) = hint {
            let v = *at;
            if v < self.names.len() && holds(&self.names[v], name) {
                assert(filed(self.names@, v, name@));
                return Some(v);
            }
        }
        let r = search(&self.names, name);
        proof {
            if let Some(v) = r {
                assert(filed(self.names@, v, name@));
                assert(self.names@[v as int] is Some);
            } else {
                assert forall|v: usize| self.name_spec(v) != Some(name@) by {
                    assert(!filed(self.names@, v, name@));
                }
            }
        }
        r
    }
}

/// The vertices that `names` stand for in `g`, in order; `None` where one of
/// them is the name of no vertex.
pub open spec fn resolved(g: DecodedGraph, names: Seq<Seq<char>>) -> Option<Seq<usize>> {
    if forall|i: int| 0 <= i < names.len() ==> (#[trigger] g.vertex_spec(names[i])) is Some {
        Some(Seq::new(names.len(), |i: int| g.vertex_spec(names[i])->Some_0))
    } else {
        None
    }
}

/// The input and output vertices that `ios` stands for in `g`; `None` where
/// one of its names is the name of no vertex.
pub open spec fn oriented(g: DecodedGraph, ios: RewriteIos) -> Option<(Seq<usize>, Seq<usize>)> {
    match (resolved(g, ios@.0), resolved(g, ios@.1)) {
        (Some(ins), Some(outs)) => Some((ins, outs)),
        _ => None,
    }
}

/// The vertices that `names` stand for in `g`.
fn resolve(g: &DecodedGraph, names: &Vec<String>) -> (r: Option<Vec<usize>>)
    ensures
        match resolved(*g, texts(names@)) {
            Some(vs) => r is Some && r->Some_0@ == vs,
            None => r is None,
        },
{
    let mut found: Vec<usize> = Vec::new();
    let mut i: usize = 0;
    while i < names.len()
        invariant
            i <= names.len(),
            found@.len() == i,
            forall|j: int|
                0 <= j < i ==> g.vertex_spec(#[trigger] texts(names@)[j]) == Some(found@[j]),
        decreases names.len() - i,
    {
        match g.from_name(&names[i]) {
            None => {
                assert(g.vertex_spec(texts(names@)[i as int]) is None);
                return None;
            },
            Some(v) => {
                found.push(v);
            },
        }
        i += 1;
    }
    assert(found@ =~= resolved(*g, texts(names@))->Some_0);
    Some(found)
}

impl RewriteIos {
    /// The input and output vertices that the names stand for in `g`; `None`
    /// where one of them is the name of no vertex.
    pub fn translated(&self, g: &DecodedGraph) -> (r: Option<(Vec<usize>, Vec<usize>)>)
        ensures
            match oriented(*g, *self) {
                Some((ins, outs)) => r is Some && r->Some_0.0@ == ins && r->Some_0.1@ == outs,
                None => r is None,
            },
    {
        match resolve(g, &self.0) {
            None => None,
            Some(ins) => match resolve(g, &self.1) {
                None => None,
                Some(outs) => Some((ins, outs)),
            },
        }
    }
}

/// The inputs of a graph followed by its outputs.
pub open spec fn terminals(g: Graph) -> Seq<usize> {
    input_list(g) + output_list(g)
}

/// Whether `t` is a vertex of `g` with exactly one neighbour, which is a vertex.
pub open spec fn plain_end(g: Graph, t: usize) -> bool {
    &&& spiders(g).dom().contains(t)
    &&& adjacency(g)[t].len() == 1
    &&& spiders(g).dom().contains(adjacency(g)[t][0].0)
}

/// The border of a rule graph: the one neighbour of each input and then of
/// each output, in order. `None` where an input or output is no vertex, or
/// has not exactly one neighbour.
pub open spec fn border_of(g: Graph) -> Option<Seq<usize>> {
    if forall|i: int| 0 <= i < terminals(g).len() ==> plain_end(g, #[trigger] terminals(g)[i]) {
        Some(Seq::new(terminals(g).len(), |i: int| adjacency(g)[terminals(g)[i]][0].0))
    } else {
        None
    }
}

/// The border of a rule graph.
pub fn border(g: &Graph) -> (r: Option<Vec<usize>>)
    ensures
        match border_of(*g) {
            Some(b) => r is Some && r->Some_0@ == b,
            None => r is None,
        },
{
    let ins = inputs(g);
    let outs = outputs(g);
    let ghost ends = terminals(*g);
    let mut found: Vec<usize> = Vec::new();
    let mut i: usize = 0;
    while i < ins.len()
        invariant
            i <= ins.len(),
            ins@ == input_list(*g),
            ends == terminals(*g),
            found@.len() == i,
            forall|j: int|
                0 <= j < i ==> plain_end(*g, #[trigger] ends[j]) && found@[j] == adjacency(
                    *g,
                )[ends[j]][0].0,
        decreases ins.len() - i,
    {
        match end_of(g, ins[i]) {
            None => {
                assert(!plain_end(*g, ends[i as int]));
                return None;
            },
            Some(v) => {
                found.push(v);
            },
        }
        i += 1;
    }
    let mut k: usize = 0;
    while k < outs.len()
        invariant
            k <= outs.len(),
            ins@ == input_list(*g),
            outs@ == output_list(*g),
            ends == terminals(*g),
            found@.len() == ins@.len() + k,
            forall|j: int|
                0 <= j < ins@.len() + k ==> plain_end(*g, #[trigger] ends[j]) && found@[j]
                    == adjacency(*g)[ends[j]][0].0,
        decreases outs.len() - k,
    {
        match end_of(g, outs[k]) {
            None => {
                assert(!plain_end(*g, ends[ins@.len() + k]));
                return None;
            },
            Some(v) => {
                found.push(v);
            },
        }
        k += 1;
    }
    assert(found@ =~= border_of(*g)->Some_0);
    Some(found)
}

/// The one neighbour of `t`.
fn end_of(g: &Graph, t: usize) -> (r: Option<usize>)
    ensures
        r is Some <==> plain_end(*g, t),
        r is Some ==> r->Some_0 == adjacency(*g)[t][0].0,
{
    if !contains_vertex(g, t) {
        return None;
    }
    let nhd = incident_edges(g, t);
    if nhd.len() != 1 {
        return None;
    }
    let v = nhd[0].0;
    if contains_vertex(g, v) {
        Some(v)
    } else {
        None
    }
}

/// Whether `entry` holds `name`.
fn holds(entry: &Option<String>, name: &String) -> (r: bool)
    ensures
        r == (*entry is Some && entry->Some_0@ == name@),
{
    match entry {
        Some(found) => found.eq(name),
        None => false,
    }
}

/// The index at which `table` holds `name`, by going through the table.
fn search(table: &Vec<Option<String>>, name: &String) -> (r: Option<usize>)
    ensures
        match r {
            Some(v) => filed(table@, v, name@),
            None => forall|v: usize| !filed(table@, v, name@),
        },
{
    let mut v: usize = 0;
    while v < table.len()
        invariant
            v <= table.len(),
            forall|u: usize| u < v ==> !filed(table@, u, name@),
        decreases table.len() - v,
    {
        if holds(&table[v], name) {
            return Some(v);
        }
        v += 1;
    }
    None
}

/// One replacement for the left-hand side of a rule set.
#[derive(Debug)]
pub struct RewriteRhs {
    /// By how many two-qubit gates the author expects this replacement to
    /// undercut the left-hand side. An estimate; the rewriter does not use it.
    pub reduction: isize,
    /// The replacement graph.
    pub g: DecodedGraph,
    /// The admissible input/output assignments of its boundary vertices.
    pub ios: Vec<RewriteIos>,
    /// For a local complementation: the vertices that were left unfused.
    pub unfused: Option<Vec<usize>>,
    /// For a pivot: the vertices left unfused at the first pivot vertex.
    pub unfused1: Option<Vec<usize>>,
    /// For a pivot: the vertices left unfused at the second pivot vertex.
    pub unfused2: Option<Vec<usize>>,
}

/// The left-hand side of a rule set: its graph and the admissible
/// input/output assignments of its boundary vertices.
#[derive(Debug)]
pub struct RewriteLhs<'a> {
    g: &'a DecodedGraph,
    ios: &'a Vec<RewriteIos>,
}

/// A rule set: a left-hand side, the input/output assignments under which it
/// may be matched, and the replacements to choose from.
#[derive(Debug)]
pub struct RewriteSet {
    lhs: DecodedGraph,
    lhs_ios: Vec<RewriteIos>,
    rhss: Vec<RewriteRhs>,
}

/// What the two sides of a rule have in common.
pub trait RuleSide {
    /// The decoded graph of the side.
    spec fn side_graph(&self) -> DecodedGraph;

    /// The input/output assignments of the side, by name.
    spec fn side_ios(&self) -> Seq<RewriteIos>;

    /// The decoded graph of the side.
    fn decoded_graph(&self) -> (r: &DecodedGraph)
        ensures
            *r == self.side_graph(),
    ;

    /// The input/output assignments of the side, by name.
    fn decoded_ios(&self) -> (r: &[RewriteIos])
        ensures
            r@ == self.side_ios(),
    ;

    /// The graph of the side.
    fn graph(&self) -> (r: &Graph)
        ensures
            *r == self.side_graph().graph_spec(),
    {
        self.decoded_graph().graph()
    }

    /// The border of the side: the one neighbour of each input and then of
    /// each output of its graph. `None` where an input or output is no vertex
    /// or has not exactly one neighbour.
    fn boundary(&self) -> (r: Option<Vec<usize>>)
        ensures
            match border_of(self.side_graph().graph_spec()) {
                Some(b) => r is Some && r->Some_0@ == b,
                None => r is None,
            },
    {
        border(self.graph())
    }

    /// The input/output assignments of the side, as vertices; or the place of
    /// the first assignment that holds the name of no vertex.
    fn ios(&self) -> (r: Result<Vec<(Vec<usize>, Vec<usize>)>, usize>)
        ensures
            match r {
                Ok(all) => all@.len() == self.side_ios().len() && forall|i: int|
                    0 <= i < self.side_ios().len() ==> (#[trigger] oriented(
                        self.side_graph(),
                        self.side_ios()[i],
                    )) == Some((all@[i].0@, all@[i].1@)),
                Err(at) => at < self.side_ios().len() && oriented(
                    self.side_graph(),
                    self.side_ios()[at as int],
                ) is None && forall|i: int|
                    0 <= i < at ==> (#[trigger] oriented(self.side_graph(), self.side_ios()[i]))
                        is Some,
            },
    {
        let g = self.decoded_graph();
        let all = self.decoded_ios();
        let mut found: Vec<(Vec<usize>, Vec<usize>)> = Vec::new();
        let mut i: usize = 0;
        while i < all.len()
            invariant
                i <= all.len(),
                all@ == self.side_ios(),
                *g == self.side_graph(),
                found@.len() == i,
                forall|j: int|
                    0 <= j < i ==> (#[trigger] oriented(*g, all@[j])) == Some(
                        (found@[j].0@, found@[j].1@),
                    ),
            decreases all.len() - i,
        {
            match all[i].translated(g) {
                None => {
                    assert(oriented(*g, all@[i as int]) is None);
                    return Err(i);
                },
                Some(pair) => {
                    found.push(pair);
                },
            }
            i += 1;
        }
        Ok(found)
    }
}

impl RewriteRhs {
    /// A replacement with the given expected reduction, graph and
    /// input/output assignments, and with the lists of unfused vertices that
    /// a local complementation or a pivot comes with.
    pub fn new(
        reduction: isize,
        g: DecodedGraph,
        ios: Vec<RewriteIos>,
        unfused: Option<Vec<usize>>,
        unfused1: Option<Vec<usize>>,
        unfused2: Option<Vec<usize>>,
    ) -> (r: Self)
        ensures
            r.side_graph() == g,
            r.side_ios() == ios@,
            r.reduction == reduction,
            r.unfused == unfused,
            r.unfused1 == unfused1,
            r.unfused2 == unfused2,
    {
        RewriteRhs { reduction, g, ios, unfused, unfused1, unfused2 }
    }
}

impl RuleSide for RewriteRhs {
    open spec fn side_graph(&self) -> DecodedGraph {
        self.g
    }

    open spec fn side_ios(&self) -> Seq<RewriteIos> {
        self.ios@
    }

    fn decoded_graph(&self) -> (r: &DecodedGraph) {
        &self.g
    }

    fn decoded_ios(&self) -> (r: &[RewriteIos]) {
        self.ios.as_slice()
    }
}

impl<'a> RewriteLhs<'a> {
    /// The left-hand side with the given graph and input/output assignments.
    pub fn new(g: &'a DecodedGraph, ios: &'a Vec<RewriteIos>) -> (r: Self)
        ensures
            r.side_graph() == *g,
            r.side_ios() == ios@,
    {
        Self { g, ios }
    }
}

impl<'a> RuleSide for RewriteLhs<'a> {
    closed spec fn side_graph(&self) -> DecodedGraph {
        *self.g
    }

    closed spec fn side_ios(&self) -> Seq<RewriteIos> {
        self.ios@
    }

    fn decoded_graph(&self) -> (r: &DecodedGraph) {
        self.g
    }

    fn decoded_ios(&self) -> (r: &[RewriteIos]) {
        self.ios.as_slice()
    }
}

impl RewriteSet {
    /// The left-hand side graph.
    pub closed spec fn lhs_graph(self) -> DecodedGraph {
        self.lhs
    }

    /// The input/output assignments of the left-hand side.
    pub closed spec fn lhs_ios(self) -> Seq<RewriteIos> {
        self.lhs_ios@
    }

    /// The replacements.
    pub closed spec fn rhss_spec(self) -> Seq<RewriteRhs> {
        self.rhss@
    }

    /// A rule set with the given left-hand side, the input/output
    /// assignments under which it may be matched, and its replacements.
    pub fn new(lhs: DecodedGraph, lhs_ios: Vec<RewriteIos>, rhss: Vec<RewriteRhs>) -> (r: Self)
        ensures
            r.lhs_graph() == lhs,
            r.lhs_ios() == lhs_ios@,
            r.rhss_spec() == rhss@,
    {
        RewriteSet { lhs, lhs_ios, rhss }
    }

    /// The left-hand side of the rule.
    pub fn lhs(&self) -> (r: RewriteLhs<'_>)
        ensures
            r.side_graph() == self.lhs_graph(),
            r.side_ios() == self.lhs_ios(),
    {
        RewriteLhs::new(&self.lhs, &self.lhs_ios)
    }

    /// The replacements to choose from.
    pub fn rhss(&self) -> (r: &[RewriteRhs])
        ensures
            r@ == self.rhss_spec(),
    {
        self.rhss.as_slice()
    }
}

} // verus!
