//! What replacing a matched region does to a diagram, as mathematics.
//!
//! A rewrite deletes the interior of the match, overwrites the vertices on the
//! border of the match with the border of the replacement, adds the interior
//! of the replacement and reconnects it. Each step is defined here on the
//! abstract [`Diagram`], together with the laws that hold of the whole.

use crate::diagram::{Diagram, EdgeKind, Spider, VertexKind};
use vstd::prelude::*;

verus! {

/// Why a candidate could not be produced or applied.
#[derive(Clone, Copy, Debug, PartialEq, Eq, Structural)]
pub enum RewriteError {
    /// The target diagram has no causal flow, so nothing can be matched in it.
    NoCausalFlow,
    /// A match names a pattern that was never registered.
    UnknownPattern,
    /// The border of a match and the border of its pattern differ in length.
    ArityMismatch,
    /// A matched vertex is not in the target diagram, is listed twice among
    /// the interior vertices, or is on the border and in the interior at once.
    MissingVertex,
    /// Reconnecting would put a loop on a vertex that is no spider, or a
    /// parallel edge between vertices that the diagram algebra cannot merge,
    /// or a half turn on a phase that has no room for it.
    UnsupportedMerge,
}

/// A candidate rewrite as mathematics: the match and the replacement.
pub struct Splice {
    /// The target vertices on the border of the match, in pattern order.
    pub lhs_boundary: Seq<usize>,
    /// The replacement vertices that take their place, in the same order.
    pub rhs_boundary: Seq<usize>,
    /// The target vertices inside the match, in the order of their deletion.
    pub lhs_internal: Seq<usize>,
    /// Kind and phase of every replacement vertex.
    pub rhs_spiders: Map<usize, Spider>,
    /// The replacement vertices in enumeration order.
    pub rhs_vertices: Seq<usize>,
    /// The replacement edges in enumeration order.
    pub rhs_edges: Seq<(usize, usize, EdgeKind)>,
}

/// Whether vertex `r` of a replacement gets a counterpart in the target
/// diagram: it is on the border `rb`, or it is among the vertices `vs` and no
/// boundary vertex.
pub open spec fn materialised(
    rb: Seq<usize>,
    vs: Seq<usize>,
    rs: Map<usize, Spider>,
    r: usize,
) -> bool {
    rb.contains(r) || (vs.contains(r) && rs[r].kind != VertexKind::Boundary)
}

/// Whether every edge of `es` between two materialised vertices is a Hadamard
/// edge.
pub open spec fn hadamard_interior(
    rb: Seq<usize>,
    vs: Seq<usize>,
    rs: Map<usize, Spider>,
    es: Seq<(usize, usize, EdgeKind)>,
) -> bool {
    forall|i: int|
        0 <= i < es.len() && materialised(rb, vs, rs, (#[trigger] es[i]).0) && materialised(
            rb,
            vs,
            rs,
            es[i].1,
        ) ==> es[i].2 == EdgeKind::Hadamard
}

impl Splice {
    /// Whether replacement vertex `r` gets a counterpart in the target diagram.
    pub open spec fn materialised(self, r: usize) -> bool {
        materialised(self.rhs_boundary, self.rhs_vertices, self.rhs_spiders, r)
    }

    /// A candidate is well formed when the two borders pair up, the
    /// replacement border consists of replacement vertices, and every
    /// replacement edge between two materialised vertices is a Hadamard edge.
    pub open spec fn well_formed(self) -> bool {
        &&& self.lhs_boundary.len() == self.rhs_boundary.len()
        &&& forall|i: int|
            0 <= i < self.rhs_boundary.len() ==> self.rhs_spiders.dom().contains(
                #[trigger] self.rhs_boundary[i],
            )
        &&& hadamard_interior(
            self.rhs_boundary,
            self.rhs_vertices,
            self.rhs_spiders,
            self.rhs_edges,
        )
    }

    /// A candidate fits a diagram when its interior vertices are distinct
    /// vertices of the diagram and its border vertices are vertices outside
    /// the interior.
    pub open spec fn fits(self, d: Diagram) -> bool {
        &&& forall|i: int, j: int|
            0 <= i < j < self.lhs_internal.len() ==> self.lhs_internal[i] != self.lhs_internal[j]
        &&& forall|i: int|
            0 <= i < self.lhs_internal.len() ==> d.has(#[trigger] self.lhs_internal[i])
        &&& forall|i: int|
            0 <= i < self.lhs_boundary.len() ==> d.has(#[trigger] self.lhs_boundary[i])
                && !self.lhs_internal.contains(self.lhs_boundary[i])
    }
}

/// The diagram without the first `n` vertices of `vs`, deleted in order.
pub open spec fn cleared(d: Diagram, vs: Seq<usize>, n: nat) -> Diagram
    decreases n,
{
    if n == 0 {
        d
    } else {
        cleared(d, vs, (n - 1) as nat).without_vertex(vs[n - 1])
    }
}

/// The diagram in which, for each of the first `n` pairs in order, the vertex
/// `lb[i]` carries what `rs` gives for `rb[i]`.
pub open spec fn spliced(
    d: Diagram,
    lb: Seq<usize>,
    rb: Seq<usize>,
    rs: Map<usize, Spider>,
    n: nat,
) -> Diagram
    decreases n,
{
    if n == 0 {
        d
    } else {
        spliced(d, lb, rb, rs, (n - 1) as nat).with_spider(lb[n - 1], rs[rb[n - 1]])
    }
}

/// The map that sends `rb[i]` to `lb[i]` for the first `n` pairs; a later
/// pair overrides an earlier one.
pub open spec fn paired(rb: Seq<usize>, lb: Seq<usize>, n: nat) -> Map<usize, usize>
    decreases n,
{
    if n == 0 {
        Map::empty()
    } else {
        paired(rb, lb, (n - 1) as nat).insert(rb[n - 1], lb[n - 1])
    }
}

/// The diagram and the vertex map after the first `n` vertices of `vs` were
/// considered: each one that the map does not hold yet and that is no
/// boundary vertex gets a new vertex with its kind and phase.
pub open spec fn grown(
    d: Diagram,
    names: Map<usize, usize>,
    vs: Seq<usize>,
    rs: Map<usize, Spider>,
    n: nat,
) -> (Diagram, Map<usize, usize>)
    decreases n,
{
    if n == 0 {
        (d, names)
    } else {
        let (d1, names1) = grown(d, names, vs, rs, (n - 1) as nat);
        let r = vs[n - 1];
        if names1.dom().contains(r) || rs[r].kind == VertexKind::Boundary {
            (d1, names1)
        } else {
            (d1.with_new_vertex(rs[r]), names1.insert(r, d1.next_vertex()))
        }
    }
}

/// The diagram after the first `n` edges of `es` were considered: each one
/// whose two ends the map holds is inserted between their images, with
/// simplification. `None` where such an insertion is not admitted.
pub open spec fn wired(
    d: Diagram,
    names: Map<usize, usize>,
    es: Seq<(usize, usize, EdgeKind)>,
    n: nat,
) -> Option<Diagram>
    decreases n,
{
    if n == 0 {
        Some(d)
    } else {
        match wired(d, names, es, (n - 1) as nat) {
            None => None,
            Some(d1) => {
                let (u, v, k) = es[n - 1];
                if names.dom().contains(u) && names.dom().contains(v) {
                    if d1.admits_edge(names[u], names[v], k) {
                        Some(d1.smart_insert(names[u], names[v], k))
                    } else {
                        None
                    }
                } else {
                    Some(d1)
                }
            },
        }
    }
}

/// The diagram before reconnection and the vertex map from replacement
/// vertices to target vertices.
pub open spec fn planted(d: Diagram, sp: Splice) -> (Diagram, Map<usize, usize>) {
    grown(
        spliced(
            cleared(d, sp.lhs_internal, sp.lhs_internal.len()),
            sp.lhs_boundary,
            sp.rhs_boundary,
            sp.rhs_spiders,
            sp.lhs_boundary.len(),
        ),
        paired(sp.rhs_boundary, sp.lhs_boundary, sp.lhs_boundary.len()),
        sp.rhs_vertices,
        sp.rhs_spiders,
        sp.rhs_vertices.len(),
    )
}

/// The outcome of applying candidate `sp` to diagram `d`.
pub open spec fn rewritten(d: Diagram, sp: Splice) -> Result<Diagram, RewriteError> {
    if !sp.fits(d) {
        Err(RewriteError::MissingVertex)
    } else {
        match wired(planted(d, sp).0, planted(d, sp).1, sp.rhs_edges, sp.rhs_edges.len()) {
            None => Err(RewriteError::UnsupportedMerge),
            Some(result) => Ok(result),
        }
    }
}

/// Whether `v` is one of the first `n` entries of `vs`.
pub open spec fn among(vs: Seq<usize>, n: nat, v: usize) -> bool {
    exists|j: int| 0 <= j < n && vs[j] == v
}

/// After deleting the first `n` vertices of `vs`, the vertices left are those
/// of `d` that are not among them.
pub(crate) proof fn lemma_cleared_vertices(d: Diagram, vs: Seq<usize>, n: nat)
    requires
        n <= vs.len(),
    ensures
        forall|v: usize| #[trigger] cleared(d, vs, n).has(v) <==> d.has(v) && !among(vs, n, v),
    decreases n,
{
    if n > 0 {
        let m = (n - 1) as nat;
        lemma_cleared_vertices(d, vs, m);
        assert forall|v: usize| #[trigger]
            cleared(d, vs, n).has(v) <==> d.has(v) && !among(vs, n, v) by {
            assert(cleared(d, vs, n).has(v) <==> cleared(d, vs, m).has(v) && v != vs[n - 1]);
            if among(vs, n, v) {
                let j = choose|j: int| 0 <= j < n && vs[j] == v;
                if j < m {
                    assert(among(vs, m, v));
                }
            }
            if among(vs, m, v) {
                let j = choose|j: int| 0 <= j < m && vs[j] == v;
                assert(0 <= j < n && vs[j] == v);
            }
            if v == vs[n - 1] {
                assert(0 <= n - 1 < n && vs[n - 1] == v);
            }
        }
    }
}

/// Once an insertion was not admitted, no later step mends it.
pub(crate) proof fn lemma_wired_none_stays(
    d: Diagram,
    names: Map<usize, usize>,
    es: Seq<(usize, usize, EdgeKind)>,
    n: nat,
    m: nat,
)
    requires
        n <= m,
        wired(d, names, es, n) is None,
    ensures
        wired(d, names, es, m) is None,
    decreases m,
{
    if n < m {
        lemma_wired_none_stays(d, names, es, n, (m - 1) as nat);
    }
}

/// What deleting the first `n` vertices of `vs` keeps: every wire between two
/// vertices that stay, with its kind, and what the vertices that stay carry.
proof fn lemma_cleared_frame(d: Diagram, vs: Seq<usize>, n: nat)
    requires
        n <= vs.len(),
    ensures
        forall|v: usize|
            d.has(v) && !among(vs, n, v) ==> #[trigger] cleared(d, vs, n).spiders[v]
                == d.spiders[v],
        forall|s: usize, t: usize| #[trigger]
            cleared(d, vs, n).wires.dom().contains((s, t)) <==> d.wires.dom().contains((s, t))
                && !among(vs, n, s) && !among(vs, n, t),
        forall|s: usize, t: usize|
            cleared(d, vs, n).wires.dom().contains((s, t)) ==> #[trigger] cleared(
                d,
                vs,
                n,
            ).wires[(s, t)] == d.wires[(s, t)],
        cleared(d, vs, n).inputs == d.inputs,
        cleared(d, vs, n).outputs == d.outputs,
        cleared(d, vs, n).slots == d.slots,
        cleared(d, vs, n).vacancies == d.vacancies + vs.take(n as int),
    decreases n,
{
    if n > 0 {
        let m = (n - 1) as nat;
        let c = cleared(d, vs, m);
        lemma_cleared_frame(d, vs, m);
        assert forall|v: usize| #![auto] among(vs, n, v) <==> among(vs, m, v) || v == vs[n - 1] by {
            if among(vs, n, v) {
                let j = choose|j: int| 0 <= j < n && vs[j] == v;
                if j < m {
                    assert(among(vs, m, v));
                }
            }
            if among(vs, m, v) {
                let j = choose|j: int| 0 <= j < m && vs[j] == v;
                assert(0 <= j < n && vs[j] == v);
            }
            if v == vs[n - 1] {
                assert(0 <= n - 1 < n && vs[n - 1] == v);
            }
        }
        assert forall|s: usize, t: usize| #[trigger]
            cleared(d, vs, n).wires.dom().contains((s, t)) <==> d.wires.dom().contains((s, t))
                && !among(vs, n, s) && !among(vs, n, t) by {
            assert(c.wires.dom().contains((s, t)) <==> d.wires.dom().contains((s, t)) && !among(
                vs,
                m,
                s,
            ) && !among(vs, m, t));
        }
        assert forall|s: usize, t: usize|
            cleared(d, vs, n).wires.dom().contains((s, t)) implies #[trigger] cleared(
            d,
            vs,
            n,
        ).wires[(s, t)] == d.wires[(s, t)] by {
            assert(c.wires.dom().contains((s, t)));
        }
        assert(vs.take(n as int) =~= vs.take(m as int).push(vs[n - 1]));
        assert(cleared(d, vs, n).vacancies =~= d.vacancies + vs.take(n as int));
    } else {
        assert(vs.take(0) =~= Seq::<usize>::empty());
        assert(d.vacancies + vs.take(0) =~= d.vacancies);
    }
}

/// Deleting distinct vertices of a sound diagram leaves a sound diagram.
proof fn lemma_cleared_sound(d: Diagram, vs: Seq<usize>, n: nat)
    requires
        n <= vs.len(),
        d.sound(),
        forall|i: int| 0 <= i < n ==> d.has(#[trigger] vs[i]),
        forall|i: int, j: int| 0 <= i < j < n ==> vs[i] != vs[j],
    ensures
        cleared(d, vs, n).sound(),
    decreases n,
{
    if n > 0 {
        let m = (n - 1) as nat;
        let c = cleared(d, vs, m);
        lemma_cleared_sound(d, vs, m);
        lemma_cleared_vertices(d, vs, m);
        lemma_cleared_frame(d, vs, m);
        let v = vs[n - 1];
        assert(c.has(v) <==> d.has(v) && !among(vs, m, v));
        if among(vs, m, v) {
            let j = choose|j: int| 0 <= j < m && vs[j] == v;
            assert(vs[j] != vs[n - 1]);
        }
        assert(c.has(v));
        let e = cleared(d, vs, n);
        assert(e.vacancies == c.vacancies.push(v));
        assert forall|i: int, j: int| 0 <= i < j < e.vacancies.len() implies e.vacancies[i]
            != e.vacancies[j] by {
            if j == c.vacancies.len() {
                assert(!c.has(c.vacancies[i]));
            }
        }
        assert forall|i: int| 0 <= i < e.vacancies.len() implies !e.has(
            #[trigger] e.vacancies[i],
        ) && e.vacancies[i] < e.slots by {
            if i < c.vacancies.len() {
                assert(!c.has(c.vacancies[i]));
            }
        }
        assert forall|u: usize| #[trigger] e.has(u) implies u < e.slots by {
            assert(c.has(u));
        }
    }
}

/// What overwriting the first `n` border vertices keeps: the vertex set, the
/// wires, the terminals and the free indices, and what every other vertex
/// carries. Each overwritten vertex carries what one of the pairs gave it.
pub(crate) proof fn lemma_spliced_frame(
    d: Diagram,
    lb: Seq<usize>,
    rb: Seq<usize>,
    rs: Map<usize, Spider>,
    n: nat,
)
    requires
        n <= lb.len(),
        n <= rb.len(),
        forall|j: int| 0 <= j < n ==> d.has(#[trigger] lb[j]),
    ensures
        spliced(d, lb, rb, rs, n).spiders.dom() == d.spiders.dom(),
        spliced(d, lb, rb, rs, n).wires == d.wires,
        spliced(d, lb, rb, rs, n).inputs == d.inputs,
        spliced(d, lb, rb, rs, n).outputs == d.outputs,
        spliced(d, lb, rb, rs, n).vacancies == d.vacancies,
        spliced(d, lb, rb, rs, n).slots == d.slots,
        d.sound() ==> spliced(d, lb, rb, rs, n).sound(),
        forall|v: usize|
            !among(lb, n, v) ==> #[trigger] spliced(d, lb, rb, rs, n).spiders[v] == d.spiders[v],
        forall|v: usize|
            among(lb, n, v) ==> exists|k: int|
                0 <= k < n && lb[k] == v && #[trigger] spliced(d, lb, rb, rs, n).spiders[v]
                    == rs[rb[k]],
    decreases n,
{
    if n > 0 {
        let m = (n - 1) as nat;
        let p = spliced(d, lb, rb, rs, m);
        let q = spliced(d, lb, rb, rs, n);
        lemma_spliced_frame(d, lb, rb, rs, m);
        assert(q.spiders.dom() =~= d.spiders.dom());
        assert(forall|v: usize| q.has(v) == d.has(v));
        assert forall|v: usize| !among(lb, n, v) implies #[trigger] q.spiders[v]
            == d.spiders[v] by {
            assert(v != lb[n - 1]) by {
                if v == lb[n - 1] {
                    assert(0 <= n - 1 < n && lb[n - 1] == v);
                }
            }
            if among(lb, m, v) {
                let j = choose|j: int| 0 <= j < m && lb[j] == v;
                assert(0 <= j < n && lb[j] == v);
            }
        }
        assert forall|v: usize| among(lb, n, v) implies exists|k: int|
            0 <= k < n && lb[k] == v && #[trigger] q.spiders[v] == rs[rb[k]] by {
            if v == lb[n - 1] {
                assert(0 <= n - 1 < n && lb[n - 1] == v && q.spiders[v] == rs[rb[n - 1]]);
            } else {
                let j = choose|j: int| 0 <= j < n && lb[j] == v;
                assert(among(lb, m, v));
                let k = choose|k: int| 0 <= k < m && lb[k] == v && p.spiders[v] == rs[rb[k]];
                assert(0 <= k < n && lb[k] == v && q.spiders[v] == rs[rb[k]]);
            }
        }
    }
}

/// The vertex map of the first `n` pairs holds exactly the first `n`
/// replacement border vertices, and sends each to one of the first `n` target
/// border vertices.
proof fn lemma_paired(rb: Seq<usize>, lb: Seq<usize>, n: nat)
    requires
        n <= lb.len(),
        n <= rb.len(),
    ensures
        forall|x: usize| #[trigger] paired(rb, lb, n).dom().contains(x) <==> among(rb, n, x),
        forall|x: usize|
            paired(rb, lb, n).dom().contains(x) ==> among(lb, n, #[trigger] paired(rb, lb, n)[x]),
    decreases n,
{
    if n > 0 {
        let m = (n - 1) as nat;
        lemma_paired(rb, lb, m);
        let p = paired(rb, lb, m);
        let q = paired(rb, lb, n);
        assert forall|x: usize| #[trigger] q.dom().contains(x) <==> among(rb, n, x) by {
            assert(p.dom().contains(x) <==> among(rb, m, x));
            if among(rb, n, x) {
                let j = choose|j: int| 0 <= j < n && rb[j] == x;
                if j < m {
                    assert(among(rb, m, x));
                }
            }
            if among(rb, m, x) {
                let j = choose|j: int| 0 <= j < m && rb[j] == x;
                assert(0 <= j < n && rb[j] == x);
            }
            if x == rb[n - 1] {
                assert(0 <= n - 1 < n && rb[n - 1] == x);
            }
        }
        assert forall|x: usize| q.dom().contains(x) implies among(lb, n, #[trigger] q[x]) by {
            if x == rb[n - 1] {
                assert(0 <= n - 1 < n && lb[n - 1] == q[x]);
            } else {
                assert(p.dom().contains(x));
                let j = choose|j: int| 0 <= j < m && lb[j] == p[x];
                assert(0 <= j < n && lb[j] == q[x]);
            }
        }
    }
}

/// What adding the replacement's interior does: the wires, the terminals and
/// every vertex of before stay; the vertex map keeps what it held; each entry
/// that it gains belongs to an enumerated vertex that is no boundary vertex,
/// and points to a vertex that is new and carries that vertex's kind and phase.
proof fn lemma_grown(
    d: Diagram,
    names: Map<usize, usize>,
    vs: Seq<usize>,
    rs: Map<usize, Spider>,
    n: nat,
)
    requires
        n <= vs.len(),
        d.sound(),
        grown(d, names, vs, rs, n).0.slots <= usize::MAX + 1,
    ensures
        grown(d, names, vs, rs, n).0.sound(),
        grown(d, names, vs, rs, n).0.wires == d.wires,
        grown(d, names, vs, rs, n).0.inputs == d.inputs,
        grown(d, names, vs, rs, n).0.outputs == d.outputs,
        forall|v: usize|
            #![trigger grown(d, names, vs, rs, n).0.has(v)]
            #![trigger grown(d, names, vs, rs, n).0.spiders[v]]
            d.has(v) ==> grown(d, names, vs, rs, n).0.has(v) && grown(
                d,
                names,
                vs,
                rs,
                n,
            ).0.spiders[v] == d.spiders[v],
        forall|x: usize|
            #![trigger grown(d, names, vs, rs, n).1.dom().contains(x)]
            #![trigger grown(d, names, vs, rs, n).1[x]]
            names.dom().contains(x) ==> grown(d, names, vs, rs, n).1.dom().contains(x) && grown(
                d,
                names,
                vs,
                rs,
                n,
            ).1[x] == names[x],
        forall|x: usize|
            #![trigger grown(d, names, vs, rs, n).1.dom().contains(x)]
            #![trigger grown(d, names, vs, rs, n).1[x]]
            grown(d, names, vs, rs, n).1.dom().contains(x) && !names.dom().contains(x) ==> {
                &&& among(vs, n, x)
                &&& rs[x].kind != VertexKind::Boundary
                &&& !d.has(grown(d, names, vs, rs, n).1[x])
                &&& grown(d, names, vs, rs, n).0.has(grown(d, names, vs, rs, n).1[x])
                &&& grown(d, names, vs, rs, n).0.spiders[grown(d, names, vs, rs, n).1[x]] == rs[x]
            },
    decreases n,
{
    if n > 0 {
        let m = (n - 1) as nat;
        lemma_grown(d, names, vs, rs, m);
        let d1 = grown(d, names, vs, rs, m).0;
        let names1 = grown(d, names, vs, rs, m).1;
        let d2 = grown(d, names, vs, rs, n).0;
        let names2 = grown(d, names, vs, rs, n).1;
        let r = vs[n - 1];
        assert forall|x: usize| among(vs, m, x) implies among(vs, n, x) by {
            let j = choose|j: int| 0 <= j < m && vs[j] == x;
            assert(0 <= j < n && vs[j] == x);
        }
        if names1.dom().contains(r) || rs[r].kind == VertexKind::Boundary {
            assert forall|x: usize|
                #![trigger names2.dom().contains(x)]
                names2.dom().contains(x) && !names.dom().contains(x) implies among(vs, n, x) by {
                assert(names1.dom().contains(x));
            }
        } else {
            let v = d1.next_vertex();
            assert(!d1.has(v) && v <= d1.slots) by {
                assert(d1.slots <= d2.slots);
                if d1.vacancies.len() > 0 {
                    assert(!d1.has(d1.vacancies[d1.vacancies.len() - 1]));
                } else {
                    if d1.has(v) {
                        assert(v < d1.slots);
                    }
                }
            }
            assert(!d.has(v)) by {
                if d.has(v) {
                    assert(d1.has(v));
                }
            }
            assert(d2.sound()) by {
                assert forall|i: int, j: int|
                    0 <= i < j < d2.vacancies.len() implies d2.vacancies[i] != d2.vacancies[j] by {
                    assert(d2.vacancies[i] == d1.vacancies[i]);
                    assert(d2.vacancies[j] == d1.vacancies[j]);
                }
                assert forall|i: int| 0 <= i < d2.vacancies.len() implies !d2.has(
                    #[trigger] d2.vacancies[i],
                ) && d2.vacancies[i] < d2.slots by {
                    assert(d2.vacancies[i] == d1.vacancies[i]);
                    assert(!d1.has(d1.vacancies[i]));
                    if d1.vacancies.len() > 0 {
                        assert(d1.vacancies[i] != d1.vacancies[d1.vacancies.len() - 1]);
                    }
                }
                assert forall|u: usize| #[trigger] d2.has(u) implies u < d2.slots by {
                    if u != v {
                        assert(d1.has(u));
                    } else if d1.vacancies.len() > 0 {
                        assert(d1.vacancies[d1.vacancies.len() - 1] < d1.slots);
                    }
                }
            }
            assert forall|x: usize| names.dom().contains(x) implies names2.dom().contains(x)
                && #[trigger] names2[x] == names[x] by {
                assert(names1.dom().contains(x) && names1[x] == names[x]);
            }
            assert forall|x: usize|
                #![trigger names2.dom().contains(x)]
                #![trigger names2[x]]
                names2.dom().contains(x) && !names.dom().contains(x) implies {
                &&& among(vs, n, x)
                &&& rs[x].kind != VertexKind::Boundary
                &&& !d.has(names2[x])
                &&& d2.has(names2[x])
                &&& d2.spiders[names2[x]] == rs[x]
            } by {
                if x == r {
                    assert(0 <= n - 1 < n && vs[n - 1] == x);
                } else {
                    assert(names1.dom().contains(x));
                    assert(d1.has(names1[x]));
                }
            }
        }
        assert forall|u: usize| d.has(u) implies d2.has(u) && d2.spiders[u] == d.spiders[u] by {
            assert(d1.has(u) && d1.spiders[u] == d.spiders[u]);
        }
    }
}

/// A diagram is in normal form when every wire joins two vertices, is plain
/// where it touches a boundary vertex, and is a Hadamard wire elsewhere.
pub open spec fn normal(d: Diagram) -> bool {
    forall|s: usize, t: usize| #[trigger]
        d.wires.dom().contains((s, t)) ==> {
            &&& d.has(s)
            &&& d.has(t)
            &&& d.wires[(s, t)] == if d.kind(s) == VertexKind::Boundary || d.kind(t)
                == VertexKind::Boundary {
                EdgeKind::Plain
            } else {
                EdgeKind::Hadamard
            }
        }
}

/// Whether no entry of the vertex map points to `a`.
pub open spec fn untouched(names: Map<usize, usize>, a: usize) -> bool {
    forall|x: usize| names.dom().contains(x) ==> #[trigger] names[x] != a
}

/// Reconnecting keeps the vertex set, every kind, the terminals and the free
/// indices.
proof fn lemma_wired_frame(
    d: Diagram,
    names: Map<usize, usize>,
    es: Seq<(usize, usize, EdgeKind)>,
    n: nat,
)
    requires
        n <= es.len(),
        wired(d, names, es, n) is Some,
    ensures
        wired(d, names, es, n)->Some_0.spiders.dom() == d.spiders.dom(),
        wired(d, names, es, n)->Some_0.inputs == d.inputs,
        wired(d, names, es, n)->Some_0.outputs == d.outputs,
        wired(d, names, es, n)->Some_0.vacancies == d.vacancies,
        wired(d, names, es, n)->Some_0.slots == d.slots,
        forall|v: usize| #[trigger] wired(d, names, es, n)->Some_0.kind(v) == d.kind(v),
    decreases n,
{
    if n > 0 {
        let m = (n - 1) as nat;
        assert(wired(d, names, es, m) is Some);
        lemma_wired_frame(d, names, es, m);
        let d1 = wired(d, names, es, m)->Some_0;
        let d2 = wired(d, names, es, n)->Some_0;
        assert(d2.spiders.dom() =~= d1.spiders.dom());
        assert forall|v: usize| #[trigger] d2.kind(v) == d.kind(v) by {
            assert(d1.kind(v) == d.kind(v));
        }
    }
}

/// Reconnecting leaves a vertex to which the vertex map does not point as it
/// was: what it carries, and every wire at it.
proof fn lemma_wired_elsewhere(
    d: Diagram,
    names: Map<usize, usize>,
    es: Seq<(usize, usize, EdgeKind)>,
    n: nat,
    a: usize,
)
    requires
        n <= es.len(),
        wired(d, names, es, n) is Some,
        untouched(names, a),
    ensures
        wired(d, names, es, n)->Some_0.spiders[a] == d.spiders[a],
        forall|b: usize| #[trigger]
            wired(d, names, es, n)->Some_0.wire(a, b) == d.wire(a, b),
        forall|b: usize| #[trigger]
            wired(d, names, es, n)->Some_0.wire(b, a) == d.wire(b, a),
    decreases n,
{
    if n > 0 {
        let m = (n - 1) as nat;
        assert(wired(d, names, es, m) is Some);
        lemma_wired_elsewhere(d, names, es, m, a);
        let d1 = wired(d, names, es, m)->Some_0;
        let d2 = wired(d, names, es, n)->Some_0;
        let u = es[n - 1].0;
        let v = es[n - 1].1;
        if names.dom().contains(u) && names.dom().contains(v) {
            assert(names[u] != a && names[v] != a);
        }
        assert forall|b: usize| #[trigger] d2.wire(a, b) == d.wire(a, b) by {
            assert(d1.wire(a, b) == d.wire(a, b));
        }
        assert forall|b: usize| #[trigger] d2.wire(b, a) == d.wire(b, a) by {
            assert(d1.wire(b, a) == d.wire(b, a));
        }
    }
}

/// Reconnecting keeps the normal form, where every edge that is inserted is a
/// Hadamard edge between two vertices that are no boundary vertices.
proof fn lemma_wired_normal(
    d: Diagram,
    names: Map<usize, usize>,
    es: Seq<(usize, usize, EdgeKind)>,
    n: nat,
)
    requires
        n <= es.len(),
        wired(d, names, es, n) is Some,
        normal(d),
        forall|x: usize|
            names.dom().contains(x) ==> d.kind(#[trigger] names[x]) != VertexKind::Boundary,
        forall|i: int|
            0 <= i < n && names.dom().contains((#[trigger] es[i]).0) && names.dom().contains(
                es[i].1,
            ) ==> es[i].2 == EdgeKind::Hadamard,
    ensures
        normal(wired(d, names, es, n)->Some_0),
    decreases n,
{
    if n > 0 {
        let m = (n - 1) as nat;
        assert(wired(d, names, es, m) is Some);
        lemma_wired_normal(d, names, es, m);
        lemma_wired_frame(d, names, es, m);
        let d1 = wired(d, names, es, m)->Some_0;
        let d2 = wired(d, names, es, n)->Some_0;
        let u = es[n - 1].0;
        let v = es[n - 1].1;
        let k = es[n - 1].2;
        if names.dom().contains(u) && names.dom().contains(v) {
            let s = names[u];
            let t = names[v];
            assert(k == EdgeKind::Hadamard);
            assert(d1.kind(s) == d.kind(s) && d1.kind(t) == d.kind(t));
            assert(d1.admits_edge(s, t, k));
            assert(d2 == d1.smart_insert(s, t, k));
            assert forall|p: usize, q: usize| #[trigger]
                d2.wires.dom().contains((p, q)) implies {
                &&& d2.has(p)
                &&& d2.has(q)
                &&& d2.wires[(p, q)] == if d2.kind(p) == VertexKind::Boundary || d2.kind(q)
                    == VertexKind::Boundary {
                    EdgeKind::Plain
                } else {
                    EdgeKind::Hadamard
                }
            } by {
                assert(d2.kind(p) == d1.kind(p) && d2.kind(q) == d1.kind(q));
                if d1.wires.dom().contains((p, q)) {
                    assert(d1.has(p) && d1.has(q));
                }
                if d1.wires.dom().contains((s, t)) {
                    assert(d1.wires[(s, t)] == EdgeKind::Hadamard);
                }
            }
        }
    }
}

/// Being among all entries of a sequence is being contained in it.
proof fn lemma_among_all(vs: Seq<usize>, v: usize)
    ensures
        among(vs, vs.len(), v) <==> vs.contains(v),
{
    if among(vs, vs.len(), v) {
        let j = choose|j: int| 0 <= j < vs.len() && vs[j] == v;
        assert(vs[j] == v);
    }
    if vs.contains(v) {
        let j = choose|j: int| 0 <= j < vs.len() && vs[j] == v;
        assert(0 <= j < vs.len() && vs[j] == v);
    }
}

/// Before reconnection the diagram is sound, and no entry of the vertex map
/// points to a vertex of `d` outside the match.
proof fn lemma_planted(d: Diagram, sp: Splice)
    requires
        d.sound(),
        planted(d, sp).0.slots <= usize::MAX + 1,
        sp.lhs_boundary.len() == sp.rhs_boundary.len(),
        sp.fits(d),
    ensures
        cleared(d, sp.lhs_internal, sp.lhs_internal.len()).sound(),
        forall|j: int|
            0 <= j < sp.lhs_boundary.len() ==> cleared(
                d,
                sp.lhs_internal,
                sp.lhs_internal.len(),
            ).has(#[trigger] sp.lhs_boundary[j]),
        forall|a: usize|
            d.has(a) && !sp.lhs_internal.contains(a) && !sp.lhs_boundary.contains(a)
                ==> #[trigger] untouched(planted(d, sp).1, a),
{
    let vs = sp.lhs_internal;
    let lb = sp.lhs_boundary;
    let rb = sp.rhs_boundary;
    let d1 = cleared(d, vs, vs.len());
    let d2 = spliced(d1, lb, rb, sp.rhs_spiders, lb.len());
    let names2 = paired(rb, lb, lb.len());
    lemma_cleared_sound(d, vs, vs.len());
    lemma_cleared_vertices(d, vs, vs.len());
    lemma_cleared_frame(d, vs, vs.len());
    assert forall|j: int| 0 <= j < lb.len() implies d1.has(#[trigger] lb[j]) by {
        lemma_among_all(vs, lb[j]);
        assert(d1.has(lb[j]) <==> d.has(lb[j]) && !among(vs, vs.len(), lb[j]));
    }
    lemma_spliced_frame(d1, lb, rb, sp.rhs_spiders, lb.len());
    lemma_paired(rb, lb, lb.len());
    lemma_grown(d2, names2, sp.rhs_vertices, sp.rhs_spiders, sp.rhs_vertices.len());
    let names3 = planted(d, sp).1;
    assert forall|a: usize|
        d.has(a) && !sp.lhs_internal.contains(a) && !sp.lhs_boundary.contains(
            a,
        ) implies #[trigger] untouched(names3, a) by {
        lemma_among_all(vs, a);
        assert(d1.has(a) <==> d.has(a) && !among(vs, vs.len(), a));
        assert(d2.has(a));
        assert forall|x: usize| names3.dom().contains(x) implies #[trigger] names3[x] != a by {
            if names2.dom().contains(x) {
                assert(names3[x] == names2[x]);
                assert(among(lb, lb.len(), names2[x]));
                lemma_among_all(lb, names2[x]);
            } else {
                assert(!d2.has(names3[x]));
            }
        }
    }
}

/// Whether the rewrite of `d` by `sp` into `e` left vertex `a` as it was: `a`
/// has the kind and phase it had, and the wire between it and any other
/// vertex is what it was, with one exception: a wire into the interior of the
/// match went with the interior vertex. No wire was added at `a`.
pub open spec fn kept_at(d: Diagram, sp: Splice, e: Diagram, a: usize) -> bool {
    &&& e.has(a)
    &&& e.spiders[a] == d.spiders[a]
    &&& forall|b: usize| #[trigger]
        e.wire(a, b) == if sp.lhs_internal.contains(b) {
            None
        } else {
            d.wire(a, b)
        }
    &&& forall|b: usize| #[trigger]
        e.wire(b, a) == if sp.lhs_internal.contains(b) {
            None
        } else {
            d.wire(b, a)
        }
}

/// Whether the rewrite of `d` by `sp` into `e` was local: it left every
/// vertex of `d` outside the match as it was.
pub open spec fn local(d: Diagram, sp: Splice, e: Diagram) -> bool {
    forall|a: usize|
        d.has(a) && !sp.lhs_internal.contains(a) && !sp.lhs_boundary.contains(a)
            ==> #[trigger] kept_at(d, sp, e, a)
}

/// Whether the border vertices of the match in `d` and those of the
/// replacement are no boundary vertices.
pub open spec fn inner_border(d: Diagram, sp: Splice) -> bool {
    &&& forall|i: int|
        0 <= i < sp.lhs_boundary.len() ==> d.kind(#[trigger] sp.lhs_boundary[i])
            != VertexKind::Boundary
    &&& forall|i: int|
        0 <= i < sp.rhs_boundary.len() ==> sp.rhs_spiders[#[trigger] sp.rhs_boundary[i]].kind
            != VertexKind::Boundary
}

/// Locality: a rewrite leaves every vertex outside the match as it was.
pub proof fn lemma_locality(d: Diagram, sp: Splice, a: usize)
    requires
        d.sound(),
        sp.lhs_boundary.len() == sp.rhs_boundary.len(),
        rewritten(d, sp) is Ok,
        rewritten(d, sp)->Ok_0.slots <= usize::MAX + 1,
        d.has(a),
        !sp.lhs_internal.contains(a),
        !sp.lhs_boundary.contains(a),
    ensures
        kept_at(d, sp, rewritten(d, sp)->Ok_0, a),
{
    let vs = sp.lhs_internal;
    let lb = sp.lhs_boundary;
    let rb = sp.rhs_boundary;
    let d1 = cleared(d, vs, vs.len());
    let d2 = spliced(d1, lb, rb, sp.rhs_spiders, lb.len());
    let names2 = paired(rb, lb, lb.len());
    let d3 = planted(d, sp).0;
    let names3 = planted(d, sp).1;
    let e = rewritten(d, sp)->Ok_0;
    lemma_wired_frame(d3, names3, sp.rhs_edges, sp.rhs_edges.len());
    lemma_planted(d, sp);
    lemma_cleared_vertices(d, vs, vs.len());
    lemma_cleared_frame(d, vs, vs.len());
    lemma_among_all(vs, a);
    lemma_among_all(lb, a);
    assert(d1.has(a) <==> d.has(a) && !among(vs, vs.len(), a));
    lemma_spliced_frame(d1, lb, rb, sp.rhs_spiders, lb.len());
    assert(d2.spiders[a] == d1.spiders[a]);
    lemma_grown(d2, names2, sp.rhs_vertices, sp.rhs_spiders, sp.rhs_vertices.len());
    assert(d2.has(a));
    assert(d3.has(a) && d3.spiders[a] == d2.spiders[a]);
    assert(untouched(names3, a));
    lemma_wired_frame(d3, names3, sp.rhs_edges, sp.rhs_edges.len());
    lemma_wired_elsewhere(d3, names3, sp.rhs_edges, sp.rhs_edges.len(), a);
    assert forall|b: usize| #[trigger]
        e.wire(a, b) == if sp.lhs_internal.contains(b) {
            None
        } else {
            d.wire(a, b)
        } by {
        lemma_among_all(vs, b);
        assert(e.wire(a, b) == d3.wire(a, b));
        assert(d1.wires.dom().contains((a, b)) <==> d.wires.dom().contains((a, b)) && !among(
            vs,
            vs.len(),
            a,
        ) && !among(vs, vs.len(), b));
    }
    assert forall|b: usize| #[trigger]
        e.wire(b, a) == if sp.lhs_internal.contains(b) {
            None
        } else {
            d.wire(b, a)
        } by {
        lemma_among_all(vs, b);
        assert(e.wire(b, a) == d3.wire(b, a));
        assert(d1.wires.dom().contains((b, a)) <==> d.wires.dom().contains((b, a)) && !among(
            vs,
            vs.len(),
            b,
        ) && !among(vs, vs.len(), a));
    }
}

/// A rewrite leaves the input and output lists as they were.
pub proof fn lemma_terminals_kept(d: Diagram, sp: Splice)
    requires
        d.sound(),
        sp.lhs_boundary.len() == sp.rhs_boundary.len(),
        rewritten(d, sp) is Ok,
        rewritten(d, sp)->Ok_0.slots <= usize::MAX + 1,
    ensures
        rewritten(d, sp)->Ok_0.inputs == d.inputs,
        rewritten(d, sp)->Ok_0.outputs == d.outputs,
{
    let vs = sp.lhs_internal;
    let lb = sp.lhs_boundary;
    let rb = sp.rhs_boundary;
    let d1 = cleared(d, vs, vs.len());
    let d2 = spliced(d1, lb, rb, sp.rhs_spiders, lb.len());
    let names2 = paired(rb, lb, lb.len());
    lemma_wired_frame(planted(d, sp).0, planted(d, sp).1, sp.rhs_edges, sp.rhs_edges.len());
    lemma_planted(d, sp);
    lemma_cleared_frame(d, vs, vs.len());
    lemma_spliced_frame(d1, lb, rb, sp.rhs_spiders, lb.len());
    lemma_grown(d2, names2, sp.rhs_vertices, sp.rhs_spiders, sp.rhs_vertices.len());
    lemma_wired_frame(planted(d, sp).0, planted(d, sp).1, sp.rhs_edges, sp.rhs_edges.len());
}

/// Edge kinds: a rewrite of a diagram in normal form, by a well-formed
/// candidate whose border vertices are no boundary vertices on either side,
/// gives a diagram in normal form. Every wire between two interior vertices
/// is a Hadamard wire, and every wire at a boundary vertex is plain.
pub proof fn lemma_edge_kinds(d: Diagram, sp: Splice)
    requires
        d.sound(),
        sp.well_formed(),
        normal(d),
        inner_border(d, sp),
        rewritten(d, sp) is Ok,
        rewritten(d, sp)->Ok_0.slots <= usize::MAX + 1,
    ensures
        normal(rewritten(d, sp)->Ok_0),
{
    let vs = sp.lhs_internal;
    let lb = sp.lhs_boundary;
    let rb = sp.rhs_boundary;
    let rs = sp.rhs_spiders;
    let d1 = cleared(d, vs, vs.len());
    let d2 = spliced(d1, lb, rb, rs, lb.len());
    let names2 = paired(rb, lb, lb.len());
    let d3 = planted(d, sp).0;
    let names3 = planted(d, sp).1;
    lemma_wired_frame(d3, names3, sp.rhs_edges, sp.rhs_edges.len());
    lemma_planted(d, sp);
    lemma_cleared_vertices(d, vs, vs.len());
    lemma_cleared_frame(d, vs, vs.len());
    assert(normal(d1)) by {
        assert forall|s: usize, t: usize| #[trigger]
            d1.wires.dom().contains((s, t)) implies d1.has(s) && d1.has(t) && d1.wires[(s, t)]
            == if d1.kind(s) == VertexKind::Boundary || d1.kind(t) == VertexKind::Boundary {
            EdgeKind::Plain
        } else {
            EdgeKind::Hadamard
        } by {
            assert(d.wires.dom().contains((s, t)));
            assert(d1.has(s) <==> d.has(s) && !among(vs, vs.len(), s));
            assert(d1.has(t) <==> d.has(t) && !among(vs, vs.len(), t));
            assert(d1.spiders[s] == d.spiders[s]);
            assert(d1.spiders[t] == d.spiders[t]);
        }
    }
    lemma_spliced_frame(d1, lb, rb, rs, lb.len());
    assert forall|v: usize| d1.has(v) implies (#[trigger] d2.kind(v) == VertexKind::Boundary) == (
    d1.kind(v) == VertexKind::Boundary) by {
        if among(lb, lb.len(), v) {
            let k = choose|k: int| 0 <= k < lb.len() && lb[k] == v && d2.spiders[v] == rs[rb[k]];
            assert(d2.kind(v) == rs[rb[k]].kind);
            assert(d1.has(lb[k]) <==> d.has(lb[k]) && !among(vs, vs.len(), lb[k]));
            assert(d1.spiders[lb[k]] == d.spiders[lb[k]]);
        } else {
            assert(d2.spiders[v] == d1.spiders[v]);
        }
    }
    assert(normal(d2)) by {
        assert forall|s: usize, t: usize| #[trigger]
            d2.wires.dom().contains((s, t)) implies d2.has(s) && d2.has(t) && d2.wires[(s, t)]
            == if d2.kind(s) == VertexKind::Boundary || d2.kind(t) == VertexKind::Boundary {
            EdgeKind::Plain
        } else {
            EdgeKind::Hadamard
        } by {
            assert(d1.wires.dom().contains((s, t)));
            assert(d1.has(s) && d1.has(t));
        }
    }
    lemma_paired(rb, lb, lb.len());
    lemma_grown(d2, names2, sp.rhs_vertices, rs, sp.rhs_vertices.len());
    assert(normal(d3)) by {
        assert forall|s: usize, t: usize| #[trigger]
            d3.wires.dom().contains((s, t)) implies d3.has(s) && d3.has(t) && d3.wires[(s, t)]
            == if d3.kind(s) == VertexKind::Boundary || d3.kind(t) == VertexKind::Boundary {
            EdgeKind::Plain
        } else {
            EdgeKind::Hadamard
        } by {
            assert(d2.wires.dom().contains((s, t)));
            assert(d2.has(s) && d2.has(t));
            assert(d3.spiders[s] == d2.spiders[s]);
            assert(d3.spiders[t] == d2.spiders[t]);
        }
    }
    assert forall|x: usize| names3.dom().contains(x) implies d3.kind(#[trigger] names3[x])
        != VertexKind::Boundary && sp.materialised(x) by {
        if names2.dom().contains(x) {
            assert(names3[x] == names2[x]);
            let l = names2[x];
            assert(among(lb, lb.len(), l));
            let k = choose|k: int| 0 <= k < lb.len() && lb[k] == l && d2.spiders[l] == rs[rb[k]];
            assert(d2.kind(l) == rs[rb[k]].kind);
            assert(d1.has(lb[k]));
            assert(d3.spiders[l] == d2.spiders[l]);
            assert(among(rb, lb.len(), x));
            lemma_among_all(rb, x);
        } else {
            assert(among(sp.rhs_vertices, sp.rhs_vertices.len(), x));
            lemma_among_all(sp.rhs_vertices, x);
        }
    }
    assert forall|i: int|
        0 <= i < sp.rhs_edges.len() && names3.dom().contains((#[trigger] sp.rhs_edges[i]).0)
            && names3.dom().contains(sp.rhs_edges[i].1) implies sp.rhs_edges[i].2
        == EdgeKind::Hadamard by {
        assert(sp.materialised(sp.rhs_edges[i].0)) by {
            assert(d3.kind(names3[sp.rhs_edges[i].0]) != VertexKind::Boundary);
        }
        assert(sp.materialised(sp.rhs_edges[i].1)) by {
            assert(d3.kind(names3[sp.rhs_edges[i].1]) != VertexKind::Boundary);
        }
    }
    lemma_wired_normal(d3, names3, sp.rhs_edges, sp.rhs_edges.len());
}

} // verus!
