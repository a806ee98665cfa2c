//! The rewriter: candidate rewrites and their application to a diagram.

use crate::diagram::{
    add_edge_smart, add_vertex_with_phase, adjacency, admits_edge, clone_graph, contains_vertex,
    edge_list, edges, input_list, lemma_wiring, model, output_list, remove_vertex, set_inputs,
    set_kind, set_outputs, set_phase, slot_count, spiders, vacancies, vertex_kind, vertex_list,
    vertex_phase, vertices, well_formed, Diagram, EdgeKind,
};
use crate::faults::{first_fault, lemma_fault_at, lemma_fault_stays, lemma_no_fault};
use crate::rewrite_sets::{
    border, border_of, oriented, DecodedGraph, RewriteIos, RewriteRhs, RewriteSet, RuleSide,
};
use crate::surgery::{
    among, cleared, grown, hadamard_interior, inner_border, kept_at, lemma_cleared_vertices,
    lemma_edge_kinds, lemma_locality, lemma_spliced_frame, lemma_wired_none_stays, local,
    materialised, normal, paired, planted, rewritten, spliced, wired, RewriteError, Splice,
};
use quizx::vec_graph::Graph;
use std::collections::HashMap;
use vstd::prelude::*;

verus! {

broadcast use vstd::std_specs::hash::group_hash_axioms;

/// A rewritten diagram and the change in cost that the rewrite is charged with.
#[derive(Debug)]
pub struct RewriteResult {
    /// The diagram after the rewrite.
    pub graph: Graph,
    /// Always zero: applying a rewrite estimates nothing. The same replacement
    /// costs more or less depending on how the match is wired into the rest,
    /// so callers measure the new diagram with their own metric.
    pub cost_delta: isize,
}

/// A candidate rewrite: a match in a target diagram and a replacement for it.
#[derive(Debug)]
pub struct Rewrite {
    /// The vertices matching the pattern's border in the target diagram.
    lhs_boundary: Vec<usize>,
    /// The vertices of the replacement that take their place.
    rhs_boundary: Vec<usize>,
    /// The vertices matching the pattern's interior in the target diagram.
    lhs_internal: Vec<usize>,
    /// The replacement diagram.
    rhs: Graph,
}

impl View for Rewrite {
    type V = Splice;

    closed spec fn view(&self) -> Splice {
        Splice {
            lhs_boundary: self.lhs_boundary@,
            rhs_boundary: self.rhs_boundary@,
            lhs_internal: self.lhs_internal@,
            rhs_spiders: spiders(self.rhs),
            rhs_vertices: vertex_list(self.rhs),
            rhs_edges: edge_list(self.rhs),
        }
    }
}

/// What applying candidate `sp` to a graph that holds `d` returns: the
/// rewritten diagram in a well-formed graph with a cost change of zero, or
/// the error that [`rewritten`] gives.
pub open spec fn applied(d: Diagram, sp: Splice, r: Result<RewriteResult, RewriteError>) -> bool {
    match rewritten(d, sp) {
        Ok(result) => {
            &&& r is Ok
            &&& model(r->Ok_0.graph) == result
            &&& well_formed(r->Ok_0.graph)
            &&& r->Ok_0.cost_delta == 0
        },
        Err(e) => r == Err::<RewriteResult, RewriteError>(e),
    }
}

impl Rewrite {
    #[verifier::type_invariant]
    spec fn inv(self) -> bool {
        self@.well_formed()
    }
}

/// Why a list of rule sets cannot be compiled. Each error names the rule set,
/// by its place in the list, and the replacement or the pattern at fault.
#[derive(Clone, Copy, Debug, PartialEq, Eq, Structural)]
pub enum CompileError {
    /// An input or output of the left-hand side is no vertex, or has not
    /// exactly one neighbour.
    LhsBoundary { rule_set: usize },
    /// An input/output assignment of the left-hand side holds the name of no
    /// vertex.
    UnknownName { rule_set: usize, orientation: usize },
    /// An input or output of a replacement is no vertex, or has not exactly
    /// one neighbour.
    RhsBoundary { rule_set: usize, rhs: usize },
    /// The border of a replacement and the border of the left-hand side
    /// differ in length.
    ArityMismatch { rule_set: usize, rhs: usize },
    /// A replacement has an edge between two of the vertices that it adds to
    /// a diagram that is no Hadamard edge.
    PlainInteriorEdge { rule_set: usize, rhs: usize },
    /// The left-hand side has no causal flow under one of its input/output
    /// assignments.
    NoCausalFlow { rule_set: usize, orientation: usize },
}

/// What is wrong with replacement `j` of rule set `k`, whose left-hand side
/// has a border of length `arity`.
pub open spec fn replacement_fault(arity: nat, rhss: Seq<RewriteRhs>, k: usize) -> spec_fn(
    int,
) -> Option<CompileError> {
    |j: int|
        match border_of(rhss[j].g.graph_spec()) {
            None => Some(CompileError::RhsBoundary { rule_set: k, rhs: j as usize }),
            Some(b) => if b.len() != arity {
                Some(CompileError::ArityMismatch { rule_set: k, rhs: j as usize })
            } else if !hadamard_interior(
                b,
                vertex_list(rhss[j].g.graph_spec()),
                spiders(rhss[j].g.graph_spec()),
                edge_list(rhss[j].g.graph_spec()),
            ) {
                Some(CompileError::PlainInteriorEdge { rule_set: k, rhs: j as usize })
            } else {
                None
            },
        }
}

/// What is wrong with input/output assignment `o` of the left-hand side of
/// rule set `k`.
pub open spec fn orientation_fault(lhs: DecodedGraph, ios: Seq<RewriteIos>, k: usize) -> spec_fn(
    int,
) -> Option<CompileError> {
    |o: int|
        if oriented(lhs, ios[o]) is None {
            Some(CompileError::UnknownName { rule_set: k, orientation: o as usize })
        } else {
            None
        }
}

/// What is wrong with `rule`, the rule set at place `k`: with its left-hand
/// side, or else with the first of its input/output assignments that has
/// something wrong, or else with the first such of its replacements.
pub open spec fn rule_fault(rule: RewriteSet, k: usize) -> Option<CompileError> {
    match border_of(rule.lhs_graph().graph_spec()) {
        None => Some(CompileError::LhsBoundary { rule_set: k }),
        Some(b) => match first_fault(
            orientation_fault(rule.lhs_graph(), rule.lhs_ios(), k),
            rule.lhs_ios().len(),
        ) {
            Some(e) => Some(e),
            None => first_fault(
                replacement_fault(b.len(), rule.rhss_spec(), k),
                rule.rhss_spec().len(),
            ),
        },
    }
}

/// What is wrong with each rule set of a list.
pub open spec fn rules_fault(rules: Seq<RewriteSet>) -> spec_fn(int) -> Option<CompileError> {
    |k: int| rule_fault(rules[k], k as usize)
}

/// The rule set and the input/output assignment that each pattern comes
/// from. The patterns of the first `n` rule sets are numbered in the order of
/// the rule sets, and those of one rule set in the order of its assignments.
pub open spec fn origins_of(rules: Seq<RewriteSet>, n: nat) -> Seq<(usize, usize)>
    decreases n,
{
    if n == 0 {
        Seq::empty()
    } else {
        origins_of(rules, (n - 1) as nat) + Seq::new(
            rules[n - 1].lhs_ios().len(),
            |o: int| ((n - 1) as usize, o as usize),
        )
    }
}

/// A pattern to match: a left-hand side under one input/output assignment,
/// with its border in pattern order.
#[derive(Debug)]
pub struct Pattern {
    /// The graph of the left-hand side, with the inputs and outputs of the
    /// assignment.
    pub graph: Graph,
    /// The border of the left-hand side.
    pub boundary: Vec<usize>,
}

/// Whether `p` is the left-hand side `lhs` under the assignment `ios`.
pub open spec fn instance_of(p: Pattern, lhs: DecodedGraph, ios: RewriteIos) -> bool {
    &&& spiders(p.graph) == spiders(lhs.graph_spec())
    &&& adjacency(p.graph) == adjacency(lhs.graph_spec())
    &&& vacancies(p.graph) == vacancies(lhs.graph_spec())
    &&& slot_count(p.graph) == slot_count(lhs.graph_spec())
    &&& vertex_list(p.graph) == vertex_list(lhs.graph_spec())
    &&& edge_list(p.graph) == edge_list(lhs.graph_spec())
    &&& oriented(lhs, ios) == Some((input_list(p.graph), output_list(p.graph)))
    &&& border_of(lhs.graph_spec()) == Some(p.boundary@)
}

/// Whether `patterns` are the patterns of `rules`, and `origins` says for
/// each where it comes from.
pub open spec fn registered(
    rules: Seq<RewriteSet>,
    patterns: Seq<Pattern>,
    origins: Seq<(usize, usize)>,
) -> bool {
    &&& origins == origins_of(rules, rules.len())
    &&& patterns.len() == origins.len()
    &&& forall|p: int|
        0 <= p < patterns.len() ==> {
            let (k, o) = #[trigger] origins[p];
            &&& k < rules.len()
            &&& o < rules[k as int].lhs_ios().len()
            &&& instance_of(
                patterns[p],
                rules[k as int].lhs_graph(),
                rules[k as int].lhs_ios()[o as int],
            )
        }
}

/// What is wrong with the pattern at each place, given which patterns were
/// found to have a causal flow.
pub open spec fn flow_fault(origins: Seq<(usize, usize)>, certified: Seq<bool>) -> spec_fn(
    int,
) -> Option<CompileError> {
    |p: int|
        if p < certified.len() && certified[p] {
            None
        } else {
            Some(CompileError::NoCausalFlow { rule_set: origins[p].0, orientation: origins[p].1 })
        }
}

/// Why a list of rule sets cannot be compiled: what is wrong with the first
/// rule set that has something wrong with it, or else the first pattern that
/// has no causal flow.
pub open spec fn compile_fault(rules: Seq<RewriteSet>, certified: Seq<bool>) -> Option<
    CompileError,
> {
    match first_fault(rules_fault(rules), rules.len()) {
        Some(e) => Some(e),
        None => first_fault(
            flow_fault(origins_of(rules, rules.len()), certified),
            origins_of(rules, rules.len()).len(),
        ),
    }
}

/// The first pattern that was not found to have a causal flow.
fn first_uncertified(origins: &Vec<(usize, usize)>, certified: &Vec<bool>) -> (r: Option<
    CompileError,
>)
    ensures
        r == first_fault(flow_fault(origins@, certified@), origins@.len()),
{
    let ghost faults = flow_fault(origins@, certified@);
    let mut p: usize = 0;
    while p < origins.len()
        invariant
            p <= origins.len(),
            faults == flow_fault(origins@, certified@),
            first_fault(faults, p as nat) is None,
        decreases origins.len() - p,
    {
        if p >= certified.len() || !certified[p] {
            proof {
                assert(faults(p as int) is Some);
                lemma_fault_stays(faults, (p + 1) as nat, origins@.len());
            }
            return Some(
                CompileError::NoCausalFlow { rule_set: origins[p].0, orientation: origins[p].1 },
            );
        }
        assert(faults(p as int) is None);
        p += 1;
    }
    None
}

/// A rewriter that applies causal-flow preserving rewrites, compiled from a
/// list of rule sets.
#[derive(Debug)]
pub struct CausalRewriter {
    /// The rule sets. The replacements of a pattern are those of its rule set.
    rules: Vec<RewriteSet>,
    /// The patterns, by pattern number.
    patterns: Vec<Pattern>,
    /// The rule set and the input/output assignment of each pattern.
    origins: Vec<(usize, usize)>,
}

/// One place in a target diagram where a pattern was found.
#[derive(Debug)]
pub struct PatternMatch {
    /// The number of the pattern.
    pub pattern_id: usize,
    /// The target vertices that match the border of the pattern, in the
    /// order of that border.
    pub boundary: Vec<usize>,
    /// The target vertices that match the interior of the pattern.
    pub internal: Vec<usize>,
}

/// What looking for the patterns in a target diagram came to.
#[derive(Debug)]
pub enum Matching {
    /// The target diagram has no causal flow.
    NoCausalFlow,
    /// The target diagram has a causal flow, and the patterns were found at
    /// these places.
    Found(Vec<PatternMatch>),
}

/// The candidate that replaces match `m` by `rhs`.
pub open spec fn candidate(m: PatternMatch, rhs: RewriteRhs) -> Splice {
    Splice {
        lhs_boundary: m.boundary@,
        rhs_boundary: border_of(rhs.g.graph_spec())->Some_0,
        lhs_internal: m.internal@,
        rhs_spiders: spiders(rhs.g.graph_spec()),
        rhs_vertices: vertex_list(rhs.g.graph_spec()),
        rhs_edges: edge_list(rhs.g.graph_spec()),
    }
}

/// The views of a list of candidates.
pub open spec fn views(rewrites: Seq<Rewrite>) -> Seq<Splice> {
    rewrites.map_values(|rw: Rewrite| rw@)
}

/// Whether `list` contains `v`.
fn lists(list: &Vec<usize>, v: usize) -> (r: bool)
    ensures
        r == list@.contains(v),
{
    let mut i: usize = 0;
    while i < list.len()
        invariant
            i <= list.len(),
            forall|j: int| 0 <= j < i ==> list@[j] != v,
        decreases list.len() - i,
    {
        if list[i] == v {
            return true;
        }
        i += 1;
    }
    false
}

/// Whether every edge of `g` between two vertices that a rewrite with border
/// `rb` adds to a diagram is a Hadamard edge.
fn interior_is_hadamard(g: &Graph, rb: &Vec<usize>) -> (r: bool)
    ensures
        r == hadamard_interior(rb@, vertex_list(*g), spiders(*g), edge_list(*g)),
{
    let all = vertices(g);
    let es = edges(g);
    let mut i: usize = 0;
    while i < es.len()
        invariant
            i <= es.len(),
            es@ == edge_list(*g),
            all@ == vertex_list(*g),
            forall|v: usize| all@.contains(v) <==> spiders(*g).dom().contains(v),
            forall|j: int|
                0 <= j < i && materialised(rb@, all@, spiders(*g), (#[trigger] es@[j]).0)
                    && materialised(rb@, all@, spiders(*g), es@[j].1) ==> es@[j].2
                    == EdgeKind::Hadamard,
        decreases es.len() - i,
    {
        let (u, v, kind) = es[i];
        if kind != EdgeKind::Hadamard {
            let first = lists(rb, u) || (contains_vertex(g, u) && !vertex_kind(g, u).boundary());
            if first {
                let second = lists(rb, v) || (contains_vertex(g, v) && !vertex_kind(
                    g,
                    v,
                ).boundary());
                if second {
                    return false;
                }
            }
        }
        i += 1;
    }
    true
}

impl CausalRewriter {
    #[verifier::type_invariant]
    spec fn inv(self) -> bool {
        self.compiled()
    }

    /// The rule sets that the rewriter was compiled from.
    pub closed spec fn rules_spec(self) -> Seq<RewriteSet> {
        self.rules@
    }

    /// The patterns, by pattern number.
    pub closed spec fn patterns_spec(self) -> Seq<Pattern> {
        self.patterns@
    }

    /// The rule set and the input/output assignment of each pattern.
    pub closed spec fn origins_spec(self) -> Seq<(usize, usize)> {
        self.origins@
    }

    /// What holds of every compiled rewriter: nothing is wrong with its rule
    /// sets, and its patterns are the left-hand sides under each of their
    /// input/output assignments, numbered in order.
    pub open spec fn compiled(self) -> bool {
        &&& first_fault(rules_fault(self.rules_spec()), self.rules_spec().len()) is None
        &&& registered(self.rules_spec(), self.patterns_spec(), self.origins_spec())
    }

    /// Checks each rule set, and makes one pattern of its left-hand side for
    /// each of its input/output assignments.
    #[verifier::loop_isolation(false)]
    fn instantiate(rules: &Vec<RewriteSet>) -> (r: Result<
        (Vec<Pattern>, Vec<(usize, usize)>),
        CompileError,
    >)
        ensures
            match first_fault(rules_fault(rules@), rules@.len()) {
                Some(e) => r == Err::<(Vec<Pattern>, Vec<(usize, usize)>), CompileError>(e),
                None => r is Ok && registered(rules@, r->Ok_0.0@, r->Ok_0.1@),
            },
    {
        let mut patterns: Vec<Pattern> = Vec::new();
        let mut origins: Vec<(usize, usize)> = Vec::new();
        let ghost faults = rules_fault(rules@);
        let mut k: usize = 0;
        while k < rules.len()
            invariant
                k <= rules.len(),
                first_fault(faults, k as nat) is None,
                origins@ == origins_of(rules@, k as nat),
                patterns@.len() == origins@.len(),
                forall|p: int|
                    0 <= p < patterns@.len() ==> {
                        let (a, o) = #[trigger] origins@[p];
                        &&& a < rules@.len()
                        &&& o < rules@[a as int].lhs_ios().len()
                        &&& instance_of(
                            patterns@[p],
                            rules@[a as int].lhs_graph(),
                            rules@[a as int].lhs_ios()[o as int],
                        )
                    },
            decreases rules.len() - k,
        {
            let rule = &rules[k];
            let lhs = rule.lhs();
            let boundary = match lhs.boundary() {
                None => {
                    proof {
                        lemma_fault_stays(faults, (k + 1) as nat, rules@.len());
                    }
                    return Err(CompileError::LhsBoundary { rule_set: k });
                },
                Some(b) => b,
            };
            let ghost ofaults = orientation_fault(rule.lhs_graph(), rule.lhs_ios(), k);
            let orientations = match lhs.ios() {
                Err(at) => {
                    proof {
                        lemma_fault_at(ofaults, at as nat);
                        lemma_fault_stays(ofaults, (at + 1) as nat, rule.lhs_ios().len());
                        lemma_fault_stays(faults, (k + 1) as nat, rules@.len());
                    }
                    return Err(CompileError::UnknownName { rule_set: k, orientation: at });
                },
                Ok(all) => all,
            };
            proof {
                lemma_fault_at(ofaults, rule.lhs_ios().len());
            }
            let ghost before = origins@;
            let mut o: usize = 0;
            while o < orientations.len()
                invariant
                    o <= orientations.len(),
                    origins@ == before + Seq::new(o as nat, |i: int| (k, i as usize)),
                    patterns@.len() == origins@.len(),
                    forall|p: int|
                        0 <= p < patterns@.len() ==> {
                            let (a, i) = #[trigger] origins@[p];
                            &&& a < rules@.len()
                            &&& i < rules@[a as int].lhs_ios().len()
                            &&& instance_of(
                                patterns@[p],
                                rules@[a as int].lhs_graph(),
                                rules@[a as int].lhs_ios()[i as int],
                            )
                        },
                decreases orientations.len() - o,
            {
                let mut p = clone_graph(lhs.graph());
                set_inputs(&mut p, orientations[o].0.clone());
                set_outputs(&mut p, orientations[o].1.clone());
                let ghost was = origins@;
                let ghost had = patterns@;
                patterns.push(Pattern { graph: p, boundary: boundary.clone() });
                origins.push((k, o));
                proof {
                    assert(origins@ =~= before + Seq::new(
                        (o + 1) as nat,
                        |i: int| (k, i as usize),
                    ));
                    assert forall|q: int| 0 <= q < patterns@.len() implies {
                        let (a, i) = #[trigger] origins@[q];
                        &&& a < rules@.len()
                        &&& i < rules@[a as int].lhs_ios().len()
                        &&& instance_of(
                            patterns@[q],
                            rules@[a as int].lhs_graph(),
                            rules@[a as int].lhs_ios()[i as int],
                        )
                    } by {
                        if q < had.len() {
                            assert(origins@[q] == was[q]);
                            assert(patterns@[q] == had[q]);
                        } else {
                            assert(oriented(lhs.side_graph(), lhs.side_ios()[o as int]) is Some);
                        }
                    }
                }
                o += 1;
            }
            assert(origins@ == origins_of(rules@, (k + 1) as nat)) by {
                assert(Seq::new(orientations@.len(), |i: int| (k, i as usize)) =~= Seq::new(
                    rules@[k as int].lhs_ios().len(),
                    |i: int| (k, i as usize),
                ));
            }
            let rhss = rule.rhss();
            let ghost rfaults = replacement_fault(boundary@.len(), rule.rhss_spec(), k);
            let mut j: usize = 0;
            while j < rhss.len()
                invariant
                    j <= rhss.len(),
                    first_fault(rfaults, j as nat) is None,
                decreases rhss.len() - j,
            {
                let fault = match rhss[j].boundary() {
                    None => Some(CompileError::RhsBoundary { rule_set: k, rhs: j }),
                    Some(b) => if b.len() != boundary.len() {
                        Some(CompileError::ArityMismatch { rule_set: k, rhs: j })
                    } else if !interior_is_hadamard(rhss[j].graph(), &b) {
                        Some(CompileError::PlainInteriorEdge { rule_set: k, rhs: j })
                    } else {
                        None
                    },
                };
                assert(fault == rfaults(j as int));
                if let Some(e) = fault {
                    proof {
                        lemma_fault_stays(rfaults, (j + 1) as nat, rhss@.len());
                        lemma_fault_stays(faults, (k + 1) as nat, rules@.len());
                    }
                    return Err(e);
                }
                j += 1;
            }
            assert(faults(k as int) is None);
            k += 1;
        }
        Ok((patterns, origins))
    }

    /// The patterns of a list of rule sets: the left-hand side of each rule
    /// set under each of its input/output assignments, in order. The place of
    /// a pattern in the list is its number. Whoever compiles the rule sets
    /// finds out for each pattern whether its graph has a causal flow.
    pub fn patterns_of(rules: &Vec<RewriteSet>) -> (r: Result<Vec<Pattern>, CompileError>)
        ensures
            match first_fault(rules_fault(rules@), rules@.len()) {
                Some(e) => r == Err::<Vec<Pattern>, CompileError>(e),
                None => r is Ok && registered(
                    rules@,
                    r->Ok_0@,
                    origins_of(rules@, rules@.len()),
                ),
            },
    {
        match Self::instantiate(rules) {
            Err(e) => Err(e),
            Ok((patterns, _)) => Ok(patterns),
        }
    }

    /// Compiles rule sets into a rewriter. `certified[p]` says whether the
    /// graph of pattern `p` of [`CausalRewriter::patterns_of`] has a causal
    /// flow; a pattern beyond the end of `certified` counts as having none.
    /// Fails where something is wrong with a rule set, and else where a
    /// pattern has no causal flow.
    pub fn from_rewrite_rules(rules: Vec<RewriteSet>, certified: &Vec<bool>) -> (r: Result<
        Self,
        CompileError,
    >)
        ensures
            match compile_fault(rules@, certified@) {
                Some(e) => r == Err::<Self, CompileError>(e),
                None => r is Ok && r->Ok_0.rules_spec() == rules@ && r->Ok_0.compiled()
                    && r->Ok_0.arity_holds(),
            },
    {
        let (patterns, origins) = match Self::instantiate(&rules) {
            Err(e) => {
                return Err(e);
            },
            Ok(made) => made,
        };
        if let Some(e) = first_uncertified(&origins, certified) {
            return Err(e);
        }
        let rewriter = CausalRewriter { rules, patterns, origins };
        proof {
            rewriter.lemma_arity();
        }
        Ok(rewriter)
    }

    /// Arity: the border of every pattern is as long as the border of each
    /// replacement of its rule set, whatever the input/output assignment that
    /// the pattern was made for.
    pub open spec fn arity_holds(self) -> bool {
        forall|p: usize, j: int|
            #![trigger self.alternatives(p)[j]]
            p < self.patterns_spec().len() && 0 <= j < self.alternatives(p).len() ==> {
                &&& border_of(self.alternatives(p)[j].g.graph_spec()) is Some
                &&& border_of(self.alternatives(p)[j].g.graph_spec())->Some_0.len()
                    == self.patterns_spec()[p as int].boundary@.len()
            }
    }

    /// The replacements among which a match of pattern `p` may choose.
    pub open spec fn alternatives(self, p: usize) -> Seq<RewriteRhs> {
        self.rules_spec()[self.origins_spec()[p as int].0 as int].rhss_spec()
    }

    /// What is wrong with the match at each place.
    pub open spec fn match_fault(self, ms: Seq<PatternMatch>) -> spec_fn(int) -> Option<
        RewriteError,
    > {
        |i: int|
            if ms[i].pattern_id >= self.patterns_spec().len() {
                Some(RewriteError::UnknownPattern)
            } else if ms[i].boundary@.len() != self.patterns_spec()[ms[i].pattern_id
                as int].boundary@.len() {
                Some(RewriteError::ArityMismatch)
            } else {
                None
            }
    }

    /// The candidates of the first `n` matches: for each match in order, one
    /// for each replacement of its pattern's rule set, in order.
    pub open spec fn candidates(self, ms: Seq<PatternMatch>, n: nat) -> Seq<Splice>
        decreases n,
    {
        if n == 0 {
            Seq::empty()
        } else {
            self.candidates(ms, (n - 1) as nat) + Seq::new(
                self.alternatives(ms[n - 1].pattern_id).len(),
                |j: int| candidate(ms[n - 1], self.alternatives(ms[n - 1].pattern_id)[j]),
            )
        }
    }

    /// A compiled rewriter has the arity property.
    pub proof fn lemma_arity(self)
        requires
            self.compiled(),
        ensures
            self.arity_holds(),
    {
        assert forall|p: usize, j: int|
            #![trigger self.alternatives(p)[j]]
            p < self.patterns_spec().len() && 0 <= j < self.alternatives(p).len() implies {
            &&& border_of(self.alternatives(p)[j].g.graph_spec()) is Some
            &&& border_of(self.alternatives(p)[j].g.graph_spec())->Some_0.len()
                == self.patterns_spec()[p as int].boundary@.len()
        } by {
            self.lemma_alternative(p, j);
        }
    }

    /// What compiling has checked of replacement `j` of pattern `p`.
    proof fn lemma_alternative(self, p: usize, j: int)
        requires
            self.compiled(),
            p < self.patterns_spec().len(),
            0 <= j < self.alternatives(p).len(),
        ensures
            replacement_fault(
                self.patterns_spec()[p as int].boundary@.len(),
                self.alternatives(p),
                self.origins_spec()[p as int].0,
            )(j) is None,
    {
        let k = self.origins_spec()[p as int].0;
        let rule = self.rules_spec()[k as int];
        lemma_no_fault(rules_fault(self.rules_spec()), self.rules_spec().len(), k as int);
        assert(rule_fault(rule, k) is None);
        let b = border_of(rule.lhs_graph().graph_spec())->Some_0;
        lemma_no_fault(replacement_fault(b.len(), rule.rhss_spec(), k), rule.rhss_spec().len(), j);
    }

    /// The patterns to register with the matcher. The place of a pattern in
    /// the list is its number.
    pub fn patterns(&self) -> (r: &Vec<Pattern>)
        ensures
            r@ == self.patterns_spec(),
    {
        &self.patterns
    }
}

/// A source of rewrites for diagrams.
pub trait Rewriter {
    /// What the rewriter hands out and takes back.
    type Rewrite;

    /// The rewrites that can be applied to a target diagram, given what the
    /// matcher found in it. Where the diagram has no causal flow there is
    /// nothing to rewrite, and the rewriter says so.
    fn get_rewrites(&self, matching: &Matching) -> (r: Result<Vec<Self::Rewrite>, RewriteError>)
        ensures
            *matching is NoCausalFlow ==> r == Err::<Vec<Self::Rewrite>, RewriteError>(
                RewriteError::NoCausalFlow,
            ),
    ;

    /// Applies a rewrite to a copy of `graph`. The inputs and outputs of the
    /// diagram stay the vertices they were.
    fn apply_rewrite(&self, rewrite: Self::Rewrite, graph: &Graph) -> (r: Result<
        RewriteResult,
        RewriteError,
    >)
        requires
            well_formed(*graph),
        ensures
            r is Ok ==> well_formed(r->Ok_0.graph) && input_list(r->Ok_0.graph) == input_list(
                *graph,
            ) && output_list(r->Ok_0.graph) == output_list(*graph),
    ;
}

impl Rewriter for CausalRewriter {
    type Rewrite = Rewrite;

    /// The candidate rewrites for what the matcher found in a target diagram:
    /// every match paired with every replacement of its pattern's rule set.
    /// Nothing is ranked and nothing is left out.
    #[verifier::loop_isolation(false)]
    fn get_rewrites(&self, matching: &Matching) -> (r: Result<Vec<Rewrite>, RewriteError>)
        ensures
            match *matching {
                Matching::NoCausalFlow => r == Err::<Vec<Rewrite>, RewriteError>(
                    RewriteError::NoCausalFlow,
                ),
                Matching::Found(ms) => match first_fault(self.match_fault(ms@), ms@.len()) {
                    Some(e) => r == Err::<Vec<Rewrite>, RewriteError>(e),
                    None => r is Ok && views(r->Ok_0@) == self.candidates(ms@, ms@.len())
                        && forall|i: int|
                        0 <= i < r->Ok_0@.len() ==> (#[trigger] r->Ok_0@[i])@.well_formed(),
                },
            },
    {
        proof {
            use_type_invariant(self);
        }
        let ms = match matching {
            Matching::NoCausalFlow => {
                return Err(RewriteError::NoCausalFlow);
            },
            Matching::Found(ms) => ms,
        };
        let ghost faults = self.match_fault(ms@);
        let mut found: Vec<Rewrite> = Vec::new();
        let mut i: usize = 0;
        while i < ms.len()
            invariant
                i <= ms.len(),
                first_fault(faults, i as nat) is None,
                views(found@) == self.candidates(ms@, i as nat),
                forall|q: int| 0 <= q < found@.len() ==> (#[trigger] found@[q])@.well_formed(),
            decreases ms.len() - i,
        {
            let m = &ms[i];
            let p = m.pattern_id;
            if p >= self.patterns.len() {
                proof {
                    assert(faults(i as int) == Some(RewriteError::UnknownPattern));
                    lemma_fault_stays(faults, (i + 1) as nat, ms@.len());
                }
                return Err(RewriteError::UnknownPattern);
            }
            if m.boundary.len() != self.patterns[p].boundary.len() {
                proof {
                    assert(faults(i as int) == Some(RewriteError::ArityMismatch));
                    lemma_fault_stays(faults, (i + 1) as nat, ms@.len());
                }
                return Err(RewriteError::ArityMismatch);
            }
            assert(faults(i as int) is None);
            let rhss = self.rules[self.origins[p].0].rhss();
            let ghost before = views(found@);
            let mut j: usize = 0;
            while j < rhss.len()
                invariant
                    j <= rhss.len(),
                    views(found@) == before + Seq::new(
                        j as nat,
                        |a: int| candidate(*m, rhss@[a]),
                    ),
                    forall|q: int| 0 <= q < found@.len() ==> (#[trigger] found@[q])@.well_formed(),
                decreases rhss.len() - j,
            {
                proof {
                    self.lemma_alternative(p, j as int);
                }
                let rhs_boundary = match rhss[j].boundary() {
                    None => {
                        proof {
                            assert(false);
                        }
                        return Err(RewriteError::ArityMismatch);
                    },
                    Some(b) => b,
                };
                let ghost had = found@;
                let rewrite = Rewrite {
                    lhs_boundary: m.boundary.clone(),
                    rhs_boundary,
                    lhs_internal: m.internal.clone(),
                    rhs: clone_graph(rhss[j].graph()),
                };
                assert(rewrite@ == candidate(*m, rhss@[j as int]));
                found.push(rewrite);
                proof {
                    assert(views(found@) =~= before + Seq::new(
                        (j + 1) as nat,
                        |a: int| candidate(*m, rhss@[a]),
                    )) by {
                        assert(views(had) == before + Seq::new(
                            j as nat,
                            |a: int| candidate(*m, rhss@[a]),
                        ));
                        assert(views(found@) =~= views(had).push(rewrite@));
                    }
                    assert forall|q: int| 0 <= q < found@.len() implies (
                    #[trigger] found@[q])@.well_formed() by {
                        if q < had.len() {
                            assert(found@[q] == had[q]);
                        }
                    }
                }
                j += 1;
            }
            assert(views(found@) == self.candidates(ms@, (i + 1) as nat)) by {
                assert(Seq::new(rhss@.len(), |a: int| candidate(*m, rhss@[a])) =~= Seq::new(
                    self.alternatives(ms@[i as int].pattern_id).len(),
                    |a: int|
                        candidate(ms@[i as int], self.alternatives(ms@[i as int].pattern_id)[a]),
                ));
            }
            i += 1;
        }
        Ok(found)
    }

    /// Replaces the match of the candidate by its replacement, in a copy of
    /// `graph`: deletes the interior of the match, overwrites its border with
    /// the border of the replacement, adds the interior of the replacement and
    /// reconnects it.
    ///
    /// What lies outside the match stays as it was. Where the diagram was in
    /// normal form and the border of the match consists of spiders before and
    /// after, the new diagram is in normal form.
    #[verifier::loop_isolation(false)]
    fn apply_rewrite(&self, rewrite: Rewrite, graph: &Graph) -> (r: Result<
        RewriteResult,
        RewriteError,
    >)
        ensures
            applied(model(*graph), rewrite@, r),
            r is Ok ==> local(model(*graph), rewrite@, model(r->Ok_0.graph)),
            r is Ok && normal(model(*graph)) && inner_border(model(*graph), rewrite@) ==> normal(
                model(r->Ok_0.graph),
            ),
    {
        proof {
            use_type_invariant(&rewrite);
        }
        let ghost d0 = model(*graph);
        let ghost sp = rewrite@;
        let mut g = clone_graph(graph);
        let mut names: HashMap<usize, usize> = HashMap::new();

        // Delete the interior of the match.
        let mut i: usize = 0;
        while i < rewrite.lhs_internal.len()
            invariant
                i <= rewrite.lhs_internal.len(),
                well_formed(g),
                model(g).inputs == d0.inputs && model(g).outputs == d0.outputs,
                model(g) == cleared(d0, sp.lhs_internal, i as nat),
                forall|j: int| 0 <= j < i ==> d0.has(#[trigger] sp.lhs_internal[j]),
                forall|j: int, k: int|
                    0 <= j < k < i ==> sp.lhs_internal[j] != sp.lhs_internal[k],
            decreases rewrite.lhs_internal.len() - i,
        {
            let v = rewrite.lhs_internal[i];
            proof {
                lemma_cleared_vertices(d0, sp.lhs_internal, i as nat);
                assert(cleared(d0, sp.lhs_internal, i as nat).has(v) <==> d0.has(v) && !among(
                    sp.lhs_internal,
                    i as nat,
                    v,
                ));
            }
            if !contains_vertex(&g, v) {
                proof {
                    if among(sp.lhs_internal, i as nat, v) {
                        let j = choose|j: int| 0 <= j < i && sp.lhs_internal[j] == v;
                        assert(sp.lhs_internal[j] == sp.lhs_internal[i as int]);
                    } else {
                        assert(!d0.has(sp.lhs_internal[i as int]));
                    }
                    assert(!sp.fits(d0));
                }
                return Err(RewriteError::MissingVertex);
            }
            remove_vertex(&mut g, v);
            i += 1;
        }
        let ghost d1 = model(g);

        // Overwrite the border of the match with the border of the replacement.
        let mut i: usize = 0;
        while i < rewrite.lhs_boundary.len()
            invariant
                i <= rewrite.lhs_boundary.len(),
                well_formed(g),
                model(g).inputs == d0.inputs && model(g).outputs == d0.outputs,
                model(g) == spliced(d1, sp.lhs_boundary, sp.rhs_boundary, sp.rhs_spiders, i as nat),
                names@ == paired(sp.rhs_boundary, sp.lhs_boundary, i as nat),
                forall|j: int| 0 <= j < i ==> d1.has(#[trigger] sp.lhs_boundary[j]),
                forall|x: usize| names@.dom().contains(x) ==> model(g).has(#[trigger] names@[x]),
            decreases rewrite.lhs_boundary.len() - i,
        {
            let l = rewrite.lhs_boundary[i];
            let r = rewrite.rhs_boundary[i];
            proof {
                lemma_cleared_vertices(d0, sp.lhs_internal, sp.lhs_internal.len());
                lemma_spliced_frame(
                    d1,
                    sp.lhs_boundary,
                    sp.rhs_boundary,
                    sp.rhs_spiders,
                    i as nat,
                );
                assert(cleared(d0, sp.lhs_internal, sp.lhs_internal.len()).has(l) <==> d0.has(l)
                    && !among(sp.lhs_internal, sp.lhs_internal.len(), l));
            }
            if !contains_vertex(&g, l) {
                proof {
                    if d0.has(l) {
                        let j = choose|j: int|
                            0 <= j < sp.lhs_internal.len() && sp.lhs_internal[j] == l;
                        assert(sp.lhs_internal.contains(sp.lhs_boundary[i as int]));
                    }
                    assert(!sp.fits(d0));
                }
                return Err(RewriteError::MissingVertex);
            }
            let phase = vertex_phase(&rewrite.rhs, r);
            let kind = vertex_kind(&rewrite.rhs, r);
            let ghost before = g;
            set_phase(&mut g, l, phase);
            let ghost between = g;
            set_kind(&mut g, l, kind);
            names.insert(r, l);
            proof {
                lemma_wiring(before, between);
                lemma_wiring(between, g);
                assert(spiders(g) =~= spiders(before).insert(l, sp.rhs_spiders[r]));
                assert(forall|v: usize| model(g).has(v) == model(before).has(v));
                assert(model(g).sound());
            }
            i += 1;
        }
        let ghost d2 = model(g);
        let ghost names2 = names@;
        proof {
            lemma_cleared_vertices(d0, sp.lhs_internal, sp.lhs_internal.len());
            assert forall|j: int| 0 <= j < sp.lhs_boundary.len() implies d0.has(
                #[trigger] sp.lhs_boundary[j],
            ) && !sp.lhs_internal.contains(sp.lhs_boundary[j]) by {
                assert(d1.has(sp.lhs_boundary[j]));
                assert(cleared(d0, sp.lhs_internal, sp.lhs_internal.len()).has(
                    sp.lhs_boundary[j],
                ) <==> d0.has(sp.lhs_boundary[j]) && !among(
                    sp.lhs_internal,
                    sp.lhs_internal.len(),
                    sp.lhs_boundary[j],
                ));
                if sp.lhs_internal.contains(sp.lhs_boundary[j]) {
                    let k = choose|k: int|
                        0 <= k < sp.lhs_internal.len() && sp.lhs_internal[k]
                            == sp.lhs_boundary[j];
                    assert(among(sp.lhs_internal, sp.lhs_internal.len(), sp.lhs_boundary[j]));
                }
            }
            assert(sp.fits(d0));
        }

        // Add the interior of the replacement.
        let rhs_vertices = vertices(&rewrite.rhs);
        let mut i: usize = 0;
        while i < rhs_vertices.len()
            invariant
                i <= rhs_vertices.len(),
                well_formed(g),
                model(g).inputs == d0.inputs && model(g).outputs == d0.outputs,
                (model(g), names@) == grown(d2, names2, sp.rhs_vertices, sp.rhs_spiders, i as nat),
                forall|x: usize| names@.dom().contains(x) ==> model(g).has(#[trigger] names@[x]),
            decreases rhs_vertices.len() - i,
        {
            let r = rhs_vertices[i];
            assert(rhs_vertices@.contains(r));
            if !names.contains_key(&r) {
                let kind = vertex_kind(&rewrite.rhs, r);
                if !kind.boundary() {
                    let phase = vertex_phase(&rewrite.rhs, r);
                    let v = add_vertex_with_phase(&mut g, kind, phase);
                    names.insert(r, v);
                }
            }
            i += 1;
        }
        let ghost d3 = model(g);
        let ghost names3 = names@;
        assert((d3, names3) == planted(d0, sp));

        // Reconnect.
        let rhs_edges = edges(&rewrite.rhs);
        let mut i: usize = 0;
        while i < rhs_edges.len()
            invariant
                i <= rhs_edges.len(),
                well_formed(g),
                model(g).inputs == d0.inputs && model(g).outputs == d0.outputs,
                names@ == names3,
                wired(d3, names3, sp.rhs_edges, i as nat) == Some(model(g)),
                forall|x: usize| names@.dom().contains(x) ==> model(g).has(#[trigger] names@[x]),
            decreases rhs_edges.len() - i,
        {
            let (u, v, kind) = rhs_edges[i];
            let a = names.get(&u);
            let b = names.get(&v);
            if a.is_some() && b.is_some() {
                let s = *a.unwrap();
                let t = *b.unwrap();
                let admitted = admits_edge(&g, s, t, kind);
                if !admitted {
                    proof {
                        assert(wired(d3, names3, sp.rhs_edges, (i + 1) as nat) is None);
                        lemma_wired_none_stays(
                            d3,
                            names3,
                            sp.rhs_edges,
                            (i + 1) as nat,
                            sp.rhs_edges.len(),
                        );
                    }
                    return Err(RewriteError::UnsupportedMerge);
                }
                add_edge_smart(&mut g, s, t, kind);
            }
            i += 1;
        }
        proof {
            assert(rewritten(d0, sp) == Ok::<Diagram, RewriteError>(model(g)));
            assert forall|a: usize|
                d0.has(a) && !sp.lhs_internal.contains(a) && !sp.lhs_boundary.contains(
                    a,
                ) implies #[trigger] kept_at(d0, sp, model(g), a) by {
                lemma_locality(d0, sp, a);
            }
            if normal(d0) && inner_border(d0, sp) {
                lemma_edge_kinds(d0, sp);
            }
        }
        Ok(RewriteResult { graph: g, cost_delta: 0 })
    }
}

/// Determinism: two applications of one candidate to one diagram come to the
/// same. Both fail with the same error, or both give the same diagram at the
/// same cost.
pub proof fn lemma_deterministic(
    d: Diagram,
    sp: Splice,
    first: Result<RewriteResult, RewriteError>,
    second: Result<RewriteResult, RewriteError>,
)
    requires
        applied(d, sp, first),
        applied(d, sp, second),
    ensures
        first is Ok <==> second is Ok,
        first is Ok ==> model(first->Ok_0.graph) == model(second->Ok_0.graph)
            && first->Ok_0.cost_delta == second->Ok_0.cost_delta,
        first is Err ==> first->Err_0 == second->Err_0,
{
}

} // verus!
