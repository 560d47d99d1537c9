use vstd::prelude::*;

use crate::formula::{Atom, AtomModel, Formula, FormulaModel, Term, TermModel, Var, formulas_model};
use crate::graph::{Direction, Edge, FlowGraph, Node, Side};
use crate::rational::{lemma_same_value, q_le, Capacity, SolverNum};

verus! {

/// Why a graph could not be encoded.
#[derive(Clone, Copy, Debug, PartialEq, Eq, Structural)]
pub enum EncodeError {
    /// A node has a number of incident edges that its kind does not allow.
    GraphInvariant { node: usize, incoming: usize, outgoing: usize },
    /// A capacity, or a constant derived from it, does not fit the solver's
    /// native integer width.
    NumericRange { edge: usize },
}

/// What the encoding of a graph has produced so far: the encoded edges with
/// their variables, the variables of the input and output nodes with their
/// node indices, and the constraints, each in order of emission.
pub struct EncodingContext {
    pub edge_vars: Vec<(usize, Var)>,
    pub input_vars: Vec<(usize, Var)>,
    pub output_vars: Vec<(usize, Var)>,
    pub constraints: Vec<Formula>,
}

/// What encoding some nodes adds: constraints and registered variables.
pub struct Encoding {
    pub constraints: Seq<FormulaModel>,
    pub inputs: Seq<(usize, Var)>,
    pub outputs: Seq<(usize, Var)>,
}

impl Encoding {
    pub open spec fn followed_by(self, next: Encoding) -> Encoding {
        Encoding {
            constraints: self.constraints + next.constraints,
            inputs: self.inputs + next.inputs,
            outputs: self.outputs + next.outputs,
        }
    }
}

pub open spec fn var_term(v: Var) -> TermModel {
    TermModel::Var(v)
}

pub open spec fn edge_term(e: usize) -> TermModel {
    TermModel::Var(Var::Edge(e))
}

pub open spec fn zero_num() -> SolverNum {
    SolverNum { numer: 0, denom: 1 }
}

/// The flow variables of a list of edges.
pub open spec fn edge_vars_of(es: Seq<usize>) -> Seq<Var> {
    es.map_values(|e: usize| Var::Edge(e))
}

/// `0 <= flow(idx) <= capacity`.
pub open spec fn edge_constraints(e: Edge, idx: usize) -> Seq<FormulaModel> {
    seq![
        FormulaModel::Atom(AtomModel::Le(edge_term(idx), TermModel::Num(e.capacity.solver_value()))),
        FormulaModel::Atom(AtomModel::Ge(edge_term(idx), TermModel::Num(zero_num()))),
    ]
}

/// Conservation at `node`: the inbound flows sum to the outbound flows.
pub open spec fn conservation(g: FlowGraph, node: usize) -> FormulaModel {
    FormulaModel::Atom(
        AtomModel::Eq(
            TermModel::Sum(edge_vars_of(g.in_edges(node))),
            TermModel::Sum(edge_vars_of(g.out_edges(node))),
        ),
    )
}

pub open spec fn capacity_of(g: FlowGraph, e: usize) -> Capacity {
    g.edges@[e as int].capacity
}

/// The routing constraint of a splitter with inbound edge `inp` and outbound
/// edges `a` (listed first, the edge on side `Left`) and `b` (side `Right`).
/// Symmetric routing takes the edge of weakly smaller capacity as `lo`, `a`
/// on a tie; priority routing takes the edge on the given side as `prio`.
pub open spec fn splitter_routing(
    g: FlowGraph,
    inp: usize,
    a: usize,
    b: usize,
    priority: Option<Side>,
) -> Result<FormulaModel, EncodeError> {
    match priority {
        None => {
            let (lo, hi) = if q_le(capacity_of(g, a).value(), capacity_of(g, b).value()) {
                (a, b)
            } else {
                (b, a)
            };
            let c = capacity_of(g, lo);
            if c.doubled_representable() {
                Ok(
                    FormulaModel::Ite(
                        AtomModel::Le(edge_term(inp), TermModel::Num(c.doubled_solver_value())),
                        AtomModel::Eq(edge_term(lo), edge_term(hi)),
                        AtomModel::Eq(edge_term(lo), TermModel::Num(c.solver_value())),
                    ),
                )
            } else {
                Err(EncodeError::NumericRange { edge: lo })
            }
        },
        Some(side) => {
            let (prio, other) = if side == Side::Left {
                (a, b)
            } else {
                (b, a)
            };
            let c = capacity_of(g, prio);
            Ok(
                FormulaModel::Ite(
                    AtomModel::Le(edge_term(inp), TermModel::Num(c.solver_value())),
                    AtomModel::Eq(edge_term(other), TermModel::Num(zero_num())),
                    AtomModel::Eq(edge_term(prio), TermModel::Num(c.solver_value())),
                ),
            )
        },
    }
}

pub open spec fn arity_error(g: FlowGraph, node: usize) -> EncodeError {
    EncodeError::GraphInvariant {
        node,
        incoming: g.in_edges(node).len() as usize,
        outgoing: g.out_edges(node).len() as usize,
    }
}

pub open spec fn only_constraints(cs: Seq<FormulaModel>) -> Encoding {
    Encoding { constraints: cs, inputs: seq![], outputs: seq![] }
}

/// What encoding node `idx` of kind `n` adds, or why it fails.
pub open spec fn node_encoding(n: Node, g: FlowGraph, idx: usize) -> Result<Encoding, EncodeError> {
    let ins = g.in_edges(idx);
    let outs = g.out_edges(idx);
    match n {
        Node::Connector => Ok(only_constraints(seq![conservation(g, idx)])),
        Node::Merger => Ok(only_constraints(seq![conservation(g, idx)])),
        Node::Input { id } => if outs.len() == 1 {
            Ok(
                Encoding {
                    constraints: seq![
                        FormulaModel::Atom(
                            AtomModel::Eq(var_term(Var::Input(idx, id)), edge_term(outs[0])),
                        ),
                    ],
                    inputs: seq![(idx, Var::Input(idx, id))],
                    outputs: seq![],
                },
            )
        } else {
            Err(arity_error(g, idx))
        },
        Node::Output => if ins.len() == 1 {
            Ok(
                Encoding {
                    constraints: seq![
                        FormulaModel::Atom(
                            AtomModel::Eq(var_term(Var::Output(idx)), edge_term(ins[0])),
                        ),
                    ],
                    inputs: seq![],
                    outputs: seq![(idx, Var::Output(idx))],
                },
            )
        } else {
            Err(arity_error(g, idx))
        },
        Node::Splitter { output_priority } => if ins.len() == 1 && outs.len() == 2 {
            match splitter_routing(g, ins[0], outs[0], outs[1], output_priority) {
                Ok(f) => Ok(only_constraints(seq![conservation(g, idx), f])),
                Err(e) => Err(e),
            }
        } else {
            Err(arity_error(g, idx))
        },
    }
}

impl EncodingContext {
    /// Edge `e` has been encoded.
    pub open spec fn has_edge(&self, e: usize) -> bool {
        exists|i: int| 0 <= i < self.edge_vars@.len() && (#[trigger] self.edge_vars@[i]).0 == e
    }

    /// The variable of each encoded edge.
    pub open spec fn edge_map(&self) -> Map<usize, Var> {
        Map::new(|e: usize| self.has_edge(e), |e: usize| Var::Edge(e))
    }

    /// Each encoded edge is listed once, with its own variable `Edge(e)`: edge
    /// identity to variable is one-to-one.
    pub open spec fn edges_wf(&self) -> bool {
        &&& forall|i: int| 0 <= i < self.edge_vars@.len() ==> (#[trigger] self.edge_vars@[i]).1 == Var::Edge(self.edge_vars@[i].0)
        &&& forall|i: int, j: int|
            0 <= i < j < self.edge_vars@.len() ==> (#[trigger] self.edge_vars@[i]).0 != (#[trigger] self.edge_vars@[j]).0
    }

    /// Every edge of `g` is encoded, and every capacity fits the solver.
    pub open spec fn edges_ready(&self, g: &FlowGraph) -> bool {
        &&& self.edges_wf()
        &&& forall|e: usize| e < g.edges@.len() ==> #[trigger] self.has_edge(e)
        &&& forall|i: int| 0 <= i < g.edges@.len() ==> (#[trigger] g.edges@[i]).capacity.representable()
    }

    /// An empty context.
    pub fn new() -> (r: EncodingContext)
        ensures
            r.edge_vars@ == Seq::<(usize, Var)>::empty(),
            r.input_vars@ == Seq::<(usize, Var)>::empty(),
            r.output_vars@ == Seq::<(usize, Var)>::empty(),
            r.constraints@ == Seq::<Formula>::empty(),
    {
        EncodingContext {
            edge_vars: Vec::new(),
            input_vars: Vec::new(),
            output_vars: Vec::new(),
            constraints: Vec::new(),
        }
    }

    fn push_constraint(&mut self, f: Formula)
        ensures
            formulas_model(final(self).constraints@) == formulas_model(old(self).constraints@).push(f@),
            final(self).edge_vars@ == old(self).edge_vars@,
            final(self).input_vars@ == old(self).input_vars@,
            final(self).output_vars@ == old(self).output_vars@,
    {
        let ghost before = self.constraints@;
        self.constraints.push(f);
        assert(formulas_model(self.constraints@) =~= formulas_model(before).push(f@));
    }
}

/// The flow variables of the given edges.
fn vars_of(es: &Vec<usize>) -> (r: Vec<Var>)
    ensures
        r@ == edge_vars_of(es@),
{
    let mut r: Vec<Var> = Vec::new();
    let mut k: usize = 0;
    while k < es.len()
        invariant
            k <= es@.len(),
            r@ == edge_vars_of(es@.take(k as int)),
        decreases es@.len() - k,
    {
        r.push(Var::Edge(es[k]));
        assert(es@.take(k + 1) =~= es@.take(k as int).push(es@[k as int]));
        k = k + 1;
    }
    assert(es@.take(k as int) =~= es@);
    r
}

/// Emits conservation at `node_idx`: the sum of its inbound flow variables
/// equals the sum of its outbound flow variables.
pub fn kirchhoff_law(node_idx: usize, graph: &FlowGraph, ctx: &mut EncodingContext)
    requires
        old(ctx).edges_ready(graph),
    ensures
        formulas_model(final(ctx).constraints@) == formulas_model(old(ctx).constraints@).push(
            conservation(*graph, node_idx),
        ),
        final(ctx).edge_vars@ == old(ctx).edge_vars@,
        final(ctx).input_vars@ == old(ctx).input_vars@,
        final(ctx).output_vars@ == old(ctx).output_vars@,
{
    let ins = graph.incident_edges(node_idx, Direction::Incoming);
    let outs = graph.incident_edges(node_idx, Direction::Outgoing);
    let in_vars = vars_of(&ins);
    let out_vars = vars_of(&outs);
    ctx.push_constraint(Formula::Atom(Atom::Eq(Term::Sum(in_vars), Term::Sum(out_vars))));
}

/// The routing constraint of a splitter (see [`splitter_routing`]).
fn route_splitter(
    graph: &FlowGraph,
    ctx: &EncodingContext,
    inp: usize,
    a: usize,
    b: usize,
    priority: Option<Side>,
) -> (r: Result<Formula, EncodeError>)
    requires
        ctx.edges_ready(graph),
        inp < graph.edges@.len(),
        a < graph.edges@.len(),
        b < graph.edges@.len(),
    ensures
        match splitter_routing(*graph, inp, a, b, priority) {
            Ok(f) => r is Ok && r->Ok_0@ == f,
            Err(e) => r == Err::<Formula, EncodeError>(e),
        },
{
    let in_var = Var::Edge(inp);
    match priority {
        None => {
            let ca = graph.edges[a].capacity.to_solver().unwrap();
            let cb = graph.edges[b].capacity.to_solver().unwrap();
            proof {
                let va = graph.edges@[a as int].capacity.value();
                let vb = graph.edges@[b as int].capacity.value();
                lemma_same_value(ca.value(), va, cb.value());
                lemma_same_value(cb.value(), vb, va);
            }
            let (lo, hi) = if ca.le(&cb) {
                (a, b)
            } else {
                (b, a)
            };
            let cap = graph.edges[lo].capacity;
            let lo_cap = cap.to_solver().unwrap();
            let threshold = match cap.doubled_to_solver() {
                Some(t) => t,
                None => {
                    return Err(EncodeError::NumericRange { edge: lo });
                },
            };
            let lo_var = Var::Edge(lo);
            let hi_var = Var::Edge(hi);
            Ok(
                Formula::Ite(
                    Atom::Le(Term::Var(in_var), Term::Num(threshold)),
                    Atom::Eq(Term::Var(lo_var), Term::Var(hi_var)),
                    Atom::Eq(Term::Var(lo_var), Term::Num(lo_cap)),
                ),
            )
        },
        Some(side) => {
            let (prio, other) = match side {
                Side::Left => (a, b),
                Side::Right => (b, a),
            };
            let prio_cap = graph.edges[prio].capacity.to_solver().unwrap();
            let prio_var = Var::Edge(prio);
            let other_var = Var::Edge(other);
            Ok(
                Formula::Ite(
                    Atom::Le(Term::Var(in_var), Term::Num(prio_cap)),
                    Atom::Eq(Term::Var(other_var), Term::Num(SolverNum::zero())),
                    Atom::Eq(Term::Var(prio_var), Term::Num(prio_cap)),
                ),
            )
        },
    }
}

impl Node {
    /// Encodes this node, standing at index `idx` of `graph`: conservation for
    /// connectors, mergers and splitters, the external variable of an input or
    /// output, and a splitter's routing rule. On failure `ctx` is left as it was.
    pub fn model(&self, graph: &FlowGraph, idx: usize, ctx: &mut EncodingContext) -> (r: Result<(), EncodeError>)
        requires
            old(ctx).edges_ready(graph),
        ensures
            match node_encoding(*self, *graph, idx) {
                Ok(enc) => {
                    &&& r is Ok
                    &&& formulas_model(final(ctx).constraints@) == formulas_model(old(ctx).constraints@) + enc.constraints
                    &&& final(ctx).input_vars@ == old(ctx).input_vars@ + enc.inputs
                    &&& final(ctx).output_vars@ == old(ctx).output_vars@ + enc.outputs
                    &&& final(ctx).edge_vars@ == old(ctx).edge_vars@
                },
                Err(e) => r == Err::<(), EncodeError>(e) && *final(ctx) == *old(ctx),
            },
    {
        let ins = graph.incident_edges(idx, Direction::Incoming);
        let outs = graph.incident_edges(idx, Direction::Outgoing);
        let ghost cs0 = formulas_model(ctx.constraints@);
        let arity = EncodeError::GraphInvariant { node: idx, incoming: ins.len(), outgoing: outs.len() };
        match self {
            Node::Connector | Node::Merger => {
                kirchhoff_law(idx, graph, ctx);
                assert(formulas_model(ctx.constraints@) =~= cs0 + seq![conservation(*graph, idx)]);
                assert(ctx.input_vars@ =~= old(ctx).input_vars@ + Seq::<(usize, Var)>::empty());
                assert(ctx.output_vars@ =~= old(ctx).output_vars@ + Seq::<(usize, Var)>::empty());
                Ok(())
            },
            Node::Input { id } => {
                if outs.len() != 1 {
                    return Err(arity);
                }
                let v = Var::Input(idx, *id);
                let out = Var::Edge(outs[0]);
                ctx.input_vars.push((idx, v));
                ctx.push_constraint(Formula::Atom(Atom::Eq(Term::Var(v), Term::Var(out))));
                assert(ctx.input_vars@ =~= old(ctx).input_vars@ + seq![(idx, v)]);
                assert(ctx.output_vars@ =~= old(ctx).output_vars@ + Seq::<(usize, Var)>::empty());
                assert(formulas_model(ctx.constraints@) =~= cs0 + node_encoding(*self, *graph, idx)->Ok_0.constraints);
                Ok(())
            },
            Node::Output => {
                if ins.len() != 1 {
                    return Err(arity);
                }
                let v = Var::Output(idx);
                let inp = Var::Edge(ins[0]);
                ctx.push_constraint(Formula::Atom(Atom::Eq(Term::Var(v), Term::Var(inp))));
                ctx.output_vars.push((idx, v));
                assert(ctx.output_vars@ =~= old(ctx).output_vars@ + seq![(idx, v)]);
                assert(ctx.input_vars@ =~= old(ctx).input_vars@ + Seq::<(usize, Var)>::empty());
                assert(formulas_model(ctx.constraints@) =~= cs0 + node_encoding(*self, *graph, idx)->Ok_0.constraints);
                Ok(())
            },
            Node::Splitter { output_priority } => {
                if ins.len() != 1 || outs.len() != 2 {
                    return Err(arity);
                }
                let routing = route_splitter(graph, ctx, ins[0], outs[0], outs[1], *output_priority);
                match routing {
                    Err(e) => Err(e),
                    Ok(f) => {
                        let ghost fm = f@;
                        kirchhoff_law(idx, graph, ctx);
                        ctx.push_constraint(f);
                        assert(formulas_model(ctx.constraints@) =~= cs0 + seq![conservation(*graph, idx), fm]);
                        assert(ctx.input_vars@ =~= old(ctx).input_vars@ + Seq::<(usize, Var)>::empty());
                        assert(ctx.output_vars@ =~= old(ctx).output_vars@ + Seq::<(usize, Var)>::empty());
                        Ok(())
                    },
                }
            },
        }
    }
}

impl Edge {
    /// Encodes edge `idx`: registers its flow variable and emits
    /// `flow <= capacity` and `flow >= 0`. Fails, leaving `ctx` as it was,
    /// where the capacity does not fit the solver.
    pub fn model(&self, idx: usize, ctx: &mut EncodingContext) -> (r: Result<(), EncodeError>)
        requires
            !old(ctx).has_edge(idx),
        ensures
            self.capacity.representable() ==> {
                &&& r is Ok
                &&& formulas_model(final(ctx).constraints@) == formulas_model(old(ctx).constraints@) + edge_constraints(*self, idx)
                &&& final(ctx).edge_vars@ == old(ctx).edge_vars@.push((idx, Var::Edge(idx)))
                &&& final(ctx).edge_map() == old(ctx).edge_map().insert(idx, Var::Edge(idx))
                &&& (old(ctx).edges_wf() ==> final(ctx).edges_wf())
                &&& final(ctx).input_vars@ == old(ctx).input_vars@
                &&& final(ctx).output_vars@ == old(ctx).output_vars@
            },
            !self.capacity.representable() ==> r == Err::<(), EncodeError>(EncodeError::NumericRange { edge: idx })
                && *final(ctx) == *old(ctx),
    {
        let capacity = match self.capacity.to_solver() {
            Some(c) => c,
            None => {
                return Err(EncodeError::NumericRange { edge: idx });
            },
        };
        let ghost cs0 = formulas_model(ctx.constraints@);
        let edge = Var::Edge(idx);
        ctx.push_constraint(Formula::Atom(Atom::Le(Term::Var(edge), Term::Num(capacity))));
        ctx.push_constraint(Formula::Atom(Atom::Ge(Term::Var(edge), Term::Num(SolverNum::zero()))));
        let ghost before = *ctx;
        ctx.edge_vars.push((idx, edge));
        assert(formulas_model(ctx.constraints@) =~= cs0 + edge_constraints(*self, idx));
        assert(ctx.edge_vars@.last().0 == idx);
        assert forall|e: usize| ctx.has_edge(e) == (before.has_edge(e) || e == idx) by {
            if before.has_edge(e) {
                let i = choose|i: int| 0 <= i < before.edge_vars@.len() && (#[trigger] before.edge_vars@[i]).0 == e;
                assert(ctx.edge_vars@[i] == before.edge_vars@[i]);
            }
            if ctx.has_edge(e) {
                let i = choose|i: int| 0 <= i < ctx.edge_vars@.len() && (#[trigger] ctx.edge_vars@[i]).0 == e;
                if i < before.edge_vars@.len() {
                    assert(before.edge_vars@[i] == ctx.edge_vars@[i]);
                }
            }
        }
        assert(ctx.edge_map() =~= before.edge_map().insert(idx, Var::Edge(idx)));
        assert(before.edges_wf() ==> ctx.edges_wf()) by {
            if before.edges_wf() {
                assert forall|i: int, j: int| 0 <= i < j < ctx.edge_vars@.len() implies
                    (#[trigger] ctx.edge_vars@[i]).0 != (#[trigger] ctx.edge_vars@[j]).0 by {
                    if j == before.edge_vars@.len() {
                        assert(before.edge_vars@[i] == ctx.edge_vars@[i]);
                    } else {
                        assert(before.edge_vars@[i] == ctx.edge_vars@[i]);
                        assert(before.edge_vars@[j] == ctx.edge_vars@[j]);
                    }
                }
            }
        }
        Ok(())
    }
}

/// Encoding of the first `k` edges, in order of index: their bound
/// constraints, or the first capacity that does not fit the solver.
pub open spec fn edges_prefix(g: FlowGraph, k: int) -> Result<Seq<FormulaModel>, EncodeError>
    decreases k,
{
    if k <= 0 {
        Ok(seq![])
    } else {
        match edges_prefix(g, k - 1) {
            Err(e) => Err(e),
            Ok(cs) => if g.edges@[k - 1].capacity.representable() {
                Ok(cs + edge_constraints(g.edges@[k - 1], (k - 1) as usize))
            } else {
                Err(EncodeError::NumericRange { edge: (k - 1) as usize })
            },
        }
    }
}

/// Encoding of the first `k` nodes, in order of index, after `start`; or the
/// first node's error.
pub open spec fn nodes_prefix(g: FlowGraph, k: int, start: Encoding) -> Result<Encoding, EncodeError>
    decreases k,
{
    if k <= 0 {
        Ok(start)
    } else {
        match nodes_prefix(g, k - 1, start) {
            Err(e) => Err(e),
            Ok(acc) => match node_encoding(g.nodes@[k - 1], g, (k - 1) as usize) {
                Ok(enc) => Ok(acc.followed_by(enc)),
                Err(e) => Err(e),
            },
        }
    }
}

/// The encoding of a whole graph: all edges, then all nodes.
pub open spec fn graph_encoding(g: FlowGraph) -> Result<Encoding, EncodeError> {
    match edges_prefix(g, g.edges@.len() as int) {
        Err(e) => Err(e),
        Ok(cs) => nodes_prefix(g, g.nodes@.len() as int, only_constraints(cs)),
    }
}

/// Edges `0, ..., n - 1` with their variables, in order.
pub open spec fn edge_var_table(n: int) -> Seq<(usize, Var)> {
    Seq::new(n as nat, |i: int| (i as usize, Var::Edge(i as usize)))
}

/// `r` is what encoding `g` yields.
pub open spec fn encodes(g: FlowGraph, r: Result<EncodingContext, EncodeError>) -> bool {
    match graph_encoding(g) {
        Ok(enc) => {
            &&& r is Ok
            &&& formulas_model(r->Ok_0.constraints@) == enc.constraints
            &&& r->Ok_0.input_vars@ == enc.inputs
            &&& r->Ok_0.output_vars@ == enc.outputs
            &&& r->Ok_0.edge_vars@ == edge_var_table(g.edges@.len() as int)
        },
        Err(e) => r is Err && r->Err_0 == e,
    }
}

/// A context whose table lists every edge of `g` in order is ready for its nodes.
proof fn lemma_table_ready(ctx: &EncodingContext, g: &FlowGraph)
    requires
        ctx.edge_vars@ == edge_var_table(g.edges@.len() as int),
        g.edges@.len() <= usize::MAX,
        forall|i: int| 0 <= i < g.edges@.len() ==> (#[trigger] g.edges@[i]).capacity.representable(),
    ensures
        ctx.edges_ready(g),
{
    assert forall|e: usize| e < g.edges@.len() implies #[trigger] ctx.has_edge(e) by {
        assert(ctx.edge_vars@[e as int].0 == e);
    }
    assert forall|i: int, j: int| 0 <= i < j < ctx.edge_vars@.len() implies
        (#[trigger] ctx.edge_vars@[i]).0 != (#[trigger] ctx.edge_vars@[j]).0 by {
        assert(ctx.edge_vars@[i].0 == i as usize);
        assert(ctx.edge_vars@[j].0 == j as usize);
    }
}

/// An error among the first `k` edges is the error of all of them.
proof fn lemma_edges_error_sticks(g: FlowGraph, k: int, n: int)
    requires
        0 <= k <= n,
        edges_prefix(g, k) is Err,
    ensures
        edges_prefix(g, n) == edges_prefix(g, k),
    decreases n - k,
{
    if k < n {
        lemma_edges_error_sticks(g, k, n - 1);
    }
}

/// An error among the first `k` nodes is the error of all of them.
proof fn lemma_nodes_error_sticks(g: FlowGraph, k: int, n: int, start: Encoding)
    requires
        0 <= k <= n,
        nodes_prefix(g, k, start) is Err,
    ensures
        nodes_prefix(g, n, start) == nodes_prefix(g, k, start),
    decreases n - k,
{
    if k < n {
        lemma_nodes_error_sticks(g, k, n - 1, start);
    }
}

/// A successful edge prefix has only representable capacities.
proof fn lemma_edges_ok_representable(g: FlowGraph, k: int)
    requires
        0 <= k <= g.edges@.len(),
        edges_prefix(g, k) is Ok,
    ensures
        forall|i: int| 0 <= i < k ==> (#[trigger] g.edges@[i]).capacity.representable(),
    decreases k,
{
    if k > 0 {
        lemma_edges_ok_representable(g, k - 1);
    }
}

/// Encodes a whole graph: every edge in order of index, then every node in
/// order of index. Stops at the first failure and returns its error.
pub fn encode_graph(graph: &FlowGraph) -> (r: Result<EncodingContext, EncodeError>)
    ensures
        encodes(*graph, r),
{
    let mut ctx = EncodingContext::new();
    assert(formulas_model(ctx.constraints@) =~= Seq::<FormulaModel>::empty());
    assert(ctx.edge_vars@ =~= edge_var_table(0));
    let mut k: usize = 0;
    while k < graph.edges.len()
        invariant
            k <= graph.edges@.len(),
            edges_prefix(*graph, k as int) == Ok::<Seq<FormulaModel>, EncodeError>(formulas_model(ctx.constraints@)),
            ctx.edge_vars@ == edge_var_table(k as int),
            ctx.input_vars@ == Seq::<(usize, Var)>::empty(),
            ctx.output_vars@ == Seq::<(usize, Var)>::empty(),
        decreases graph.edges@.len() - k,
    {
        let ghost cs0 = formulas_model(ctx.constraints@);
        match graph.edges[k].model(k, &mut ctx) {
            Err(e) => {
                proof {
                    lemma_edges_error_sticks(*graph, k + 1, graph.edges@.len() as int);
                }
                return Err(e);
            },
            Ok(()) => {},
        }
        assert(ctx.edge_vars@ =~= edge_var_table(k + 1));
        k = k + 1;
    }
    proof {
        lemma_edges_ok_representable(*graph, graph.edges@.len() as int);
    }
    proof {
        lemma_table_ready(&ctx, graph);
    }
    let ghost start = only_constraints(formulas_model(ctx.constraints@));
    let mut j: usize = 0;
    while j < graph.nodes.len()
        invariant
            j <= graph.nodes@.len(),
            graph.edges@.len() <= usize::MAX,
            ctx.edges_ready(graph),
            ctx.edge_vars@ == edge_var_table(graph.edges@.len() as int),
            graph_encoding(*graph) == nodes_prefix(*graph, graph.nodes@.len() as int, start),
            nodes_prefix(*graph, j as int, start) == Ok::<Encoding, EncodeError>(
                Encoding {
                    constraints: formulas_model(ctx.constraints@),
                    inputs: ctx.input_vars@,
                    outputs: ctx.output_vars@,
                },
            ),
        decreases graph.nodes@.len() - j,
    {
        match graph.nodes[j].model(graph, j, &mut ctx) {
            Err(e) => {
                proof {
                    lemma_nodes_error_sticks(*graph, j + 1, graph.nodes@.len() as int, start);
                }
                return Err(e);
            },
            Ok(()) => {},
        }
        proof {
            lemma_table_ready(&ctx, graph);
        }
        j = j + 1;
    }
    Ok(ctx)
}

} // verus!
