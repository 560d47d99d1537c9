//! What holds of every encoded graph, and of every model of its constraints.
use vstd::prelude::*;

use crate::encoder::{
    edge_constraints, edge_vars_of, edges_prefix, encodes, graph_encoding, node_encoding,
    nodes_prefix, only_constraints, EncodeError, Encoding, EncodingContext,
};
use crate::formula::{formulas_model, holds, is_model, sum_value, FormulaModel, Valuation, Var};
use crate::graph::FlowGraph;
use crate::rational::{lemma_same_value, q_eq, q_le};

verus! {

pub open spec fn is_prefix(a: Seq<FormulaModel>, b: Seq<FormulaModel>) -> bool {
    a.len() <= b.len() && forall|i: int| 0 <= i < a.len() ==> a[i] == b[i]
}

proof fn lemma_edges_prefix_grows(g: FlowGraph, k: int, n: int)
    requires
        0 <= k <= n,
        edges_prefix(g, n) is Ok,
    ensures
        edges_prefix(g, k) is Ok,
        is_prefix(edges_prefix(g, k)->Ok_0, edges_prefix(g, n)->Ok_0),
    decreases n - k,
{
    if k < n {
        lemma_edges_prefix_grows(g, k, n - 1);
    }
}

proof fn lemma_nodes_prefix_grows(g: FlowGraph, k: int, n: int, start: Encoding)
    requires
        0 <= k <= n,
        nodes_prefix(g, n, start) is Ok,
    ensures
        nodes_prefix(g, k, start) is Ok,
        is_prefix(nodes_prefix(g, k, start)->Ok_0.constraints, nodes_prefix(g, n, start)->Ok_0.constraints),
    decreases n - k,
{
    if k < n {
        lemma_nodes_prefix_grows(g, k, n - 1, start);
    }
}

/// In a model of an encoded graph, both bound constraints of every edge hold.
proof fn lemma_edge_constraints_hold(g: FlowGraph, ctx: EncodingContext, m: Valuation, e: usize)
    requires
        encodes(g, Ok(ctx)),
        is_model(formulas_model(ctx.constraints@), m),
        e < g.edges@.len(),
    ensures
        holds(edge_constraints(g.edges@[e as int], e)[0], m),
        holds(edge_constraints(g.edges@[e as int], e)[1], m),
{
    let n = g.edges@.len() as int;
    let enc = graph_encoding(g)->Ok_0;
    let all = edges_prefix(g, n)->Ok_0;
    lemma_edges_prefix_grows(g, e as int, n);
    lemma_edges_prefix_grows(g, e + 1, n);
    lemma_nodes_prefix_grows(g, 0, g.nodes@.len() as int, only_constraints(all));
    let before = edges_prefix(g, e as int)->Ok_0;
    let cs = formulas_model(ctx.constraints@);
    assert(cs[before.len() as int] == edge_constraints(g.edges@[e as int], e)[0]);
    assert(cs[before.len() as int + 1] == edge_constraints(g.edges@[e as int], e)[1]);
}

/// In a model of an encoded graph, every constraint of every node holds.
proof fn lemma_node_constraints_hold(g: FlowGraph, ctx: EncodingContext, m: Valuation, j: usize)
    requires
        encodes(g, Ok(ctx)),
        is_model(formulas_model(ctx.constraints@), m),
        j < g.nodes@.len(),
    ensures
        node_encoding(g.nodes@[j as int], g, j) is Ok,
        forall|t: int|
            0 <= t < node_encoding(g.nodes@[j as int], g, j)->Ok_0.constraints.len() ==> holds(
                #[trigger] node_encoding(g.nodes@[j as int], g, j)->Ok_0.constraints[t],
                m,
            ),
{
    let n = g.nodes@.len() as int;
    let start = only_constraints(edges_prefix(g, g.edges@.len() as int)->Ok_0);
    lemma_nodes_prefix_grows(g, j as int, n, start);
    lemma_nodes_prefix_grows(g, j + 1, n, start);
    let before = nodes_prefix(g, j as int, start)->Ok_0.constraints;
    let own = node_encoding(g.nodes@[j as int], g, j)->Ok_0.constraints;
    let cs = formulas_model(ctx.constraints@);
    assert forall|t: int| 0 <= t < own.len() implies holds(#[trigger] own[t], m) by {
        assert(cs[before.len() as int + t] == own[t]);
    }
}

/// Conservation: in every model of an encoded graph, at every connector,
/// merger and splitter the inbound flows sum to the outbound flows.
pub proof fn law_conservation(g: FlowGraph, ctx: EncodingContext, m: Valuation, node: usize)
    requires
        encodes(g, Ok(ctx)),
        is_model(formulas_model(ctx.constraints@), m),
        node < g.nodes@.len(),
        g.nodes@[node as int] is Connector || g.nodes@[node as int] is Merger
            || g.nodes@[node as int] is Splitter,
    ensures
        q_eq(
            sum_value(edge_vars_of(g.in_edges(node)), m),
            sum_value(edge_vars_of(g.out_edges(node)), m),
        ),
{
    lemma_node_constraints_hold(g, ctx, m, node);
    assert(holds(node_encoding(g.nodes@[node as int], g, node)->Ok_0.constraints[0], m));
}

/// Capacity: in every model of an encoded graph, every edge carries a flow
/// between zero and its capacity.
pub proof fn law_edge_within_capacity(g: FlowGraph, ctx: EncodingContext, m: Valuation, e: usize)
    requires
        encodes(g, Ok(ctx)),
        is_model(formulas_model(ctx.constraints@), m),
        e < g.edges@.len(),
    ensures
        q_le((0, 1), m(Var::Edge(e))),
        q_le(m(Var::Edge(e)), g.edges@[e as int].capacity.value()),
{
    lemma_edge_constraints_hold(g, ctx, m, e);
    lemma_edges_prefix_grows(g, e + 1, g.edges@.len() as int);
    let c = g.edges@[e as int].capacity;
    c.lemma_reduced();
    lemma_same_value(c.solver_value().value(), c.value(), m(Var::Edge(e)));
}

/// In every model of an encoded graph, the variable of an input node equals
/// the flow on its single outgoing edge.
pub proof fn law_input_equals_outgoing(g: FlowGraph, ctx: EncodingContext, m: Valuation, node: usize)
    requires
        encodes(g, Ok(ctx)),
        is_model(formulas_model(ctx.constraints@), m),
        node < g.nodes@.len(),
        g.nodes@[node as int] is Input,
    ensures
        g.out_edges(node).len() == 1,
        q_eq(m(Var::Input(node, g.nodes@[node as int]->Input_id)), m(Var::Edge(g.out_edges(node)[0]))),
{
    lemma_node_constraints_hold(g, ctx, m, node);
    assert(holds(node_encoding(g.nodes@[node as int], g, node)->Ok_0.constraints[0], m));
}

/// In every model of an encoded graph, the variable of an output node equals
/// the flow on its single incoming edge.
pub proof fn law_output_equals_incoming(g: FlowGraph, ctx: EncodingContext, m: Valuation, node: usize)
    requires
        encodes(g, Ok(ctx)),
        is_model(formulas_model(ctx.constraints@), m),
        node < g.nodes@.len(),
        g.nodes@[node as int] is Output,
    ensures
        g.in_edges(node).len() == 1,
        q_eq(m(Var::Output(node)), m(Var::Edge(g.in_edges(node)[0]))),
{
    lemma_node_constraints_hold(g, ctx, m, node);
    assert(holds(node_encoding(g.nodes@[node as int], g, node)->Ok_0.constraints[0], m));
}

/// Encoding is deterministic: two encodings of one graph fail with the same
/// error, or hold the same constraints and variables.
pub proof fn law_encoding_deterministic(
    g: FlowGraph,
    r1: Result<EncodingContext, EncodeError>,
    r2: Result<EncodingContext, EncodeError>,
)
    requires
        encodes(g, r1),
        encodes(g, r2),
    ensures
        r1 is Ok <==> r2 is Ok,
        r1 is Ok ==> {
            &&& formulas_model(r1->Ok_0.constraints@) == formulas_model(r2->Ok_0.constraints@)
            &&& r1->Ok_0.edge_vars@ == r2->Ok_0.edge_vars@
            &&& r1->Ok_0.input_vars@ == r2->Ok_0.input_vars@
            &&& r1->Ok_0.output_vars@ == r2->Ok_0.output_vars@
        },
        r1 is Err ==> r1->Err_0 == r2->Err_0,
{
}

/// A splitter without exactly one incoming and two outgoing edges, or an
/// input without exactly one outgoing edge, is rejected with a graph-invariant
/// error naming the node.
pub proof fn law_malformed_node_rejected(g: FlowGraph, node: usize)
    requires
        (g.nodes@[node as int] is Splitter && (g.in_edges(node).len() != 1 || g.out_edges(node).len() != 2))
            || (g.nodes@[node as int] is Input && g.out_edges(node).len() != 1),
    ensures
        node_encoding(g.nodes@[node as int], g, node) == Err::<Encoding, EncodeError>(
            EncodeError::GraphInvariant {
                node,
                incoming: g.in_edges(node).len() as usize,
                outgoing: g.out_edges(node).len() as usize,
            },
        ),
{
}

/// A graph with a malformed splitter or input node is not encoded.
pub proof fn law_malformed_graph_rejected(g: FlowGraph, r: Result<EncodingContext, EncodeError>, node: usize)
    requires
        encodes(g, r),
        node < g.nodes@.len(),
        (g.nodes@[node as int] is Splitter && (g.in_edges(node).len() != 1 || g.out_edges(node).len() != 2))
            || (g.nodes@[node as int] is Input && g.out_edges(node).len() != 1),
    ensures
        r is Err,
{
    if r is Ok {
        let start = only_constraints(edges_prefix(g, g.edges@.len() as int)->Ok_0);
        lemma_nodes_prefix_grows(g, node + 1, g.nodes@.len() as int, start);
        law_malformed_node_rejected(g, node);
    }
}

} // verus!
