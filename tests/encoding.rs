use flow_encoder::encoder::{encode_graph, kirchhoff_law, EncodeError, EncodingContext};
use flow_encoder::formula::{Atom, Formula, Term, Var};
use flow_encoder::graph::{Direction, Edge, FlowGraph, Node, Side};
use flow_encoder::rational::{Capacity, SolverNum};

fn cap(numer: u128, denom: u128) -> Capacity {
    Capacity { numer, denom }
}

fn num(numer: i32, denom: i32) -> SolverNum {
    SolverNum { numer, denom }
}

fn edge(source: usize, target: usize, capacity: Capacity) -> Edge {
    Edge { source, target, capacity }
}

/// Input 0 -> edge 0 -> splitter 1 -> edges 1 and 2 -> outputs 2 and 3.
fn splitter_graph(priority: Option<Side>, first: Capacity, second: Capacity) -> FlowGraph {
    FlowGraph {
        nodes: vec![
            Node::Input { id: 7 },
            Node::Splitter { output_priority: priority },
            Node::Output,
            Node::Output,
        ],
        edges: vec![edge(0, 1, cap(10, 1)), edge(1, 2, first), edge(1, 3, second)],
    }
}

fn routing(ctx: &EncodingContext) -> &Formula {
    // edges: 3 x 2 bounds, input: 1, splitter: conservation then routing
    &ctx.constraints[8]
}

#[test]
fn capacity_to_solver_is_exact() {
    assert_eq!(cap(3, 2).to_solver(), Some(num(3, 2)));
    assert_eq!(cap(0, 1).to_solver(), Some(num(0, 1)));
    assert_eq!(cap(2147483647, 2147483647).to_solver(), Some(num(1, 1)));
    assert_eq!(cap(2147483647, 2147483646).to_solver(), Some(num(2147483647, 2147483646)));
}

#[test]
fn capacity_is_reduced_before_conversion() {
    assert_eq!(cap(2147483648, 2147483648).to_solver(), Some(num(1, 1)));
    assert_eq!(cap(4, 2).to_solver(), Some(num(2, 1)));
    assert_eq!(cap(0, 5).to_solver(), Some(num(0, 1)));
    assert_eq!(cap(6442450941, 4294967294).to_solver(), Some(num(3, 2)));
    assert_eq!(cap(6, 4).doubled_to_solver(), Some(num(3, 1)));
    assert_eq!(cap(4294967296, 4294967296).doubled_to_solver(), Some(num(2, 1)));
}

#[test]
fn edges_encode_in_any_order() {
    let mut ctx = EncodingContext::new();
    assert_eq!(edge(0, 1, cap(1, 1)).model(2, &mut ctx), Ok(()));
    assert_eq!(edge(1, 2, cap(3, 1)).model(0, &mut ctx), Ok(()));
    assert_eq!(ctx.edge_vars, vec![(2, Var::Edge(2)), (0, Var::Edge(0))]);
    assert_eq!(
        ctx.constraints[2],
        Formula::Atom(Atom::Le(Term::Var(Var::Edge(0)), Term::Num(num(3, 1))))
    );
}

#[test]
fn capacity_too_wide_is_rejected() {
    assert_eq!(cap(2147483648, 1).to_solver(), None);
    assert_eq!(cap(1, 2147483648).to_solver(), None);
    assert_eq!(cap(1, 0).to_solver(), None);
}

#[test]
fn doubled_capacity() {
    assert_eq!(cap(3, 2).doubled_to_solver(), Some(num(3, 1)));
    assert_eq!(cap(3, 1).doubled_to_solver(), Some(num(6, 1)));
    assert_eq!(cap(5, 3).doubled_to_solver(), Some(num(10, 3)));
    assert_eq!(cap(1073741823, 1).doubled_to_solver(), Some(num(2147483646, 1)));
    assert_eq!(cap(1073741824, 1).doubled_to_solver(), None);
    assert_eq!(cap(2147483647, 2).doubled_to_solver(), Some(num(2147483647, 1)));
}

#[test]
fn solver_number_comparison() {
    assert!(num(1, 2).le(&num(2, 3)));
    assert!(!num(2, 3).le(&num(1, 2)));
    assert!(num(2, 4).le(&num(1, 2)));
    assert!(num(-2147483648, 1).le(&num(2147483647, 2147483647)));
}

#[test]
fn side_other() {
    assert_eq!(Side::Left.other(), Side::Right);
    assert_eq!(Side::Right.other(), Side::Left);
}

#[test]
fn incident_edges_in_index_order() {
    let g = FlowGraph {
        nodes: vec![Node::Merger, Node::Merger, Node::Merger],
        edges: vec![edge(0, 2, cap(1, 1)), edge(1, 2, cap(1, 1)), edge(2, 0, cap(1, 1)), edge(0, 2, cap(1, 1))],
    };
    assert_eq!(g.incident_edges(2, Direction::Incoming), vec![0, 1, 3]);
    assert_eq!(g.incident_edges(2, Direction::Outgoing), vec![2]);
    assert_eq!(g.incident_edges(0, Direction::Outgoing), vec![0, 3]);
    assert_eq!(g.incident_edges(1, Direction::Incoming), Vec::<usize>::new());
}

#[test]
fn edge_model_bounds_flow() {
    let mut ctx = EncodingContext::new();
    let e = edge(0, 1, cap(5, 2));
    assert_eq!(e.model(0, &mut ctx), Ok(()));
    assert_eq!(ctx.edge_vars, vec![(0, Var::Edge(0))]);
    assert_eq!(
        ctx.constraints,
        vec![
            Formula::Atom(Atom::Le(Term::Var(Var::Edge(0)), Term::Num(num(5, 2)))),
            Formula::Atom(Atom::Ge(Term::Var(Var::Edge(0)), Term::Num(num(0, 1)))),
        ]
    );
}

#[test]
fn edge_model_rejects_wide_capacity() {
    let mut ctx = EncodingContext::new();
    let e = edge(0, 1, cap(4294967296, 1));
    assert_eq!(e.model(0, &mut ctx), Err(EncodeError::NumericRange { edge: 0 }));
    assert!(ctx.edge_vars.is_empty());
    assert!(ctx.constraints.is_empty());
}

#[test]
fn conservation_at_merger() {
    let g = FlowGraph {
        nodes: vec![Node::Input { id: 1 }, Node::Input { id: 2 }, Node::Merger, Node::Output],
        edges: vec![edge(0, 2, cap(1, 1)), edge(1, 2, cap(1, 1)), edge(2, 3, cap(2, 1))],
    };
    let ctx = encode_graph(&g).unwrap();
    let expected = Formula::Atom(Atom::Eq(
        Term::Sum(vec![Var::Edge(0), Var::Edge(1)]),
        Term::Sum(vec![Var::Edge(2)]),
    ));
    assert_eq!(ctx.constraints[8], expected);
    assert_eq!(ctx.input_vars, vec![(0, Var::Input(0, 1)), (1, Var::Input(1, 2))]);
    assert_eq!(ctx.output_vars, vec![(3, Var::Output(3))]);
}

#[test]
fn kirchhoff_law_on_connector() {
    let g = FlowGraph {
        nodes: vec![Node::Input { id: 0 }, Node::Connector, Node::Output],
        edges: vec![edge(0, 1, cap(1, 1)), edge(1, 2, cap(1, 1))],
    };
    let mut ctx = EncodingContext::new();
    assert_eq!(g.edges[0].model(0, &mut ctx), Ok(()));
    assert_eq!(g.edges[1].model(1, &mut ctx), Ok(()));
    kirchhoff_law(1, &g, &mut ctx);
    assert_eq!(
        ctx.constraints[4],
        Formula::Atom(Atom::Eq(Term::Sum(vec![Var::Edge(0)]), Term::Sum(vec![Var::Edge(1)])))
    );
}

#[test]
fn input_and_output_equal_their_edges() {
    let g = FlowGraph {
        nodes: vec![Node::Input { id: 42 }, Node::Output],
        edges: vec![edge(0, 1, cap(3, 1))],
    };
    let ctx = encode_graph(&g).unwrap();
    assert_eq!(ctx.constraints.len(), 4);
    assert_eq!(
        ctx.constraints[2],
        Formula::Atom(Atom::Eq(Term::Var(Var::Input(0, 42)), Term::Var(Var::Edge(0))))
    );
    assert_eq!(
        ctx.constraints[3],
        Formula::Atom(Atom::Eq(Term::Var(Var::Output(1)), Term::Var(Var::Edge(0))))
    );
}

#[test]
fn symmetric_splitter_equal_capacities() {
    let ctx = encode_graph(&splitter_graph(None, cap(3, 1), cap(3, 1))).unwrap();
    assert_eq!(
        ctx.constraints[7],
        Formula::Atom(Atom::Eq(
            Term::Sum(vec![Var::Edge(0)]),
            Term::Sum(vec![Var::Edge(1), Var::Edge(2)])
        ))
    );
    // the tie goes to the edge listed first
    assert_eq!(
        *routing(&ctx),
        Formula::Ite(
            Atom::Le(Term::Var(Var::Edge(0)), Term::Num(num(6, 1))),
            Atom::Eq(Term::Var(Var::Edge(1)), Term::Var(Var::Edge(2))),
            Atom::Eq(Term::Var(Var::Edge(1)), Term::Num(num(3, 1))),
        )
    );
}

#[test]
fn symmetric_splitter_smaller_side_second() {
    let ctx = encode_graph(&splitter_graph(None, cap(5, 1), cap(2, 1))).unwrap();
    assert_eq!(
        *routing(&ctx),
        Formula::Ite(
            Atom::Le(Term::Var(Var::Edge(0)), Term::Num(num(4, 1))),
            Atom::Eq(Term::Var(Var::Edge(2)), Term::Var(Var::Edge(1))),
            Atom::Eq(Term::Var(Var::Edge(2)), Term::Num(num(2, 1))),
        )
    );
}

#[test]
fn symmetric_splitter_fractional_threshold() {
    let ctx = encode_graph(&splitter_graph(None, cap(3, 2), cap(7, 3))).unwrap();
    assert_eq!(
        *routing(&ctx),
        Formula::Ite(
            Atom::Le(Term::Var(Var::Edge(0)), Term::Num(num(3, 1))),
            Atom::Eq(Term::Var(Var::Edge(1)), Term::Var(Var::Edge(2))),
            Atom::Eq(Term::Var(Var::Edge(1)), Term::Num(num(3, 2))),
        )
    );
}

#[test]
fn priority_splitter_left() {
    let ctx = encode_graph(&splitter_graph(Some(Side::Left), cap(4, 1), cap(9, 1))).unwrap();
    assert_eq!(
        *routing(&ctx),
        Formula::Ite(
            Atom::Le(Term::Var(Var::Edge(0)), Term::Num(num(4, 1))),
            Atom::Eq(Term::Var(Var::Edge(2)), Term::Num(num(0, 1))),
            Atom::Eq(Term::Var(Var::Edge(1)), Term::Num(num(4, 1))),
        )
    );
}

#[test]
fn priority_splitter_right() {
    let ctx = encode_graph(&splitter_graph(Some(Side::Right), cap(9, 1), cap(4, 1))).unwrap();
    assert_eq!(
        *routing(&ctx),
        Formula::Ite(
            Atom::Le(Term::Var(Var::Edge(0)), Term::Num(num(4, 1))),
            Atom::Eq(Term::Var(Var::Edge(1)), Term::Num(num(0, 1))),
            Atom::Eq(Term::Var(Var::Edge(2)), Term::Num(num(4, 1))),
        )
    );
}

#[test]
fn encoding_twice_is_identical() {
    let g = splitter_graph(None, cap(3, 1), cap(3, 1));
    let a = encode_graph(&g).unwrap();
    let b = encode_graph(&g).unwrap();
    assert_eq!(a.constraints, b.constraints);
    assert_eq!(a.edge_vars, b.edge_vars);
    assert_eq!(a.input_vars, b.input_vars);
    assert_eq!(a.output_vars, b.output_vars);
}

#[test]
fn splitter_with_three_outputs_is_rejected() {
    let g = FlowGraph {
        nodes: vec![
            Node::Input { id: 0 },
            Node::Splitter { output_priority: None },
            Node::Output,
            Node::Output,
            Node::Output,
        ],
        edges: vec![
            edge(0, 1, cap(1, 1)),
            edge(1, 2, cap(1, 1)),
            edge(1, 3, cap(1, 1)),
            edge(1, 4, cap(1, 1)),
        ],
    };
    assert_eq!(
        encode_graph(&g).err(),
        Some(EncodeError::GraphInvariant { node: 1, incoming: 1, outgoing: 3 })
    );
}

#[test]
fn input_without_outgoing_edge_is_rejected() {
    let g = FlowGraph { nodes: vec![Node::Input { id: 3 }], edges: vec![] };
    assert_eq!(
        encode_graph(&g).err(),
        Some(EncodeError::GraphInvariant { node: 0, incoming: 0, outgoing: 0 })
    );
}

#[test]
fn output_with_two_incoming_edges_is_rejected() {
    let g = FlowGraph {
        nodes: vec![Node::Input { id: 0 }, Node::Input { id: 1 }, Node::Output],
        edges: vec![edge(0, 2, cap(1, 1)), edge(1, 2, cap(1, 1))],
    };
    assert_eq!(
        encode_graph(&g).err(),
        Some(EncodeError::GraphInvariant { node: 2, incoming: 2, outgoing: 0 })
    );
}

#[test]
fn failed_node_leaves_context_unchanged() {
    let g = FlowGraph { nodes: vec![Node::Output], edges: vec![] };
    let mut ctx = EncodingContext::new();
    assert_eq!(
        g.nodes[0].model(&g, 0, &mut ctx),
        Err(EncodeError::GraphInvariant { node: 0, incoming: 0, outgoing: 0 })
    );
    assert!(ctx.constraints.is_empty());
    assert!(ctx.output_vars.is_empty());
}

#[test]
fn wide_edge_capacity_stops_encoding() {
    let g = splitter_graph(None, cap(3, 1), cap(3000000000, 1));
    assert_eq!(encode_graph(&g).err(), Some(EncodeError::NumericRange { edge: 2 }));
}

#[test]
fn splitter_threshold_out_of_range() {
    let g = splitter_graph(None, cap(2000000000, 1), cap(2100000000, 1));
    assert_eq!(encode_graph(&g).err(), Some(EncodeError::NumericRange { edge: 1 }));
}
