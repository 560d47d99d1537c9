use vstd::prelude::*;

use crate::rational::Capacity;

verus! {

/// One of the two outgoing sides of a splitter. A splitter's sides are
/// declared by the order of its outgoing edges: the edge on side `Left` is
/// its outgoing edge of lower index, the edge on side `Right` the other one
/// (see `FlowGraph::out_edges` and `Side::position`).
#[derive(Clone, Copy, Debug, PartialEq, Eq, Structural)]
pub enum Side {
    Left,
    Right,
}

impl Side {
    pub open spec fn spec_other(self) -> Side {
        match self {
            Side::Left => Side::Right,
            Side::Right => Side::Left,
        }
    }

    /// The opposite side.
    #[verifier::when_used_as_spec(spec_other)]
    pub fn other(self) -> (r: Side)
        ensures
            r == self.spec_other(),
    {
        match self {
            Side::Left => Side::Right,
            Side::Right => Side::Left,
        }
    }

    /// Position of this side's edge among a splitter's outgoing edges, in
    /// order of index.
    pub open spec fn position(self) -> int {
        match self {
            Side::Left => 0,
            Side::Right => 1,
        }
    }
}

/// A routing node of the flow network.
#[derive(Clone, Copy, Debug, PartialEq, Eq, Structural)]
pub enum Node {
    /// Pass-through node: conservation only.
    Connector,
    /// Source with a stable external id; exactly one outgoing edge.
    Input { id: usize },
    /// Sink; exactly one incoming edge.
    Output,
    /// Any number of incoming and outgoing edges: conservation only.
    Merger,
    /// One incoming and two outgoing edges, routed symmetrically (`None`) or
    /// towards a priority side.
    Splitter { output_priority: Option<Side> },
}

/// A directed edge with an exact capacity.
#[derive(Clone, Copy, Debug, PartialEq, Eq, Structural)]
pub struct Edge {
    pub source: usize,
    pub target: usize,
    pub capacity: Capacity,
}

/// A flow network: node `i` is `nodes[i]`, edge `j` is `edges[j]`. The edges
/// incident to a node are listed in the order of their indices.
pub struct FlowGraph {
    pub nodes: Vec<Node>,
    pub edges: Vec<Edge>,
}

#[derive(Clone, Copy, Debug, PartialEq, Eq, Structural)]
pub enum Direction {
    Incoming,
    Outgoing,
}

/// The end of `e` that a node must be at for `e` to be incident in direction `dir`.
pub open spec fn endpoint(e: Edge, dir: Direction) -> usize {
    match dir {
        Direction::Incoming => e.target,
        Direction::Outgoing => e.source,
    }
}

/// Indices, in increasing order, of the edges among the first `k` that are
/// incident to `node` in direction `dir`.
pub open spec fn incident_prefix(edges: Seq<Edge>, node: usize, dir: Direction, k: int) -> Seq<usize>
    decreases k,
{
    if k <= 0 {
        seq![]
    } else if endpoint(edges[k - 1], dir) == node {
        incident_prefix(edges, node, dir, k - 1).push((k - 1) as usize)
    } else {
        incident_prefix(edges, node, dir, k - 1)
    }
}

impl FlowGraph {
    /// Indices of the edges incident to `node` in direction `dir`.
    pub open spec fn incident(&self, node: usize, dir: Direction) -> Seq<usize> {
        incident_prefix(self.edges@, node, dir, self.edges@.len() as int)
    }

    pub open spec fn in_edges(&self, node: usize) -> Seq<usize> {
        self.incident(node, Direction::Incoming)
    }

    pub open spec fn out_edges(&self, node: usize) -> Seq<usize> {
        self.incident(node, Direction::Outgoing)
    }

    /// The edges incident to `node` in direction `dir`, in order of index.
    pub fn incident_edges(&self, node: usize, dir: Direction) -> (r: Vec<usize>)
        ensures
            r@ == self.incident(node, dir),
            forall|i: int| 0 <= i < r@.len() ==> r@[i] < self.edges@.len(),
    {
        let mut r: Vec<usize> = Vec::new();
        let mut k: usize = 0;
        while k < self.edges.len()
            invariant
                k <= self.edges@.len(),
                r@ == incident_prefix(self.edges@, node, dir, k as int),
                forall|i: int| 0 <= i < r@.len() ==> r@[i] < k,
            decreases self.edges@.len() - k,
        {
            let e = self.edges[k];
            let end = match dir {
                Direction::Incoming => e.target,
                Direction::Outgoing => e.source,
            };
            if end == node {
                r.push(k);
            }
            k = k + 1;
        }
        r
    }
}

} // verus!
