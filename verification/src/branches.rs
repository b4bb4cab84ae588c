//! Which pairs of the edges at a node continue each other across it.
use vstd::prelude::*;
use crate::adjacency::Adjacency;
use crate::geometry::{opposite_within, Tolerance, Vector};
use crate::model::{Branch, Diagnostic, Edge, NodeId};

verus! {

/// Whether every position of the list is one of an edge of the network.
pub open spec fn in_network(edges: Seq<Edge>, positions: Seq<usize>) -> bool {
    forall|k: int| 0 <= k < positions.len() ==> (#[trigger] positions[k]) < edges.len()
}

/// Whether two edges that touch `node` continue each other across it: both
/// have a tangent there, and the two tangents are opposite up to the
/// tolerance.
pub open spec fn continuous(first: Edge, second: Edge, node: NodeId, tolerance: Tolerance) -> bool {
    &&& first.has_tangent()
    &&& second.has_tangent()
    &&& opposite_within(first.tangent_at(node), second.tangent_at(node), tolerance)
}

/// Whether the pair is a branch: it is taken in the order of the identifiers,
/// so that each pair of edges is looked at once, and it is continuous.
pub open spec fn pairs(first: Edge, second: Edge, node: NodeId, tolerance: Tolerance) -> bool {
    first.id < second.id && continuous(first, second, node, tolerance)
}

/// The branch that two edges form at `node`.
pub open spec fn branch_between(first: Edge, second: Edge, node: NodeId) -> Branch {
    Branch { entry: first.connection_at(node), exit: second.connection_at(node) }
}

/// The branches whose first edge is the one at place `a` of the incident
/// list and whose second edge stands at a place below `b`.
pub open spec fn row_branches(
    edges: Seq<Edge>,
    node: NodeId,
    incident: Seq<usize>,
    tolerance: Tolerance,
    a: int,
    b: int,
) -> Seq<Branch>
    decreases b,
{
    if b <= 0 {
        Seq::empty()
    } else {
        let before = row_branches(edges, node, incident, tolerance, a, b - 1);
        let first = edges[incident[a] as int];
        let second = edges[incident[b - 1] as int];
        if pairs(first, second, node, tolerance) {
            before.push(branch_between(first, second, node))
        } else {
            before
        }
    }
}

/// The branches whose first edge stands at a place below `a` of the incident
/// list, row after row.
pub open spec fn branches_upto(
    edges: Seq<Edge>,
    node: NodeId,
    incident: Seq<usize>,
    tolerance: Tolerance,
    a: int,
) -> Seq<Branch>
    decreases a,
{
    if a <= 0 {
        Seq::empty()
    } else {
        branches_upto(edges, node, incident, tolerance, a - 1) + row_branches(
            edges,
            node,
            incident,
            tolerance,
            a - 1,
            incident.len() as int,
        )
    }
}

/// All branches at a node, given the edges that touch it.
pub open spec fn branches_at(
    edges: Seq<Edge>,
    node: NodeId,
    incident: Seq<usize>,
    tolerance: Tolerance,
) -> Seq<Branch> {
    branches_upto(edges, node, incident, tolerance, incident.len() as int)
}

/// One finding for each of the first `k` incident edges that has no tangent.
pub open spec fn degenerate_upto(
    edges: Seq<Edge>,
    node: NodeId,
    incident: Seq<usize>,
    k: int,
) -> Seq<Diagnostic>
    decreases k,
{
    if k <= 0 {
        Seq::empty()
    } else {
        let before = degenerate_upto(edges, node, incident, k - 1);
        let e = edges[incident[k - 1] as int];
        if e.has_tangent() {
            before
        } else {
            before.push(Diagnostic::DegenerateGeometry { node, edge: e.id })
        }
    }
}

/// One finding for each incident edge that has no tangent, in the order of
/// the incident list.
pub open spec fn degenerate_at(edges: Seq<Edge>, node: NodeId, incident: Seq<usize>) -> Seq<
    Diagnostic,
> {
    degenerate_upto(edges, node, incident, incident.len() as int)
}

impl Edge {
    /// The direction in which the edge leaves `node`, where it has one.
    pub fn tangent(&self, node: NodeId) -> (tangent: Option<Vector>)
        ensures
            tangent is Some == self.has_tangent(),
            tangent matches Some(v) ==> v.in_span() && v.components() == self.tangent_at(node),
    {
        let n: usize = self.geometry.len();
        if n < 2 {
            None
        } else if self.source == node {
            Some(Vector::between(self.geometry[0], self.geometry[1]))
        } else {
            Some(Vector::between(self.geometry[n - 1], self.geometry[n - 2]))
        }
    }
}

/// The branch that two edges form at `node`, if they continue each other
/// across it.
pub fn try_into_branch(node: NodeId, first: &Edge, second: &Edge, tolerance: Tolerance) -> (branch:
    Option<Branch>)
    ensures
        branch == if continuous(*first, *second, node, tolerance) {
            Some(branch_between(*first, *second, node))
        } else {
            None
        },
{
    match (first.tangent(node), second.tangent(node)) {
        (Some(u), Some(v)) => {
            if u.opposes(&v, tolerance) {
                Some(Branch { entry: first.connection(node), exit: second.connection(node) })
            } else {
                None
            }
        },
        _ => None,
    }
}

/// Finds the branches at the node of an adjacency: every pair of its edges,
/// the edge with the smaller identifier first, that is continuous across the
/// node.
pub fn pair_branches(edges: &Vec<Edge>, adjacency: &Adjacency, tolerance: Tolerance) -> (branches:
    Vec<Branch>)
    requires
        in_network(edges@, adjacency.edges@),
    ensures
        branches@ == branches_at(edges@, adjacency.node, adjacency.edges@, tolerance),
{
    let node = adjacency.node;
    let n: usize = adjacency.edges.len();
    let mut branches: Vec<Branch> = Vec::new();
    let mut a: usize = 0;
    while a < n
        invariant
            n == adjacency.edges@.len(),
            node == adjacency.node,
            a <= n,
            in_network(edges@, adjacency.edges@),
            branches@ == branches_upto(edges@, node, adjacency.edges@, tolerance, a as int),
        decreases n - a,
    {
        let first = &edges[adjacency.edges[a]];
        let ghost done = branches@;
        let mut b: usize = 0;
        while b < n
            invariant
                n == adjacency.edges@.len(),
                node == adjacency.node,
                a < n,
                b <= n,
                in_network(edges@, adjacency.edges@),
                *first == edges@[adjacency.edges@[a as int] as int],
                branches@ == done + row_branches(
                    edges@,
                    node,
                    adjacency.edges@,
                    tolerance,
                    a as int,
                    b as int,
                ),
            decreases n - b,
        {
            let second = &edges[adjacency.edges[b]];
            let ghost row = row_branches(
                edges@,
                node,
                adjacency.edges@,
                tolerance,
                a as int,
                b as int,
            );
            if first.id < second.id {
                match try_into_branch(node, first, second, tolerance) {
                    Some(branch) => {
                        branches.push(branch);
                        assert(branches@ == done + row.push(branch));
                    },
                    None => {},
                }
            }
            b += 1;
        }
        a += 1;
    }
    branches
}

/// Reports each edge of an adjacency that has no tangent, and so was paired
/// with no other edge.
pub fn degenerate_edges(edges: &Vec<Edge>, adjacency: &Adjacency) -> (findings: Vec<Diagnostic>)
    requires
        in_network(edges@, adjacency.edges@),
    ensures
        findings@ == degenerate_at(edges@, adjacency.node, adjacency.edges@),
{
    let mut findings: Vec<Diagnostic> = Vec::new();
    let mut k: usize = 0;
    while k < adjacency.edges.len()
        invariant
            k <= adjacency.edges@.len(),
            in_network(edges@, adjacency.edges@),
            findings@ == degenerate_upto(edges@, adjacency.node, adjacency.edges@, k as int),
        decreases adjacency.edges@.len() - k,
    {
        let e = &edges[adjacency.edges[k]];
        if e.geometry.len() < 2 {
            findings.push(Diagnostic::DegenerateGeometry { node: adjacency.node, edge: e.id });
        }
        k += 1;
    }
    findings
}

} // verus!
