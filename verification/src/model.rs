//! The raw network that synthesis starts from, and the vocabulary shared by
//! the stages that turn it into infrastructure.
use vstd::prelude::*;
use crate::geometry::Point;

verus! {

/// Identity of a junction point of the raw network.
pub type NodeId = i64;

/// Identity of a track segment. Identifiers are compared to order the two
/// edges of a pair.
pub type EdgeId = u64;

/// A physical track segment between two nodes.
///
/// `source` and `target` are structural only: they say at which node the
/// polyline starts and ends, not in which direction trains run.
#[derive(Clone, Debug, PartialEq, Eq)]
pub struct Edge {
    pub id: EdgeId,
    pub source: NodeId,
    pub target: NodeId,
    /// The polyline, from `source` to `target`.
    pub geometry: Vec<Point>,
    /// Length along the polyline, in the caller's unit.
    pub length: u64,
}

/// One of the two ends of a track section.
#[derive(Clone, Copy, Debug, PartialEq, Eq, Structural)]
pub enum Endpoint {
    Begin,
    End,
}

/// A connection point: one end of one track section.
#[derive(Clone, Copy, Debug, PartialEq, Eq, Structural)]
pub struct TrackEndpoint {
    pub track: EdgeId,
    pub endpoint: Endpoint,
}

/// Two edges that continue each other across a node, each given by the end
/// with which it touches the node.
#[derive(Clone, Copy, Debug, PartialEq, Eq, Structural)]
pub struct Branch {
    pub entry: TrackEndpoint,
    pub exit: TrackEndpoint,
}

/// A recoverable finding about one node or one edge. The node is left out of
/// the infrastructure, or the pairing is skipped, and synthesis goes on.
#[derive(Clone, Copy, Debug, PartialEq, Eq, Structural)]
pub enum Diagnostic {
    /// A node that no edge touches.
    NodeWithoutEdge { node: NodeId },
    /// A node whose counts of incident edges and of branches match no kind of
    /// junction.
    UnknownJunction { node: NodeId, edges: usize, branches: usize },
    /// A node whose counts name a kind of switch, but whose branches do not
    /// have the shape of that kind.
    InconsistentWiring { node: NodeId, edges: usize, branches: usize },
    /// An edge with fewer than two points: it has no tangent at the node, and
    /// is paired with no other edge there.
    DegenerateGeometry { node: NodeId, edge: EdgeId },
}

/// A violation of what the source of the network owes. Synthesis stops.
#[derive(Clone, Copy, Debug, PartialEq, Eq, Structural)]
pub enum StructuralError {
    /// There is no edge at all.
    EmptyInput,
    /// The edge at this position in the input starts and ends at one node.
    SelfLoop { position: usize },
}

impl Edge {
    /// Whether one of the two ends of the edge is `node`.
    pub open spec fn touches(&self, node: NodeId) -> bool {
        self.source == node || self.target == node
    }

    pub open spec fn is_loop(&self) -> bool {
        self.source == self.target
    }

    /// The end with which the edge touches `node`: the beginning where `node`
    /// is its source, the end otherwise.
    pub open spec fn end_at(&self, node: NodeId) -> Endpoint {
        if self.source == node {
            Endpoint::Begin
        } else {
            Endpoint::End
        }
    }

    /// The connection point of the edge at `node`.
    pub open spec fn connection_at(&self, node: NodeId) -> TrackEndpoint {
        TrackEndpoint { track: self.id, endpoint: self.end_at(node) }
    }

    /// The distance from the beginning of the edge to `node`.
    pub open spec fn offset_at(&self, node: NodeId) -> u64 {
        if self.source == node {
            0
        } else {
            self.length
        }
    }

    /// Whether the edge has a tangent: at least two points.
    pub open spec fn has_tangent(&self) -> bool {
        self.geometry@.len() >= 2
    }

    /// The point of the polyline that lies on `node`.
    pub open spec fn anchor_at(&self, node: NodeId) -> Point
        recommends
            self.has_tangent(),
    {
        if self.source == node {
            self.geometry@[0]
        } else {
            self.geometry@[self.geometry@.len() - 1]
        }
    }

    /// The vertex of the polyline next to the one on `node`.
    pub open spec fn neighbour_at(&self, node: NodeId) -> Point
        recommends
            self.has_tangent(),
    {
        if self.source == node {
            self.geometry@[1]
        } else {
            self.geometry@[self.geometry@.len() - 2]
        }
    }

    /// The direction in which the edge leaves `node`.
    pub open spec fn tangent_at(&self, node: NodeId) -> (int, int)
        recommends
            self.has_tangent(),
    {
        crate::geometry::displacement(self.anchor_at(node), self.neighbour_at(node))
    }

    pub fn connection(&self, node: NodeId) -> (c: TrackEndpoint)
        ensures
            c == self.connection_at(node),
    {
        if self.source == node {
            TrackEndpoint { track: self.id, endpoint: Endpoint::Begin }
        } else {
            TrackEndpoint { track: self.id, endpoint: Endpoint::End }
        }
    }

    pub fn offset(&self, node: NodeId) -> (o: u64)
        ensures
            o == self.offset_at(node),
    {
        if self.source == node {
            0
        } else {
            self.length
        }
    }
}

} // verus!
