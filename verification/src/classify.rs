//! What a node becomes: by the number of edges that touch it and the number
//! of branches among them, a buffer stop, a link, or one of the switches.
use vstd::prelude::*;
use crate::adjacency::Adjacency;
use crate::branches::in_network;
use crate::model::{Branch, Diagnostic, Edge, NodeId, TrackEndpoint};
use crate::railjson::{
    port_names, route_slots, BufferStop, Port, PortName, Switch, SwitchKind, SwitchView,
    TrackSectionLink,
};

verus! {

/// The primitive that stands for a node in the infrastructure.
#[derive(Clone, Debug, PartialEq, Eq)]
pub enum Junction {
    BufferStop(BufferStop),
    Link(TrackSectionLink),
    Switch(Switch),
}

pub enum JunctionView {
    BufferStop(BufferStop),
    Link(TrackSectionLink),
    Switch(SwitchView),
}

impl View for Junction {
    type V = JunctionView;

    open spec fn view(&self) -> JunctionView {
        match self {
            Junction::BufferStop(stop) => JunctionView::BufferStop(*stop),
            Junction::Link(link) => JunctionView::Link(*link),
            Junction::Switch(switch) => JunctionView::Switch(switch@),
        }
    }
}

/// Whether the branch joins the two connection points, in either order.
pub open spec fn joins(branch: Branch, p: TrackEndpoint, q: TrackEndpoint) -> bool {
    (branch.entry == p && branch.exit == q) || (branch.entry == q && branch.exit == p)
}

/// Whether one of the branches joins the two connection points.
#[verifier::opaque]
pub open spec fn connected(branches: Seq<Branch>, p: TrackEndpoint, q: TrackEndpoint) -> bool {
    exists|j: int| 0 <= j < branches.len() && joins(#[trigger] branches[j], p, q)
}

/// Whether no connection point stands at two places of the sequence.
pub open spec fn all_distinct(ends: Seq<TrackEndpoint>) -> bool {
    forall|i: int, j: int| 0 <= i < j < ends.len() ==> ends[i] != ends[j]
}

/// Whether the branch is one of the routes of a kind of switch whose ports
/// stand for `ends`.
pub open spec fn is_route(kind: SwitchKind, ends: Seq<TrackEndpoint>, branch: Branch) -> bool {
    exists|r: int|
        0 <= r < route_slots(kind).len() && joins(
            branch,
            ends[(#[trigger] route_slots(kind)[r]).0],
            ends[route_slots(kind)[r].1],
        )
}

/// Whether `ends`, taken as what the ports of a switch of the kind stand for,
/// make the routes of the kind and the branches the same pairs: the ports are
/// different connection points, every route is a branch, and every branch is
/// a route.
#[verifier::opaque]
pub open spec fn wired(kind: SwitchKind, ends: Seq<TrackEndpoint>, branches: Seq<Branch>) -> bool {
    &&& ends.len() == port_names(kind).len()
    &&& all_distinct(ends)
    &&& forall|r: int|
        0 <= r < route_slots(kind).len() ==> connected(
            branches,
            ends[(#[trigger] route_slots(kind)[r]).0],
            ends[route_slots(kind)[r].1],
        )
    &&& forall|j: int| 0 <= j < branches.len() ==> is_route(kind, ends, #[trigger] branches[j])
}

/// Whether two branches have no connection point in common.
pub open spec fn apart(first: Branch, second: Branch) -> bool {
    &&& first.entry != second.entry
    &&& first.entry != second.exit
    &&& first.exit != second.entry
    &&& first.exit != second.exit
}

/// What the ports of a point stand for: the stem, which is the one connection
/// point that both branches have, then the other end of the first branch and
/// the other end of the second.
pub open spec fn point_ends(branches: Seq<Branch>) -> Option<Seq<TrackEndpoint>> {
    let f = branches[0];
    let s = branches[1];
    if f.entry == f.exit || s.entry == s.exit {
        None
    } else if f.entry == s.entry && f.exit != s.exit {
        Some(seq![f.entry, f.exit, s.exit])
    } else if f.entry == s.exit && f.exit != s.entry {
        Some(seq![f.entry, f.exit, s.entry])
    } else if f.exit == s.entry && f.entry != s.exit {
        Some(seq![f.exit, f.entry, s.exit])
    } else if f.exit == s.exit && f.entry != s.entry {
        Some(seq![f.exit, f.entry, s.entry])
    } else {
        None
    }
}

/// What the ports of a crossing stand for: the two ends of the first branch,
/// then the two ends of the second, all four different.
pub open spec fn crossing_ends(branches: Seq<Branch>) -> Option<Seq<TrackEndpoint>> {
    let f = branches[0];
    let s = branches[1];
    let ends = seq![f.entry, f.exit, s.entry, s.exit];
    if all_distinct(ends) {
        Some(ends)
    } else {
        None
    }
}

/// The first of the later branches that has no connection point in common
/// with the first branch.
pub open spec fn opposite_branch(branches: Seq<Branch>) -> Option<Branch> {
    if apart(branches[1], branches[0]) {
        Some(branches[1])
    } else if apart(branches[2], branches[0]) {
        Some(branches[2])
    } else if apart(branches[3], branches[0]) {
        Some(branches[3])
    } else {
        None
    }
}

/// What the ports of a double slip stand for: the two ends of the first
/// branch, then the two ends of the branch opposite to it, turned so that
/// each port of one side is joined to both ports of the other side.
pub open spec fn double_slip_ends(branches: Seq<Branch>) -> Option<Seq<TrackEndpoint>> {
    let f = branches[0];
    match opposite_branch(branches) {
        None => None,
        Some(o) => {
            let ends = if connected(branches, f.entry, o.exit) {
                seq![f.entry, f.exit, o.entry, o.exit]
            } else {
                seq![f.entry, f.exit, o.exit, o.entry]
            };
            if wired(SwitchKind::DoubleSlip, ends, branches) {
                Some(ends)
            } else {
                None
            }
        },
    }
}

/// The kind of switch that the two counts name.
pub open spec fn switch_kind_of(edges: nat, branches: nat) -> Option<SwitchKind> {
    if edges == 3 && branches == 2 {
        Some(SwitchKind::Point)
    } else if edges == 4 && branches == 2 {
        Some(SwitchKind::Crossing)
    } else if edges == 4 && branches == 4 {
        Some(SwitchKind::DoubleSlip)
    } else {
        None
    }
}

/// What the ports of a switch of the kind stand for, where the branches have
/// the shape of the kind. The number of branches is that of the kind.
pub open spec fn switch_ends(kind: SwitchKind, branches: Seq<Branch>) -> Option<
    Seq<TrackEndpoint>,
> {
    match kind {
        SwitchKind::Point => point_ends(branches),
        SwitchKind::Crossing => crossing_ends(branches),
        SwitchKind::DoubleSlip => double_slip_ends(branches),
    }
}

/// The ports of a switch of the kind, bound to `ends` in their order.
pub open spec fn ports_of(kind: SwitchKind, ends: Seq<TrackEndpoint>) -> Seq<Port> {
    Seq::new(ends.len(), |i: int| Port { name: port_names(kind)[i], endpoint: ends[i] })
}

/// What a node becomes, given the edges that touch it and the branches among
/// them, or the finding for which it is left out.
pub open spec fn classified(
    edges: Seq<Edge>,
    node: NodeId,
    incident: Seq<usize>,
    branches: Seq<Branch>,
) -> Result<JunctionView, Diagnostic> {
    if incident.len() == 0 {
        Err(Diagnostic::NodeWithoutEdge { node })
    } else if incident.len() == 1 && branches.len() == 0 {
        let e = edges[incident[0] as int];
        Ok(JunctionView::BufferStop(BufferStop { id: node, track: e.id, position: e.offset_at(node) }))
    } else if incident.len() == 2 && branches.len() == 1 {
        Ok(
            JunctionView::Link(
                TrackSectionLink { id: node, src: branches[0].entry, dst: branches[0].exit },
            ),
        )
    } else {
        match switch_kind_of(incident.len(), branches.len()) {
            None => Err(
                Diagnostic::UnknownJunction {
                    node,
                    edges: incident.len() as usize,
                    branches: branches.len() as usize,
                },
            ),
            Some(kind) => match switch_ends(kind, branches) {
                None => Err(
                    Diagnostic::InconsistentWiring {
                        node,
                        edges: incident.len() as usize,
                        branches: branches.len() as usize,
                    },
                ),
                Some(ends) => Ok(
                    JunctionView::Switch(SwitchView { id: node, kind, ports: ports_of(kind, ends) }),
                ),
            },
        }
    }
}

/// The view of what classification returns.
pub open spec fn outcome_view(outcome: Result<Junction, Diagnostic>) -> Result<
    JunctionView,
    Diagnostic,
> {
    match outcome {
        Ok(junction) => Ok(junction@),
        Err(finding) => Err(finding),
    }
}

fn joined(branch: &Branch, p: TrackEndpoint, q: TrackEndpoint) -> (b: bool)
    ensures
        b == joins(*branch, p, q),
{
    (branch.entry == p && branch.exit == q) || (branch.entry == q && branch.exit == p)
}

fn is_connected(branches: &Vec<Branch>, p: TrackEndpoint, q: TrackEndpoint) -> (b: bool)
    ensures
        b == connected(branches@, p, q),
{
    reveal(connected);
    let mut j: usize = 0;
    while j < branches.len()
        invariant
            j <= branches@.len(),
            forall|i: int| 0 <= i < j ==> !joins(#[trigger] branches@[i], p, q),
        decreases branches@.len() - j,
    {
        if joined(&branches[j], p, q) {
            proof {
                reveal(connected);
            }
            return true;
        }
        j += 1;
    }
    false
}

fn are_apart(first: &Branch, second: &Branch) -> (b: bool)
    ensures
        b == apart(*first, *second),
{
    first.entry != second.entry && first.entry != second.exit && first.exit != second.entry
        && first.exit != second.exit
}

fn four_distinct(a: TrackEndpoint, b: TrackEndpoint, c: TrackEndpoint, d: TrackEndpoint) -> (r:
    bool)
    ensures
        r == all_distinct(seq![a, b, c, d]),
{
    let ghost ends = seq![a, b, c, d];
    assert(ends[0] == a && ends[1] == b && ends[2] == c && ends[3] == d);
    a != b && a != c && a != d && b != c && b != d && c != d
}

fn is_double_slip(
    a1: TrackEndpoint,
    b1: TrackEndpoint,
    a2: TrackEndpoint,
    b2: TrackEndpoint,
    branches: &Vec<Branch>,
) -> (r: bool)
    ensures
        r == wired(SwitchKind::DoubleSlip, seq![a1, b1, a2, b2], branches@),
{
    reveal(wired);
    let ghost kind = SwitchKind::DoubleSlip;
    let ghost ends = seq![a1, b1, a2, b2];
    let ghost slots = route_slots(kind);
    assert(ends[0] == a1 && ends[1] == b1 && ends[2] == a2 && ends[3] == b2);
    assert(slots[0] == (0int, 1int) && slots[1] == (0int, 3int) && slots[2] == (2int, 1int)
        && slots[3] == (2int, 3int));
    if !four_distinct(a1, b1, a2, b2) {
        return false;
    }
    if !is_connected(branches, a1, b1) {
        assert(!connected(branches@, ends[slots[0].0], ends[slots[0].1]));
        return false;
    }
    if !is_connected(branches, a1, b2) {
        assert(!connected(branches@, ends[slots[1].0], ends[slots[1].1]));
        return false;
    }
    if !is_connected(branches, a2, b1) {
        assert(!connected(branches@, ends[slots[2].0], ends[slots[2].1]));
        return false;
    }
    if !is_connected(branches, a2, b2) {
        assert(!connected(branches@, ends[slots[3].0], ends[slots[3].1]));
        return false;
    }
    let mut j: usize = 0;
    while j < branches.len()
        invariant
            j <= branches@.len(),
            kind == SwitchKind::DoubleSlip,
            ends == seq![a1, b1, a2, b2],
            slots == route_slots(kind),
            forall|i: int| 0 <= i < j ==> is_route(kind, ends, #[trigger] branches@[i]),
        decreases branches@.len() - j,
    {
        let b = &branches[j];
        proof {
            reveal(wired);
        }
        assert(ends[0] == a1 && ends[1] == b1 && ends[2] == a2 && ends[3] == b2);
        assert(slots[0] == (0int, 1int) && slots[1] == (0int, 3int) && slots[2] == (2int, 1int)
            && slots[3] == (2int, 3int));
        if joined(b, a1, b1) {
            assert(joins(*b, ends[slots[0].0], ends[slots[0].1]));
        } else if joined(b, a1, b2) {
            assert(joins(*b, ends[slots[1].0], ends[slots[1].1]));
        } else if joined(b, a2, b1) {
            assert(joins(*b, ends[slots[2].0], ends[slots[2].1]));
        } else if joined(b, a2, b2) {
            assert(joins(*b, ends[slots[3].0], ends[slots[3].1]));
        } else {
            assert(!is_route(kind, ends, *b)) by {
                assert forall|r: int| 0 <= r < slots.len() implies !joins(
                    *b,
                    ends[(#[trigger] slots[r]).0],
                    ends[slots[r].1],
                ) by {}
            }
            return false;
        }
        j += 1;
    }
    assert forall|r: int| 0 <= r < slots.len() implies connected(
        branches@,
        ends[(#[trigger] slots[r]).0],
        ends[slots[r].1],
    ) by {}
    true
}

impl SwitchKind {
    /// The names of the ports of the kind, in the order in which a switch
    /// lists its ports.
    pub fn ports(&self) -> (names: Vec<PortName>)
        ensures
            names@ == port_names(*self),
    {
        let mut names: Vec<PortName> = Vec::new();
        match self {
            SwitchKind::Point => {
                names.push(PortName::A);
                names.push(PortName::B1);
                names.push(PortName::B2);
            },
            SwitchKind::Crossing => {
                names.push(PortName::A1);
                names.push(PortName::B1);
                names.push(PortName::A2);
                names.push(PortName::B2);
            },
            SwitchKind::DoubleSlip => {
                names.push(PortName::A1);
                names.push(PortName::B1);
                names.push(PortName::A2);
                names.push(PortName::B2);
            },
        }
        assert(names@ =~= port_names(*self));
        names
    }
}

/// A switch of the kind at `node` whose ports stand for `ends`.
fn switch_with(node: NodeId, kind: SwitchKind, ends: Vec<TrackEndpoint>) -> (switch: Switch)
    requires
        ends@.len() == port_names(kind).len(),
    ensures
        switch@ == (SwitchView { id: node, kind, ports: ports_of(kind, ends@) }),
{
    let names = kind.ports();
    let mut ports: Vec<Port> = Vec::new();
    let mut i: usize = 0;
    while i < ends.len()
        invariant
            i <= ends@.len(),
            names@ == port_names(kind),
            ends@.len() == names@.len(),
            ports@.len() == i,
            forall|k: int| 0 <= k < i ==> #[trigger] ports@[k] == ports_of(kind, ends@)[k],
        decreases ends@.len() - i,
    {
        ports.push(Port { name: names[i], endpoint: ends[i] });
        i += 1;
    }
    assert(ports@ =~= ports_of(kind, ends@));
    Switch { id: node, kind, ports }
}

/// The view of a switch that may be missing.
pub open spec fn switch_view(switch: Option<Switch>) -> Option<SwitchView> {
    match switch {
        Some(s) => Some(s@),
        None => None,
    }
}

/// The switch of a kind at `node`, where the branches have its shape.
pub open spec fn switch_at(node: NodeId, kind: SwitchKind, branches: Seq<Branch>) -> Option<
    SwitchView,
> {
    match switch_ends(kind, branches) {
        Some(ends) => Some(SwitchView { id: node, kind, ports: ports_of(kind, ends) }),
        None => None,
    }
}

/// Wires a point at `node` from its two branches: the stem is the connection
/// point that both branches have. There is no point where the branches have
/// none or both in common.
pub fn point_switch(node: NodeId, branches: &Vec<Branch>) -> (switch: Option<Switch>)
    requires
        branches@.len() == 2,
    ensures
        switch_view(switch) == switch_at(node, SwitchKind::Point, branches@),
{
    let f = branches[0];
    let s = branches[1];
    if f.entry == f.exit || s.entry == s.exit {
        return None;
    }
    let mut ends: Vec<TrackEndpoint> = Vec::new();
    if f.entry == s.entry && f.exit != s.exit {
        ends.push(f.entry);
        ends.push(f.exit);
        ends.push(s.exit);
    } else if f.entry == s.exit && f.exit != s.entry {
        ends.push(f.entry);
        ends.push(f.exit);
        ends.push(s.entry);
    } else if f.exit == s.entry && f.entry != s.exit {
        ends.push(f.exit);
        ends.push(f.entry);
        ends.push(s.exit);
    } else if f.exit == s.exit && f.entry != s.entry {
        ends.push(f.exit);
        ends.push(f.entry);
        ends.push(s.entry);
    } else {
        return None;
    }
    assert(point_ends(branches@) == Some(ends@)) by {
        assert(point_ends(branches@).unwrap() =~= ends@);
    }
    Some(switch_with(node, SwitchKind::Point, ends))
}

/// Wires a crossing at `node` from its two branches, which must have no
/// connection point in common.
pub fn cross_switch(node: NodeId, branches: &Vec<Branch>) -> (switch: Option<Switch>)
    requires
        branches@.len() == 2,
    ensures
        switch_view(switch) == switch_at(node, SwitchKind::Crossing, branches@),
{
    let f = branches[0];
    let s = branches[1];
    if !four_distinct(f.entry, f.exit, s.entry, s.exit) {
        return None;
    }
    let mut ends: Vec<TrackEndpoint> = Vec::new();
    ends.push(f.entry);
    ends.push(f.exit);
    ends.push(s.entry);
    ends.push(s.exit);
    assert(ends@ =~= seq![f.entry, f.exit, s.entry, s.exit]);
    Some(switch_with(node, SwitchKind::Crossing, ends))
}

/// Wires a double slip at `node` from its four branches, which must join each
/// of two connection points to each of two others.
pub fn double_slip_switch(node: NodeId, branches: &Vec<Branch>) -> (switch: Option<Switch>)
    requires
        branches@.len() == 4,
    ensures
        switch_view(switch) == switch_at(node, SwitchKind::DoubleSlip, branches@),
{
    let f = branches[0];
    let o = if are_apart(&branches[1], &f) {
        branches[1]
    } else if are_apart(&branches[2], &f) {
        branches[2]
    } else if are_apart(&branches[3], &f) {
        branches[3]
    } else {
        return None;
    };
    assert(opposite_branch(branches@) == Some(o));
    let (a2, b2) = if is_connected(branches, f.entry, o.exit) {
        (o.entry, o.exit)
    } else {
        (o.exit, o.entry)
    };
    if !is_double_slip(f.entry, f.exit, a2, b2, branches) {
        return None;
    }
    let mut ends: Vec<TrackEndpoint> = Vec::new();
    ends.push(f.entry);
    ends.push(f.exit);
    ends.push(a2);
    ends.push(b2);
    assert(ends@ =~= seq![f.entry, f.exit, a2, b2]);
    Some(switch_with(node, SwitchKind::DoubleSlip, ends))
}

/// Resolves the node of an adjacency into the primitive that its counts of
/// edges and branches name, or into the finding for which it is left out: a
/// node without edges, counts that name no primitive, or branches that do not
/// have the shape of the switch that the counts name.
pub fn classify(edges: &Vec<Edge>, adjacency: &Adjacency, branches: &Vec<Branch>) -> (outcome:
    Result<Junction, Diagnostic>)
    requires
        in_network(edges@, adjacency.edges@),
    ensures
        outcome_view(outcome) == classified(edges@, adjacency.node, adjacency.edges@, branches@),
{
    let node = adjacency.node;
    let n: usize = adjacency.edges.len();
    let m: usize = branches.len();
    if n == 0 {
        return Err(Diagnostic::NodeWithoutEdge { node });
    }
    if n == 1 && m == 0 {
        let e = &edges[adjacency.edges[0]];
        return Ok(
            Junction::BufferStop(BufferStop { id: node, track: e.id, position: e.offset(node) }),
        );
    }
    if n == 2 && m == 1 {
        return Ok(
            Junction::Link(
                TrackSectionLink { id: node, src: branches[0].entry, dst: branches[0].exit },
            ),
        );
    }
    let switch = if n == 3 && m == 2 {
        point_switch(node, branches)
    } else if n == 4 && m == 2 {
        cross_switch(node, branches)
    } else if n == 4 && m == 4 {
        double_slip_switch(node, branches)
    } else {
        return Err(Diagnostic::UnknownJunction { node, edges: n, branches: m });
    };
    match switch {
        Some(s) => Ok(Junction::Switch(s)),
        None => Err(Diagnostic::InconsistentWiring { node, edges: n, branches: m }),
    }
}

} // verus!
