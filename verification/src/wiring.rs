//! What holds of the classifier: which primitive each shape of node gets, and
//! that the routes of a switch are the branches of its node.
use vstd::prelude::*;
use crate::branches::{branch_between, branches_at, branches_upto, pairs, row_branches};
use crate::classify::{
    all_distinct, apart, classified, connected, crossing_ends, double_slip_ends, is_route, joins,
    opposite_branch, point_ends, ports_of, switch_ends, switch_kind_of, wired, JunctionView,
};
use crate::geometry::Tolerance;
use crate::model::{Branch, Edge, NodeId, TrackEndpoint};
use crate::railjson::{
    port_names, route_slots, BufferStop, Port, PortName, SwitchKind, SwitchView, TrackSectionLink,
};

verus! {

/// The connection points that the ports of a switch stand for, in the order
/// of the ports.
pub open spec fn ends_of(ports: Seq<Port>) -> Seq<TrackEndpoint> {
    Seq::new(ports.len(), |i: int| ports[i].endpoint)
}

proof fn lemma_connected_by(branches: Seq<Branch>, j: int, p: TrackEndpoint, q: TrackEndpoint)
    requires
        0 <= j < branches.len(),
        joins(branches[j], p, q),
    ensures
        connected(branches, p, q),
{
    reveal(connected);
}

proof fn lemma_route_by(kind: SwitchKind, ends: Seq<TrackEndpoint>, branch: Branch, r: int)
    requires
        0 <= r < route_slots(kind).len(),
        joins(branch, ends[route_slots(kind)[r].0], ends[route_slots(kind)[r].1]),
    ensures
        is_route(kind, ends, branch),
{
}

/// The ports of a switch stand for the connection points that it was wired
/// from, under the names of its kind.
pub proof fn lemma_ports_bind_ends(kind: SwitchKind, ends: Seq<TrackEndpoint>)
    requires
        ends.len() == port_names(kind).len(),
    ensures
        ends_of(ports_of(kind, ends)) == ends,
        ports_of(kind, ends).len() == port_names(kind).len(),
        forall|i: int|
            0 <= i < ends.len() ==> (#[trigger] ports_of(kind, ends)[i]).name == port_names(kind)[i],
{
    assert(ends_of(ports_of(kind, ends)) =~= ends);
}

/// A node that a single edge touches has no branch.
pub proof fn lemma_single_edge_has_no_branch(
    edges: Seq<Edge>,
    node: NodeId,
    incident: Seq<usize>,
    tolerance: Tolerance,
)
    requires
        incident.len() == 1,
    ensures
        branches_at(edges, node, incident, tolerance) == Seq::<Branch>::empty(),
{
    reveal_with_fuel(branches_upto, 2);
    reveal_with_fuel(row_branches, 2);
    assert(branches_at(edges, node, incident, tolerance) =~= Seq::<Branch>::empty());
}

/// A node that a single edge touches becomes a buffer stop on that edge: at
/// offset 0 where the node is the source of the edge, at the length of the
/// edge otherwise.
pub proof fn lemma_single_edge_is_buffer_stop(
    edges: Seq<Edge>,
    node: NodeId,
    incident: Seq<usize>,
    tolerance: Tolerance,
)
    requires
        incident.len() == 1,
    ensures
        classified(edges, node, incident, branches_at(edges, node, incident, tolerance)) == Ok::<
            JunctionView,
            crate::model::Diagnostic,
        >(
            JunctionView::BufferStop(
                BufferStop {
                    id: node,
                    track: edges[incident[0] as int].id,
                    position: if edges[incident[0] as int].source == node {
                        0
                    } else {
                        edges[incident[0] as int].length
                    },
                },
            ),
        ),
{
    lemma_single_edge_has_no_branch(edges, node, incident, tolerance);
}

/// The branches at a node that two edges touch: the one pair, the edge with
/// the smaller identifier first, if the two continue each other.
pub proof fn lemma_branches_of_two_edges(
    edges: Seq<Edge>,
    node: NodeId,
    incident: Seq<usize>,
    tolerance: Tolerance,
)
    requires
        incident.len() == 2,
    ensures
        ({
            let e0 = edges[incident[0] as int];
            let e1 = edges[incident[1] as int];
            branches_at(edges, node, incident, tolerance) == if pairs(e0, e1, node, tolerance) {
                seq![branch_between(e0, e1, node)]
            } else if pairs(e1, e0, node, tolerance) {
                seq![branch_between(e1, e0, node)]
            } else {
                Seq::<Branch>::empty()
            }
        }),
{
    reveal_with_fuel(branches_upto, 3);
    reveal_with_fuel(row_branches, 3);
    let e0 = edges[incident[0] as int];
    let e1 = edges[incident[1] as int];
    let expected = if pairs(e0, e1, node, tolerance) {
        seq![branch_between(e0, e1, node)]
    } else if pairs(e1, e0, node, tolerance) {
        seq![branch_between(e1, e0, node)]
    } else {
        Seq::<Branch>::empty()
    };
    assert(branches_at(edges, node, incident, tolerance) =~= expected);
}

/// A node that two edges touch, with one branch, becomes a link between the
/// connection points of the two edges at the node, that of the edge with the
/// smaller identifier first.
pub proof fn lemma_two_edges_are_linked(
    edges: Seq<Edge>,
    node: NodeId,
    incident: Seq<usize>,
    tolerance: Tolerance,
)
    requires
        incident.len() == 2,
        branches_at(edges, node, incident, tolerance).len() == 1,
    ensures
        ({
            let e0 = edges[incident[0] as int];
            let e1 = edges[incident[1] as int];
            let lower = if e0.id < e1.id {
                e0
            } else {
                e1
            };
            let higher = if e0.id < e1.id {
                e1
            } else {
                e0
            };
            &&& lower.id < higher.id
            &&& classified(edges, node, incident, branches_at(edges, node, incident, tolerance))
                == Ok::<JunctionView, crate::model::Diagnostic>(
                JunctionView::Link(
                    TrackSectionLink {
                        id: node,
                        src: lower.connection_at(node),
                        dst: higher.connection_at(node),
                    },
                ),
            )
        }),
{
    lemma_branches_of_two_edges(edges, node, incident, tolerance);
}

/// Every branch at a node joins two edges with different identifiers, the
/// smaller one first: its two ends are never one connection point.
pub proof fn lemma_branch_ends_differ(
    edges: Seq<Edge>,
    node: NodeId,
    incident: Seq<usize>,
    tolerance: Tolerance,
)
    ensures
        forall|i: int|
            0 <= i < branches_at(edges, node, incident, tolerance).len() ==> (
            #[trigger] branches_at(edges, node, incident, tolerance)[i]).entry.track < branches_at(
                edges,
                node,
                incident,
                tolerance,
            )[i].exit.track,
{
    lemma_upto_ends_differ(edges, node, incident, tolerance, incident.len() as int);
}

proof fn lemma_row_ends_differ(
    edges: Seq<Edge>,
    node: NodeId,
    incident: Seq<usize>,
    tolerance: Tolerance,
    a: int,
    b: int,
)
    ensures
        forall|i: int|
            0 <= i < row_branches(edges, node, incident, tolerance, a, b).len() ==> (
            #[trigger] row_branches(edges, node, incident, tolerance, a, b)[i]).entry.track
                < row_branches(edges, node, incident, tolerance, a, b)[i].exit.track,
    decreases b,
{
    if b > 0 {
        lemma_row_ends_differ(edges, node, incident, tolerance, a, b - 1);
    }
}

proof fn lemma_upto_ends_differ(
    edges: Seq<Edge>,
    node: NodeId,
    incident: Seq<usize>,
    tolerance: Tolerance,
    a: int,
)
    ensures
        forall|i: int|
            0 <= i < branches_upto(edges, node, incident, tolerance, a).len() ==> (
            #[trigger] branches_upto(edges, node, incident, tolerance, a)[i]).entry.track
                < branches_upto(edges, node, incident, tolerance, a)[i].exit.track,
    decreases a,
{
    if a > 0 {
        lemma_upto_ends_differ(edges, node, incident, tolerance, a - 1);
        lemma_row_ends_differ(edges, node, incident, tolerance, a - 1, incident.len() as int);
    }
}

/// Whether `branch` is the branch of the edges at the places `a` and `b` of
/// the incident list: the two form a pair, taken in this order.
pub open spec fn branch_of_places(
    edges: Seq<Edge>,
    node: NodeId,
    incident: Seq<usize>,
    tolerance: Tolerance,
    a: int,
    b: int,
    branch: Branch,
) -> bool {
    &&& 0 <= a < incident.len()
    &&& 0 <= b < incident.len()
    &&& pairs(edges[incident[a] as int], edges[incident[b] as int], node, tolerance)
    &&& branch == branch_between(edges[incident[a] as int], edges[incident[b] as int], node)
}

/// Whether `branch` is the branch of the edge at place `a` and of one at a
/// place below `b`.
pub open spec fn in_row(
    edges: Seq<Edge>,
    node: NodeId,
    incident: Seq<usize>,
    tolerance: Tolerance,
    a: int,
    b: int,
    branch: Branch,
) -> bool {
    exists|c: int|
        0 <= c < b && #[trigger] branch_of_places(edges, node, incident, tolerance, a, c, branch)
}

/// Whether `branch` is the branch of an edge at a place below `a` and of
/// another edge of the incident list.
pub open spec fn in_rows(
    edges: Seq<Edge>,
    node: NodeId,
    incident: Seq<usize>,
    tolerance: Tolerance,
    a: int,
    branch: Branch,
) -> bool {
    exists|r: int, c: int|
        0 <= r < a && #[trigger] branch_of_places(edges, node, incident, tolerance, r, c, branch)
}

proof fn lemma_row_holds_the_pairs(
    edges: Seq<Edge>,
    node: NodeId,
    incident: Seq<usize>,
    tolerance: Tolerance,
    a: int,
    b: int,
)
    requires
        0 <= a < incident.len(),
        0 <= b <= incident.len(),
    ensures
        forall|i: int|
            0 <= i < row_branches(edges, node, incident, tolerance, a, b).len() ==> in_row(
                edges,
                node,
                incident,
                tolerance,
                a,
                b,
                #[trigger] row_branches(edges, node, incident, tolerance, a, b)[i],
            ),
        forall|branch: Branch| #[trigger]
            in_row(edges, node, incident, tolerance, a, b, branch) ==> row_branches(
                edges,
                node,
                incident,
                tolerance,
                a,
                b,
            ).contains(branch),
    decreases b,
{
    if b > 0 {
        lemma_row_holds_the_pairs(edges, node, incident, tolerance, a, b - 1);
        let before = row_branches(edges, node, incident, tolerance, a, b - 1);
        let row = row_branches(edges, node, incident, tolerance, a, b);
        assert forall|i: int| 0 <= i < row.len() implies in_row(
            edges,
            node,
            incident,
            tolerance,
            a,
            b,
            #[trigger] row[i],
        ) by {
            if i < before.len() {
                assert(row[i] == before[i]);
                assert(in_row(edges, node, incident, tolerance, a, b - 1, before[i]));
                let c = choose|c: int|
                    0 <= c < b - 1 && #[trigger] branch_of_places(
                        edges,
                        node,
                        incident,
                        tolerance,
                        a,
                        c,
                        before[i],
                    );
                assert(branch_of_places(edges, node, incident, tolerance, a, c, row[i]));
            } else {
                assert(branch_of_places(edges, node, incident, tolerance, a, b - 1, row[i]));
            }
        }
        assert forall|branch: Branch| #[trigger]
            in_row(edges, node, incident, tolerance, a, b, branch) implies row.contains(
            branch,
        ) by {
            let c = choose|c: int|
                0 <= c < b && #[trigger] branch_of_places(
                    edges,
                    node,
                    incident,
                    tolerance,
                    a,
                    c,
                    branch,
                );
            if c < b - 1 {
                assert(in_row(edges, node, incident, tolerance, a, b - 1, branch));
                let i = choose|i: int| 0 <= i < before.len() && before[i] == branch;
                assert(row[i] == branch);
            } else {
                assert(row[row.len() - 1] == branch);
            }
        }
    }
}

proof fn lemma_rows_hold_the_pairs(
    edges: Seq<Edge>,
    node: NodeId,
    incident: Seq<usize>,
    tolerance: Tolerance,
    a: int,
)
    requires
        0 <= a <= incident.len(),
    ensures
        forall|i: int|
            0 <= i < branches_upto(edges, node, incident, tolerance, a).len() ==> in_rows(
                edges,
                node,
                incident,
                tolerance,
                a,
                #[trigger] branches_upto(edges, node, incident, tolerance, a)[i],
            ),
        forall|branch: Branch| #[trigger]
            in_rows(edges, node, incident, tolerance, a, branch) ==> branches_upto(
                edges,
                node,
                incident,
                tolerance,
                a,
            ).contains(branch),
    decreases a,
{
    if a > 0 {
        lemma_rows_hold_the_pairs(edges, node, incident, tolerance, a - 1);
        lemma_row_holds_the_pairs(edges, node, incident, tolerance, a - 1, incident.len() as int);
        let n = incident.len() as int;
        let before = branches_upto(edges, node, incident, tolerance, a - 1);
        let row = row_branches(edges, node, incident, tolerance, a - 1, n);
        let all = branches_upto(edges, node, incident, tolerance, a);
        assert(all == before + row);
        assert forall|i: int| 0 <= i < all.len() implies in_rows(
            edges,
            node,
            incident,
            tolerance,
            a,
            #[trigger] all[i],
        ) by {
            if i < before.len() {
                assert(all[i] == before[i]);
                assert(in_rows(edges, node, incident, tolerance, a - 1, before[i]));
                let (r, c) = choose|r: int, c: int|
                    0 <= r < a - 1 && #[trigger] branch_of_places(
                        edges,
                        node,
                        incident,
                        tolerance,
                        r,
                        c,
                        before[i],
                    );
                assert(branch_of_places(edges, node, incident, tolerance, r, c, all[i]));
            } else {
                let k = i - before.len();
                assert(all[i] == row[k]);
                assert(in_row(edges, node, incident, tolerance, a - 1, n, row[k]));
                let c = choose|c: int|
                    0 <= c < n && #[trigger] branch_of_places(
                        edges,
                        node,
                        incident,
                        tolerance,
                        a - 1,
                        c,
                        row[k],
                    );
                assert(branch_of_places(edges, node, incident, tolerance, a - 1, c, all[i]));
            }
        }
        assert forall|branch: Branch| #[trigger]
            in_rows(edges, node, incident, tolerance, a, branch) implies all.contains(
            branch,
        ) by {
            let (r, c) = choose|r: int, c: int|
                0 <= r < a && #[trigger] branch_of_places(
                    edges,
                    node,
                    incident,
                    tolerance,
                    r,
                    c,
                    branch,
                );
            if r < a - 1 {
                assert(in_rows(edges, node, incident, tolerance, a - 1, branch));
                let i = choose|i: int| 0 <= i < before.len() && before[i] == branch;
                assert(all[i] == branch);
            } else {
                assert(in_row(edges, node, incident, tolerance, a - 1, n, branch));
                let i = choose|i: int| 0 <= i < row.len() && row[i] == branch;
                assert(all[before.len() + i] == branch);
            }
        }
    }
}

/// The branches at a node are the pairs of the edges that touch it: every
/// branch joins the connection points of two of those edges that continue
/// each other, the one with the smaller identifier first; and every two such
/// edges have their branch among the branches.
pub proof fn lemma_branches_are_the_pairs(
    edges: Seq<Edge>,
    node: NodeId,
    incident: Seq<usize>,
    tolerance: Tolerance,
)
    ensures
        forall|i: int|
            0 <= i < branches_at(edges, node, incident, tolerance).len() ==> in_rows(
                edges,
                node,
                incident,
                tolerance,
                incident.len() as int,
                #[trigger] branches_at(edges, node, incident, tolerance)[i],
            ),
        forall|a: int, b: int, branch: Branch| #[trigger]
            branch_of_places(edges, node, incident, tolerance, a, b, branch) ==> branches_at(
                edges,
                node,
                incident,
                tolerance,
            ).contains(branch),
{
    lemma_rows_hold_the_pairs(edges, node, incident, tolerance, incident.len() as int);
    assert forall|a: int, b: int, branch: Branch| #[trigger]
        branch_of_places(edges, node, incident, tolerance, a, b, branch) implies branches_at(
        edges,
        node,
        incident,
        tolerance,
    ).contains(branch) by {
        assert(in_rows(edges, node, incident, tolerance, incident.len() as int, branch));
    }
}

/// At a node that three edges with different identifiers touch, two branches
/// always have one connection point in common: the node is a point, whatever
/// the two branches are.
pub proof fn lemma_three_edges_share_a_stem(
    edges: Seq<Edge>,
    node: NodeId,
    incident: Seq<usize>,
    tolerance: Tolerance,
)
    requires
        incident.len() == 3,
        edges[incident[0] as int].id != edges[incident[1] as int].id,
        edges[incident[0] as int].id != edges[incident[2] as int].id,
        edges[incident[1] as int].id != edges[incident[2] as int].id,
        branches_at(edges, node, incident, tolerance).len() == 2,
    ensures
        point_ends(branches_at(edges, node, incident, tolerance)) is Some,
        classified(edges, node, incident, branches_at(edges, node, incident, tolerance)) matches Ok(
            JunctionView::Switch(switch),
        ) && switch.kind == SwitchKind::Point,
{
    reveal_with_fuel(branches_upto, 4);
    reveal_with_fuel(row_branches, 4);
    let e0 = edges[incident[0] as int];
    let e1 = edges[incident[1] as int];
    let e2 = edges[incident[2] as int];
    let r0 = row_branches(edges, node, incident, tolerance, 0, 3);
    let r1 = row_branches(edges, node, incident, tolerance, 1, 3);
    let r2 = row_branches(edges, node, incident, tolerance, 2, 3);
    let all = branches_at(edges, node, incident, tolerance);
    assert(all == r0 + r1 + r2);
    let pairs_ab = pairs(e0, e1, node, tolerance);
    let pairs_ac = pairs(e0, e2, node, tolerance);
    let pairs_ba = pairs(e1, e0, node, tolerance);
    let pairs_bc = pairs(e1, e2, node, tolerance);
    let pairs_ca = pairs(e2, e0, node, tolerance);
    let pairs_cb = pairs(e2, e1, node, tolerance);
    let none = Seq::<Branch>::empty();
    let branch_ab = branch_between(e0, e1, node);
    let branch_ac = branch_between(e0, e2, node);
    let branch_ba = branch_between(e1, e0, node);
    let branch_bc = branch_between(e1, e2, node);
    let branch_ca = branch_between(e2, e0, node);
    let branch_cb = branch_between(e2, e1, node);
    assert(r0 =~= (if pairs_ab { seq![branch_ab] } else { none }) + (if pairs_ac { seq![branch_ac] } else { none }));
    assert(r1 =~= (if pairs_ba { seq![branch_ba] } else { none }) + (if pairs_bc { seq![branch_bc] } else { none }));
    assert(r2 =~= (if pairs_ca { seq![branch_ca] } else { none }) + (if pairs_cb { seq![branch_cb] } else { none }));
    assert(r0.len() + r1.len() + r2.len() == 2);
}

/// Where the two branches of a point have one connection point in common,
/// the ports of the point stand for that one, the stem, and for the other
/// ends of the first and of the second branch; each route of a point joins
/// the stem to one of the other two, and the routes are the two branches.
pub proof fn lemma_point_is_wired(
    branches: Seq<Branch>,
    stem: TrackEndpoint,
    first: TrackEndpoint,
    second: TrackEndpoint,
)
    requires
        branches.len() == 2,
        joins(branches[0], stem, first),
        joins(branches[1], stem, second),
        stem != first,
        stem != second,
        first != second,
    ensures
        point_ends(branches) == Some(seq![stem, first, second]),
        route_slots(SwitchKind::Point) == seq![(0int, 1int), (0int, 2int)],
        wired(SwitchKind::Point, seq![stem, first, second], branches),
{
    reveal(wired);
    let ends = seq![stem, first, second];
    let kind = SwitchKind::Point;
    assert(point_ends(branches).unwrap() =~= ends);
    assert(route_slots(kind)[0] == (0int, 1int) && route_slots(kind)[1] == (0int, 2int));
    lemma_connected_by(branches, 0, stem, first);
    lemma_connected_by(branches, 1, stem, second);
    lemma_route_by(kind, ends, branches[0], 0);
    lemma_route_by(kind, ends, branches[1], 1);
    assert(port_names(kind).len() == 3);
}

/// A node that three edges touch, with two branches that have one connection
/// point in common, becomes a point: three ports, the stem under the name A
/// and the other ends of the two branches under B1 and B2.
pub proof fn lemma_three_edges_are_a_point(
    edges: Seq<Edge>,
    node: NodeId,
    incident: Seq<usize>,
    branches: Seq<Branch>,
    stem: TrackEndpoint,
    first: TrackEndpoint,
    second: TrackEndpoint,
)
    requires
        incident.len() == 3,
        branches.len() == 2,
        joins(branches[0], stem, first),
        joins(branches[1], stem, second),
        stem != first,
        stem != second,
        first != second,
    ensures
        classified(edges, node, incident, branches) == Ok::<JunctionView, crate::model::Diagnostic>(
            JunctionView::Switch(
                SwitchView {
                    id: node,
                    kind: SwitchKind::Point,
                    ports: seq![
                        Port { name: PortName::A, endpoint: stem },
                        Port { name: PortName::B1, endpoint: first },
                        Port { name: PortName::B2, endpoint: second },
                    ],
                },
            ),
        ),
{
    lemma_point_is_wired(branches, stem, first, second);
    let ends = seq![stem, first, second];
    assert(ports_of(SwitchKind::Point, ends) =~= seq![
        Port { name: PortName::A, endpoint: stem },
        Port { name: PortName::B1, endpoint: first },
        Port { name: PortName::B2, endpoint: second },
    ]);
}

/// Where two branches have no connection point in common, and each joins two
/// different connection points, the ports of the crossing stand for the two
/// ends of the first branch and the two ends of the second, and the routes
/// of the crossing are the two branches.
pub proof fn lemma_crossing_is_wired(branches: Seq<Branch>)
    requires
        branches.len() == 2,
        apart(branches[0], branches[1]),
        branches[0].entry != branches[0].exit,
        branches[1].entry != branches[1].exit,
    ensures
        crossing_ends(branches) == Some(
            seq![branches[0].entry, branches[0].exit, branches[1].entry, branches[1].exit],
        ),
        route_slots(SwitchKind::Crossing) == seq![(0int, 1int), (2int, 3int)],
        wired(
            SwitchKind::Crossing,
            seq![branches[0].entry, branches[0].exit, branches[1].entry, branches[1].exit],
            branches,
        ),
{
    reveal(wired);
    let kind = SwitchKind::Crossing;
    let ends = seq![branches[0].entry, branches[0].exit, branches[1].entry, branches[1].exit];
    assert(ends[0] == branches[0].entry && ends[1] == branches[0].exit && ends[2]
        == branches[1].entry && ends[3] == branches[1].exit);
    assert(all_distinct(ends));
    assert(route_slots(kind)[0] == (0int, 1int) && route_slots(kind)[1] == (2int, 3int));
    lemma_connected_by(branches, 0, ends[0], ends[1]);
    lemma_connected_by(branches, 1, ends[2], ends[3]);
    lemma_route_by(kind, ends, branches[0], 0);
    lemma_route_by(kind, ends, branches[1], 1);
    assert(port_names(kind).len() == 4);
}

/// A node that four edges touch, with two branches that have no connection
/// point in common, becomes a crossing: four ports, the ends of the first
/// branch under A1 and B1, those of the second under A2 and B2.
pub proof fn lemma_four_edges_are_a_crossing(
    edges: Seq<Edge>,
    node: NodeId,
    incident: Seq<usize>,
    branches: Seq<Branch>,
)
    requires
        incident.len() == 4,
        branches.len() == 2,
        apart(branches[0], branches[1]),
        branches[0].entry != branches[0].exit,
        branches[1].entry != branches[1].exit,
    ensures
        classified(edges, node, incident, branches) == Ok::<JunctionView, crate::model::Diagnostic>(
            JunctionView::Switch(
                SwitchView {
                    id: node,
                    kind: SwitchKind::Crossing,
                    ports: seq![
                        Port { name: PortName::A1, endpoint: branches[0].entry },
                        Port { name: PortName::B1, endpoint: branches[0].exit },
                        Port { name: PortName::A2, endpoint: branches[1].entry },
                        Port { name: PortName::B2, endpoint: branches[1].exit },
                    ],
                },
            ),
        ),
{
    lemma_crossing_is_wired(branches);
    let ends = seq![branches[0].entry, branches[0].exit, branches[1].entry, branches[1].exit];
    assert(ports_of(SwitchKind::Crossing, ends) =~= seq![
        Port { name: PortName::A1, endpoint: branches[0].entry },
        Port { name: PortName::B1, endpoint: branches[0].exit },
        Port { name: PortName::A2, endpoint: branches[1].entry },
        Port { name: PortName::B2, endpoint: branches[1].exit },
    ]);
}

/// With four branches, two connection points are connected where one of the
/// four joins them.
proof fn lemma_connected_among_four(branches: Seq<Branch>, p: TrackEndpoint, q: TrackEndpoint)
    requires
        branches.len() == 4,
    ensures
        connected(branches, p, q) == (joins(branches[0], p, q) || joins(branches[1], p, q) || joins(
            branches[2],
            p,
            q,
        ) || joins(branches[3], p, q)),
{
    reveal(connected);
    if joins(branches[0], p, q) {
        lemma_connected_by(branches, 0, p, q);
    }
    if joins(branches[1], p, q) {
        lemma_connected_by(branches, 1, p, q);
    }
    if joins(branches[2], p, q) {
        lemma_connected_by(branches, 2, p, q);
    }
    if joins(branches[3], p, q) {
        lemma_connected_by(branches, 3, p, q);
    }
}

/// Whether the branch joins a connection point of one side of a double slip
/// to one of the other side.
pub open spec fn crosses(
    branch: Branch,
    a1: TrackEndpoint,
    b1: TrackEndpoint,
    a2: TrackEndpoint,
    b2: TrackEndpoint,
) -> bool {
    joins(branch, a1, b1) || joins(branch, a1, b2) || joins(branch, a2, b1) || joins(branch, a2, b2)
}

/// The shape of a double slip, written out for four branches: four different
/// connection points, two on each side; each point of one side joined to each
/// point of the other; and no branch that does anything else.
pub open spec fn double_slip_shape(
    branches: Seq<Branch>,
    a1: TrackEndpoint,
    b1: TrackEndpoint,
    a2: TrackEndpoint,
    b2: TrackEndpoint,
) -> bool {
    &&& a1 != b1 && a1 != a2 && a1 != b2 && b1 != a2 && b1 != b2 && a2 != b2
    &&& connected(branches, a1, b1)
    &&& connected(branches, a1, b2)
    &&& connected(branches, a2, b1)
    &&& connected(branches, a2, b2)
    &&& crosses(branches[0], a1, b1, a2, b2)
    &&& crosses(branches[1], a1, b1, a2, b2)
    &&& crosses(branches[2], a1, b1, a2, b2)
    &&& crosses(branches[3], a1, b1, a2, b2)
}

/// A route of a double slip joins a connection point of one side to one of
/// the other.
proof fn lemma_route_crosses(ends: Seq<TrackEndpoint>, branch: Branch)
    requires
        ends.len() == 4,
        is_route(SwitchKind::DoubleSlip, ends, branch),
    ensures
        crosses(branch, ends[0], ends[1], ends[2], ends[3]),
{
    let slots = route_slots(SwitchKind::DoubleSlip);
    let r = choose|r: int|
        0 <= r < slots.len() && joins(branch, ends[(#[trigger] slots[r]).0], ends[slots[r].1]);
    assert(slots[0] == (0int, 1int) && slots[1] == (0int, 3int) && slots[2] == (2int, 1int)
        && slots[3] == (2int, 3int));
    if r == 0 {
    } else if r == 1 {
    } else if r == 2 {
    } else {
        assert(r == 3);
    }
}

/// What joins a connection point of one side of a double slip to one of the
/// other is a route of it.
proof fn lemma_crossing_route(ends: Seq<TrackEndpoint>, branch: Branch)
    requires
        ends.len() == 4,
        crosses(branch, ends[0], ends[1], ends[2], ends[3]),
    ensures
        is_route(SwitchKind::DoubleSlip, ends, branch),
{
    let kind = SwitchKind::DoubleSlip;
    let slots = route_slots(kind);
    assert(slots[0] == (0int, 1int) && slots[1] == (0int, 3int) && slots[2] == (2int, 1int)
        && slots[3] == (2int, 3int));
    if joins(branch, ends[0], ends[1]) {
        lemma_route_by(kind, ends, branch, 0);
    } else if joins(branch, ends[0], ends[3]) {
        lemma_route_by(kind, ends, branch, 1);
    } else if joins(branch, ends[2], ends[1]) {
        lemma_route_by(kind, ends, branch, 2);
    } else {
        lemma_route_by(kind, ends, branch, 3);
    }
}

proof fn lemma_wired_has_shape(branches: Seq<Branch>, ends: Seq<TrackEndpoint>)
    requires
        branches.len() == 4,
        wired(SwitchKind::DoubleSlip, ends, branches),
    ensures
        ends.len() == 4,
        double_slip_shape(branches, ends[0], ends[1], ends[2], ends[3]),
{
    reveal(wired);
    let kind = SwitchKind::DoubleSlip;
    let slots = route_slots(kind);
    assert(port_names(kind).len() == 4);
    assert(slots[0] == (0int, 1int) && slots[1] == (0int, 3int) && slots[2] == (2int, 1int)
        && slots[3] == (2int, 3int));
    assert(connected(branches, ends[slots[0].0], ends[slots[0].1]));
    assert(connected(branches, ends[slots[1].0], ends[slots[1].1]));
    assert(connected(branches, ends[slots[2].0], ends[slots[2].1]));
    assert(connected(branches, ends[slots[3].0], ends[slots[3].1]));
    assert(is_route(kind, ends, branches[0]));
    assert(is_route(kind, ends, branches[1]));
    assert(is_route(kind, ends, branches[2]));
    assert(is_route(kind, ends, branches[3]));
    lemma_route_crosses(ends, branches[0]);
    lemma_route_crosses(ends, branches[1]);
    lemma_route_crosses(ends, branches[2]);
    lemma_route_crosses(ends, branches[3]);
}

proof fn lemma_shape_is_wired(branches: Seq<Branch>, ends: Seq<TrackEndpoint>)
    requires
        branches.len() == 4,
        ends.len() == 4,
        double_slip_shape(branches, ends[0], ends[1], ends[2], ends[3]),
    ensures
        wired(SwitchKind::DoubleSlip, ends, branches),
{
    reveal(wired);
    let kind = SwitchKind::DoubleSlip;
    let slots = route_slots(kind);
    assert(port_names(kind).len() == 4);
    assert(slots[0] == (0int, 1int) && slots[1] == (0int, 3int) && slots[2] == (2int, 1int)
        && slots[3] == (2int, 3int));
    assert(all_distinct(ends));
    assert forall|r: int| 0 <= r < slots.len() implies connected(
        branches,
        ends[(#[trigger] slots[r]).0],
        ends[slots[r].1],
    ) by {
        if r == 0 {
        } else if r == 1 {
        } else if r == 2 {
        } else {
            assert(r == 3);
        }
    }
    assert forall|j: int| 0 <= j < branches.len() implies is_route(
        kind,
        ends,
        #[trigger] branches[j],
    ) by {
        if j == 0 {
        } else if j == 1 {
        } else if j == 2 {
        } else {
            assert(j == 3);
        }
        lemma_crossing_route(ends, branches[j]);
    }
}

/// For four branches, to be wired as a double slip is to have its shape.
pub proof fn lemma_double_slip_shape(
    branches: Seq<Branch>,
    a1: TrackEndpoint,
    b1: TrackEndpoint,
    a2: TrackEndpoint,
    b2: TrackEndpoint,
)
    requires
        branches.len() == 4,
    ensures
        wired(SwitchKind::DoubleSlip, seq![a1, b1, a2, b2], branches) == double_slip_shape(
            branches,
            a1,
            b1,
            a2,
            b2,
        ),
{
    let ends = seq![a1, b1, a2, b2];
    assert(ends[0] == a1 && ends[1] == b1 && ends[2] == a2 && ends[3] == b2);
    if wired(SwitchKind::DoubleSlip, ends, branches) {
        lemma_wired_has_shape(branches, ends);
    }
    if double_slip_shape(branches, a1, b1, a2, b2) {
        lemma_shape_is_wired(branches, ends);
    }
}

/// Where four branches have the shape of a double slip, whichever way its
/// sides and ports are named, the ports of the double slip stand for the two
/// ends of the first branch and for the two ends of the branch opposite to
/// it, and the routes of the double slip are the four branches.
pub proof fn lemma_double_slip_is_wired(
    branches: Seq<Branch>,
    a1: TrackEndpoint,
    b1: TrackEndpoint,
    a2: TrackEndpoint,
    b2: TrackEndpoint,
)
    requires
        branches.len() == 4,
        double_slip_shape(branches, a1, b1, a2, b2),
    ensures
        double_slip_ends(branches) matches Some(ends) && {
            &&& ends.len() == 4
            &&& ends[0] == branches[0].entry
            &&& ends[1] == branches[0].exit
            &&& wired(SwitchKind::DoubleSlip, ends, branches)
            &&& double_slip_shape(branches, ends[0], ends[1], ends[2], ends[3])
        },
        route_slots(SwitchKind::DoubleSlip) == seq![
            (0int, 1int),
            (0int, 3int),
            (2int, 1int),
            (2int, 3int),
        ],
{
    let f = branches[0];
    lemma_connected_among_four(branches, a1, b1);
    lemma_connected_among_four(branches, a1, b2);
    lemma_connected_among_four(branches, a2, b1);
    lemma_connected_among_four(branches, a2, b2);
    assert(opposite_branch(branches) is Some);
    let o = opposite_branch(branches).unwrap();
    lemma_connected_among_four(branches, f.entry, o.exit);
    let turned = connected(branches, f.entry, o.exit);
    let a2n = if turned {
        o.entry
    } else {
        o.exit
    };
    let b2n = if turned {
        o.exit
    } else {
        o.entry
    };
    let ends = seq![f.entry, f.exit, a2n, b2n];
    assert(ends[0] == f.entry && ends[1] == f.exit && ends[2] == a2n && ends[3] == b2n);
    lemma_connected_among_four(branches, f.entry, f.exit);
    lemma_connected_among_four(branches, f.entry, b2n);
    lemma_connected_among_four(branches, a2n, f.exit);
    lemma_connected_among_four(branches, a2n, b2n);
    assert(double_slip_shape(branches, f.entry, f.exit, a2n, b2n));
    lemma_double_slip_shape(branches, f.entry, f.exit, a2n, b2n);
    assert(double_slip_ends(branches) == Some(ends));
}

/// Whether the connection point is the end at `node` of one of the edges of
/// the incident list.
pub open spec fn is_incident_end(
    edges: Seq<Edge>,
    node: NodeId,
    incident: Seq<usize>,
    point: TrackEndpoint,
) -> bool {
    exists|a: int|
        0 <= a < incident.len() && point == (#[trigger] edges[incident[a] as int]).connection_at(
            node,
        )
}

/// Two connection points that a branch at a node joins are ends, at the
/// node, of edges that touch it.
proof fn lemma_connected_points_are_incident(
    edges: Seq<Edge>,
    node: NodeId,
    incident: Seq<usize>,
    tolerance: Tolerance,
    p: TrackEndpoint,
    q: TrackEndpoint,
)
    requires
        connected(branches_at(edges, node, incident, tolerance), p, q),
    ensures
        is_incident_end(edges, node, incident, p),
        is_incident_end(edges, node, incident, q),
{
    reveal(connected);
    let branches = branches_at(edges, node, incident, tolerance);
    let j = choose|j: int| 0 <= j < branches.len() && joins(#[trigger] branches[j], p, q);
    lemma_branches_are_the_pairs(edges, node, incident, tolerance);
    assert(in_rows(edges, node, incident, tolerance, incident.len() as int, branches[j]));
    let (a, b) = choose|a: int, b: int|
        0 <= a < incident.len() && #[trigger] branch_of_places(
            edges,
            node,
            incident,
            tolerance,
            a,
            b,
            branches[j],
        );
    assert(branches[j].entry == edges[incident[a] as int].connection_at(node));
    assert(branches[j].exit == edges[incident[b] as int].connection_at(node));
}

/// Every port of a switch stands for the end, at the node of the switch, of
/// an edge that touches the node.
pub proof fn lemma_ports_are_incident_ends(
    edges: Seq<Edge>,
    node: NodeId,
    incident: Seq<usize>,
    tolerance: Tolerance,
)
    ensures
        classified(edges, node, incident, branches_at(edges, node, incident, tolerance)) matches Ok(
            JunctionView::Switch(switch),
        ) ==> forall|i: int|
            0 <= i < switch.ports.len() ==> is_incident_end(
                edges,
                node,
                incident,
                (#[trigger] switch.ports[i]).endpoint,
            ),
{
    let branches = branches_at(edges, node, incident, tolerance);
    if let Ok(JunctionView::Switch(switch)) = classified(edges, node, incident, branches) {
        lemma_routes_are_branches(edges, node, incident, branches);
        let kind = switch.kind;
        let ends = ends_of(switch.ports);
        let slots = route_slots(kind);
        assert(wired(kind, ends, branches));
        reveal(wired);
        assert forall|i: int| 0 <= i < switch.ports.len() implies is_incident_end(
            edges,
            node,
            incident,
            (#[trigger] switch.ports[i]).endpoint,
        ) by {
            assert(ends[i] == switch.ports[i].endpoint);
            // A route through the port at place `i`.
            let r: int = match kind {
                SwitchKind::Point => if i == 2 {
                    1
                } else {
                    0
                },
                SwitchKind::Crossing => if i <= 1 {
                    0
                } else {
                    1
                },
                SwitchKind::DoubleSlip => if i <= 1 {
                    0
                } else {
                    3
                },
            };
            assert(0 <= r < slots.len());
            assert(slots[r].0 == i || slots[r].1 == i);
            assert(connected(branches, ends[slots[r].0], ends[slots[r].1]));
            lemma_connected_points_are_incident(
                edges,
                node,
                incident,
                tolerance,
                ends[slots[r].0],
                ends[slots[r].1],
            );
        }
    }
}

/// Whether the branch has the connection point as one of its ends.
pub open spec fn passes(branch: Branch, point: TrackEndpoint) -> bool {
    branch.entry == point || branch.exit == point
}

/// The number of branches that have the connection point as one of their
/// ends.
pub open spec fn branches_through(branches: Seq<Branch>, point: TrackEndpoint) -> nat
    decreases branches.len(),
{
    if branches.len() == 0 {
        0
    } else {
        branches_through(branches.drop_last(), point) + if passes(branches.last(), point) {
            1nat
        } else {
            0nat
        }
    }
}

/// Four different branches among four connection points, two through each
/// point, have the shape of a double slip: the points fall into two sides,
/// and the branches join each point of one side to each point of the other.
pub proof fn lemma_two_branches_through_each_point(
    branches: Seq<Branch>,
    p: TrackEndpoint,
    q: TrackEndpoint,
    r: TrackEndpoint,
    s: TrackEndpoint,
)
    requires
        branches.len() == 4,
        p != q && p != r && p != s && q != r && q != s && r != s,
        forall|j: int|
            0 <= j < 4 ==> {
                let b = #[trigger] branches[j];
                &&& b.entry != b.exit
                &&& b.entry == p || b.entry == q || b.entry == r || b.entry == s
                &&& b.exit == p || b.exit == q || b.exit == r || b.exit == s
            },
        forall|i: int, j: int|
            0 <= i < j < 4 ==> !joins(#[trigger] branches[i], (#[trigger] branches[j]).entry, branches[j].exit),
        branches_through(branches, p) == 2,
        branches_through(branches, q) == 2,
        branches_through(branches, r) == 2,
        branches_through(branches, s) == 2,
    ensures
        double_slip_shape(branches, p, q, r, s) || double_slip_shape(branches, p, r, q, s)
            || double_slip_shape(branches, p, q, s, r),
        double_slip_ends(branches) matches Some(ends) && wired(
            SwitchKind::DoubleSlip,
            ends,
            branches,
        ),
{
    reveal_with_fuel(branches_through, 5);
    let b0 = branches[0];
    let b1 = branches[1];
    let b2 = branches[2];
    let b3 = branches[3];
    assert(branches.drop_last().drop_last().drop_last().drop_last().len() == 0);
    assert(branches.drop_last().last() == b2);
    assert(branches.drop_last().drop_last().last() == b1);
    assert(branches.drop_last().drop_last().drop_last().last() == b0);
    lemma_connected_among_four(branches, p, q);
    lemma_connected_among_four(branches, p, r);
    lemma_connected_among_four(branches, p, s);
    lemma_connected_among_four(branches, q, r);
    lemma_connected_among_four(branches, q, s);
    lemma_connected_among_four(branches, r, s);
    lemma_connected_among_four(branches, r, q);
    lemma_connected_among_four(branches, s, q);
    lemma_connected_among_four(branches, s, r);
    assert(!joins(b0, b1.entry, b1.exit) && !joins(b0, b2.entry, b2.exit) && !joins(
        b0,
        b3.entry,
        b3.exit,
    ) && !joins(b1, b2.entry, b2.exit) && !joins(b1, b3.entry, b3.exit) && !joins(
        b2,
        b3.entry,
        b3.exit,
    ));
    if double_slip_shape(branches, p, q, r, s) {
        lemma_double_slip_is_wired(branches, p, q, r, s);
    } else if double_slip_shape(branches, p, r, q, s) {
        lemma_double_slip_is_wired(branches, p, r, q, s);
    } else {
        assert(double_slip_shape(branches, p, q, s, r));
        lemma_double_slip_is_wired(branches, p, q, s, r);
    }
}

/// A node that four edges touch, with four branches in the shape of a double
/// slip, becomes a double slip: four ports under the names A1, B1, A2 and B2,
/// the first two for the ends of the first branch, and four routes, which are
/// the four branches.
pub proof fn lemma_four_edges_are_a_double_slip(
    edges: Seq<Edge>,
    node: NodeId,
    incident: Seq<usize>,
    branches: Seq<Branch>,
    a1: TrackEndpoint,
    b1: TrackEndpoint,
    a2: TrackEndpoint,
    b2: TrackEndpoint,
)
    requires
        incident.len() == 4,
        branches.len() == 4,
        double_slip_shape(branches, a1, b1, a2, b2),
    ensures
        classified(edges, node, incident, branches) matches Ok(JunctionView::Switch(switch)) && {
            &&& switch.id == node
            &&& switch.kind == SwitchKind::DoubleSlip
            &&& switch.ports.len() == 4
            &&& switch.ports[0] == (Port { name: PortName::A1, endpoint: branches[0].entry })
            &&& switch.ports[1] == (Port { name: PortName::B1, endpoint: branches[0].exit })
            &&& switch.ports[2].name == PortName::A2
            &&& switch.ports[3].name == PortName::B2
            &&& wired(SwitchKind::DoubleSlip, ends_of(switch.ports), branches)
        },
        route_slots(SwitchKind::DoubleSlip).len() == 4,
{
    lemma_double_slip_is_wired(branches, a1, b1, a2, b2);
    let ends = double_slip_ends(branches).unwrap();
    lemma_ports_bind_ends(SwitchKind::DoubleSlip, ends);
}

/// The ports of every switch that classification gives stand for different
/// connection points, under the names of its kind, and its routes are the
/// branches of the node: every route joins two connection points that a
/// branch joins, and every branch is a route.
pub proof fn lemma_routes_are_branches(
    edges: Seq<Edge>,
    node: NodeId,
    incident: Seq<usize>,
    branches: Seq<Branch>,
)
    ensures
        classified(edges, node, incident, branches) matches Ok(JunctionView::Switch(switch)) ==> {
            &&& switch.id == node
            &&& switch_kind_of(incident.len(), branches.len()) == Some(switch.kind)
            &&& switch.ports.len() == port_names(switch.kind).len()
            &&& forall|i: int|
                0 <= i < switch.ports.len() ==> (#[trigger] switch.ports[i]).name == port_names(
                    switch.kind,
                )[i]
            &&& wired(switch.kind, ends_of(switch.ports), branches)
        },
{
    if let Ok(JunctionView::Switch(switch)) = classified(edges, node, incident, branches) {
        let kind = switch.kind;
        let ends = switch_ends(kind, branches).unwrap();
        let f = branches[0];
        let s = branches[1];
        match kind {
            SwitchKind::Point => {
                if f.entry == s.entry && f.exit != s.exit {
                    lemma_point_is_wired(branches, f.entry, f.exit, s.exit);
                } else if f.entry == s.exit && f.exit != s.entry {
                    lemma_point_is_wired(branches, f.entry, f.exit, s.entry);
                } else if f.exit == s.entry && f.entry != s.exit {
                    lemma_point_is_wired(branches, f.exit, f.entry, s.exit);
                } else {
                    lemma_point_is_wired(branches, f.exit, f.entry, s.entry);
                }
            },
            SwitchKind::Crossing => {
                let four = seq![f.entry, f.exit, s.entry, s.exit];
                assert(four[0] == f.entry && four[1] == f.exit && four[2] == s.entry && four[3]
                    == s.exit);
                lemma_crossing_is_wired(branches);
            },
            SwitchKind::DoubleSlip => {},
        }
        lemma_ports_bind_ends(kind, ends);
    }
}

} // verus!
