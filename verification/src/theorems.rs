//! What holds of every synthesis: each edge is a track section, each node has
//! one primitive or none, and the same network gives the same infrastructure.
use vstd::prelude::*;
use crate::adjacency::{incident, lemma_incident_is_exact, nodes_of};
use crate::branches::{branches_at, degenerate_at};
use crate::classify::{apart, joins, wired, JunctionView};
use crate::geometry::Tolerance;
use crate::model::{Diagnostic, Edge, NodeId, TrackEndpoint};
use crate::railjson::{
    catalogue, port_names, BufferStop, Port, PortName, RailJsonView, SwitchKind, SwitchView,
    TrackSectionLink,
};
use crate::synthesis::{
    placed, resolved, synthesized, synthesized_upto, track_sections_of, with_node, Synthesis,
};
use crate::wiring::{
    double_slip_shape, ends_of, lemma_four_edges_are_a_crossing,
    lemma_four_edges_are_a_double_slip, lemma_routes_are_branches,
    lemma_single_edge_is_buffer_stop, lemma_three_edges_are_a_point, lemma_two_edges_are_linked,
};

verus! {

/// The node that a primitive stands for.
pub open spec fn junction_node(junction: JunctionView) -> NodeId {
    match junction {
        JunctionView::BufferStop(stop) => stop.id,
        JunctionView::Link(link) => link.id,
        JunctionView::Switch(switch) => switch.id,
    }
}

/// Whether the infrastructure holds the primitive.
pub open spec fn holds(railjson: RailJsonView, junction: JunctionView) -> bool {
    match junction {
        JunctionView::BufferStop(stop) => railjson.buffer_stops.contains(stop),
        JunctionView::Link(link) => railjson.track_section_links.contains(link),
        JunctionView::Switch(switch) => railjson.switches.contains(switch),
    }
}

/// The number of buffer stops that stand for `node`.
pub open spec fn stops_at(stops: Seq<BufferStop>, node: NodeId) -> nat
    decreases stops.len(),
{
    if stops.len() == 0 {
        0
    } else {
        stops_at(stops.drop_last(), node) + if stops.last().id == node {
            1nat
        } else {
            0nat
        }
    }
}

/// The number of links that stand for `node`.
pub open spec fn links_at(links: Seq<TrackSectionLink>, node: NodeId) -> nat
    decreases links.len(),
{
    if links.len() == 0 {
        0
    } else {
        links_at(links.drop_last(), node) + if links.last().id == node {
            1nat
        } else {
            0nat
        }
    }
}

/// The number of switches that stand for `node`.
pub open spec fn switches_at(switches: Seq<SwitchView>, node: NodeId) -> nat
    decreases switches.len(),
{
    if switches.len() == 0 {
        0
    } else {
        switches_at(switches.drop_last(), node) + if switches.last().id == node {
            1nat
        } else {
            0nat
        }
    }
}

/// The number of primitives of the infrastructure that stand for `node`.
pub open spec fn primitives_at(railjson: RailJsonView, node: NodeId) -> nat {
    stops_at(railjson.buffer_stops, node) + links_at(railjson.track_section_links, node)
        + switches_at(railjson.switches, node)
}

/// Whether the primitive is the only one that stands for its node: one of
/// its sort does, and none of another sort.
pub open spec fn stands_alone(railjson: RailJsonView, junction: JunctionView) -> bool {
    let node = junction_node(junction);
    match junction {
        JunctionView::BufferStop(_) => {
            &&& stops_at(railjson.buffer_stops, node) == 1
            &&& links_at(railjson.track_section_links, node) == 0
            &&& switches_at(railjson.switches, node) == 0
        },
        JunctionView::Link(_) => {
            &&& stops_at(railjson.buffer_stops, node) == 0
            &&& links_at(railjson.track_section_links, node) == 1
            &&& switches_at(railjson.switches, node) == 0
        },
        JunctionView::Switch(_) => {
            &&& stops_at(railjson.buffer_stops, node) == 0
            &&& links_at(railjson.track_section_links, node) == 0
            &&& switches_at(railjson.switches, node) == 1
        },
    }
}

/// A buffer stop of the list is counted among those of its node.
pub proof fn lemma_stop_is_counted(stops: Seq<BufferStop>, stop: BufferStop)
    requires
        stops.contains(stop),
    ensures
        stops_at(stops, stop.id) >= 1,
    decreases stops.len(),
{
    if stops.last() != stop {
        let i = choose|i: int| 0 <= i < stops.len() && stops[i] == stop;
        assert(stops.drop_last()[i] == stop);
        lemma_stop_is_counted(stops.drop_last(), stop);
    }
}

/// A link of the list is counted among those of its node.
pub proof fn lemma_link_is_counted(links: Seq<TrackSectionLink>, link: TrackSectionLink)
    requires
        links.contains(link),
    ensures
        links_at(links, link.id) >= 1,
    decreases links.len(),
{
    if links.last() != link {
        let i = choose|i: int| 0 <= i < links.len() && links[i] == link;
        assert(links.drop_last()[i] == link);
        lemma_link_is_counted(links.drop_last(), link);
    }
}

/// A switch of the list is counted among those of its node.
pub proof fn lemma_switch_is_counted(switches: Seq<SwitchView>, switch: SwitchView)
    requires
        switches.contains(switch),
    ensures
        switches_at(switches, switch.id) >= 1,
    decreases switches.len(),
{
    if switches.last() != switch {
        let i = choose|i: int| 0 <= i < switches.len() && switches[i] == switch;
        assert(switches.drop_last()[i] == switch);
        lemma_switch_is_counted(switches.drop_last(), switch);
    }
}

/// No node stands twice in the list of the nodes of a network.
pub proof fn lemma_nodes_are_distinct(edges: Seq<Edge>)
    ensures
        forall|i: int, j: int|
            0 <= i < j < nodes_of(edges).len() ==> nodes_of(edges)[i] != nodes_of(edges)[j],
    decreases edges.len(),
{
    if edges.len() > 0 {
        lemma_nodes_are_distinct(edges.drop_last());
        let before = nodes_of(edges.drop_last());
        let e = edges.last();
        let with_source = if before.contains(e.source) {
            before
        } else {
            before.push(e.source)
        };
        assert forall|i: int, j: int| 0 <= i < j < with_source.len() implies with_source[i]
            != with_source[j] by {
            if j == before.len() {
                assert(with_source[i] == before[i]);
            }
        }
        let nodes = nodes_of(edges);
        assert forall|i: int, j: int| 0 <= i < j < nodes.len() implies nodes[i] != nodes[j] by {
            if j == with_source.len() {
                assert(nodes[i] == with_source[i]);
            }
        }
    }
}

/// Placing a primitive makes it one of the infrastructure, and adds one to
/// the primitives of its node and none to those of another.
pub proof fn lemma_placed(railjson: RailJsonView, junction: JunctionView, node: NodeId)
    ensures
        holds(placed(railjson, junction), junction),
        forall|other: JunctionView| holds(railjson, other) ==> holds(placed(railjson, junction), other),
        primitives_at(placed(railjson, junction), node) == primitives_at(railjson, node) + if junction_node(
            junction,
        ) == node {
            1nat
        } else {
            0nat
        },
        placed(railjson, junction).track_sections == railjson.track_sections,
        placed(railjson, junction).switch_types == railjson.switch_types,
{
    let after = placed(railjson, junction);
    match junction {
        JunctionView::BufferStop(stop) => {
            assert(after.buffer_stops.drop_last() == railjson.buffer_stops);
            assert(after.buffer_stops[railjson.buffer_stops.len() as int] == stop);
            assert forall|other: JunctionView| holds(railjson, other) implies holds(
                after,
                other,
            ) by {
                if let JunctionView::BufferStop(s) = other {
                    let i = choose|i: int|
                        0 <= i < railjson.buffer_stops.len() && railjson.buffer_stops[i] == s;
                    assert(after.buffer_stops[i] == s);
                }
            }
        },
        JunctionView::Link(link) => {
            assert(after.track_section_links.drop_last() == railjson.track_section_links);
            assert(after.track_section_links[railjson.track_section_links.len() as int] == link);
            assert forall|other: JunctionView| holds(railjson, other) implies holds(
                after,
                other,
            ) by {
                if let JunctionView::Link(l) = other {
                    let i = choose|i: int|
                        0 <= i < railjson.track_section_links.len()
                            && railjson.track_section_links[i] == l;
                    assert(after.track_section_links[i] == l);
                }
            }
        },
        JunctionView::Switch(switch) => {
            assert(after.switches.drop_last() == railjson.switches);
            assert(after.switches[railjson.switches.len() as int] == switch);
            assert forall|other: JunctionView| holds(railjson, other) implies holds(
                after,
                other,
            ) by {
                if let JunctionView::Switch(s) = other {
                    let i = choose|i: int|
                        0 <= i < railjson.switches.len() && railjson.switches[i] == s;
                    assert(after.switches[i] == s);
                }
            }
        },
    }
}

/// After the first `k` nodes are resolved: the track sections and the switch
/// types are those of the start; a node among the first `k` has its primitive
/// in the infrastructure and no other, or its finding among the findings and
/// no primitive; a node not among them has no primitive.
pub proof fn lemma_resolved_upto(edges: Seq<Edge>, tolerance: Tolerance, k: int, node: NodeId)
    requires
        0 <= k <= nodes_of(edges).len(),
    ensures
        synthesized_upto(edges, tolerance, k).railjson.track_sections == track_sections_of(edges),
        synthesized_upto(edges, tolerance, k).railjson.switch_types == catalogue(),
        nodes_of(edges).take(k).contains(node) ==> match resolved(edges, node, tolerance) {
            Ok(junction) => holds(synthesized_upto(edges, tolerance, k).railjson, junction)
                && primitives_at(synthesized_upto(edges, tolerance, k).railjson, node) == 1,
            Err(finding) => synthesized_upto(edges, tolerance, k).diagnostics.contains(finding)
                && primitives_at(synthesized_upto(edges, tolerance, k).railjson, node) == 0,
        },
        !nodes_of(edges).take(k).contains(node) ==> primitives_at(
            synthesized_upto(edges, tolerance, k).railjson,
            node,
        ) == 0,
    decreases k,
{
    let nodes = nodes_of(edges);
    if k > 0 {
        let before = synthesized_upto(edges, tolerance, k - 1);
        let after = synthesized_upto(edges, tolerance, k);
        let current = nodes[k - 1];
        lemma_resolved_upto(edges, tolerance, k - 1, node);
        lemma_nodes_are_distinct(edges);
        assert(after == with_node(before, edges, current, tolerance));
        assert(nodes.take(k).drop_last() == nodes.take(k - 1));
        assert(nodes.take(k)[k - 1] == current);
        let earlier = nodes.take(k - 1);
        let upto = nodes.take(k);
        let seen_before = earlier.contains(node);
        if seen_before {
            let j = choose|j: int| 0 <= j < earlier.len() && earlier[j] == node;
            assert(upto[j] == node);
            assert(nodes[j] == node);
            assert(current != node);
        }
        if upto.contains(node) && !seen_before {
            let j = choose|j: int| 0 <= j < upto.len() && upto[j] == node;
            if j < k - 1 {
                assert(earlier[j] == node);
            }
            assert(current == node);
        }
        if current == node {
            assert(upto[k - 1] == node);
        }
        let findings = before.diagnostics + degenerate_at(
            edges,
            current,
            incident(edges, current),
        );
        match resolved(edges, current, tolerance) {
            Ok(junction) => {
                lemma_placed(before.railjson, junction, node);
                assert(junction_node(junction) == current);
                if seen_before {
                    if let Err(finding) = resolved(edges, node, tolerance) {
                        let i = choose|i: int|
                            0 <= i < before.diagnostics.len() && before.diagnostics[i] == finding;
                        assert(findings[i] == finding);
                    }
                }
            },
            Err(finding) => {
                assert(after.railjson == before.railjson);
                assert(after.diagnostics == findings.push(finding));
                assert(after.diagnostics[findings.len() as int] == finding);
                if seen_before {
                    if let Err(earlier) = resolved(edges, node, tolerance) {
                        let i = choose|i: int|
                            0 <= i < before.diagnostics.len() && before.diagnostics[i] == earlier;
                        assert(after.diagnostics[i] == earlier);
                    }
                }
            },
        }
    } else {
        assert(nodes.take(0).len() == 0);
    }
}

/// The findings only grow: what was found after the first `j` nodes is still
/// among the findings after the first `k`.
pub proof fn lemma_findings_are_kept(
    edges: Seq<Edge>,
    tolerance: Tolerance,
    j: int,
    k: int,
    finding: Diagnostic,
)
    requires
        0 <= j <= k,
        synthesized_upto(edges, tolerance, j).diagnostics.contains(finding),
    ensures
        synthesized_upto(edges, tolerance, k).diagnostics.contains(finding),
    decreases k - j,
{
    if j < k {
        lemma_findings_are_kept(edges, tolerance, j, k - 1, finding);
        let before = synthesized_upto(edges, tolerance, k - 1);
        let after = synthesized_upto(edges, tolerance, k);
        let current = nodes_of(edges)[k - 1];
        assert(after == with_node(before, edges, current, tolerance));
        let i = choose|i: int| 0 <= i < before.diagnostics.len() && before.diagnostics[i] == finding;
        let findings = before.diagnostics + degenerate_at(edges, current, incident(edges, current));
        assert(findings[i] == finding);
        assert(after.diagnostics[i] == finding);
    }
}

/// Every edge without a tangent is reported at each node of the network
/// that it touches.
pub proof fn lemma_degenerate_edges_are_reported(
    edges: Seq<Edge>,
    tolerance: Tolerance,
    node: NodeId,
    finding: Diagnostic,
)
    requires
        nodes_of(edges).contains(node),
        degenerate_at(edges, node, incident(edges, node)).contains(finding),
    ensures
        synthesized(edges, tolerance).diagnostics.contains(finding),
{
    let nodes = nodes_of(edges);
    let k = choose|k: int| 0 <= k < nodes.len() && nodes[k] == node;
    let before = synthesized_upto(edges, tolerance, k);
    let after = synthesized_upto(edges, tolerance, k + 1);
    let here = degenerate_at(edges, node, incident(edges, node));
    assert(after == with_node(before, edges, node, tolerance));
    let i = choose|i: int| 0 <= i < here.len() && here[i] == finding;
    let findings = before.diagnostics + here;
    assert(findings[before.diagnostics.len() + i] == finding);
    assert(after.diagnostics[before.diagnostics.len() + i] == finding);
    lemma_findings_are_kept(edges, tolerance, k + 1, nodes.len() as int, finding);
}

/// Every edge is a track section, once, at the place of the edge, with the
/// identifier, the length and the geometry of the edge; and the switch types
/// are those of the catalogue, whatever the network holds.
pub proof fn lemma_edges_become_track_sections(edges: Seq<Edge>, tolerance: Tolerance)
    ensures
        synthesized(edges, tolerance).railjson.track_sections.len() == edges.len(),
        forall|i: int|
            0 <= i < edges.len() ==> {
                let section = #[trigger] synthesized(edges, tolerance).railjson.track_sections[i];
                &&& section.id == edges[i].id
                &&& section.length == edges[i].length
                &&& section.geometry == edges[i].geometry@
            },
        synthesized(edges, tolerance).railjson.switch_types == catalogue(),
{
    lemma_resolved_upto(edges, tolerance, nodes_of(edges).len() as int, 0);
}

/// Every node of the network is resolved once: either its primitive is in
/// the infrastructure and is the only primitive that stands for the node, or
/// no primitive stands for the node and its finding is among the findings.
pub proof fn lemma_one_outcome_per_node(edges: Seq<Edge>, tolerance: Tolerance, node: NodeId)
    requires
        nodes_of(edges).contains(node),
    ensures
        match resolved(edges, node, tolerance) {
            Ok(junction) => {
                &&& junction_node(junction) == node
                &&& holds(synthesized(edges, tolerance).railjson, junction)
                &&& primitives_at(synthesized(edges, tolerance).railjson, node) == 1
                &&& stands_alone(synthesized(edges, tolerance).railjson, junction)
            },
            Err(finding) => synthesized(edges, tolerance).diagnostics.contains(finding)
                && primitives_at(synthesized(edges, tolerance).railjson, node) == 0,
        },
{
    let nodes = nodes_of(edges);
    assert(nodes.take(nodes.len() as int) == nodes);
    lemma_resolved_upto(edges, tolerance, nodes.len() as int, node);
    let railjson = synthesized(edges, tolerance).railjson;
    match resolved(edges, node, tolerance) {
        Ok(JunctionView::BufferStop(stop)) => {
            lemma_stop_is_counted(railjson.buffer_stops, stop);
        },
        Ok(JunctionView::Link(link)) => {
            lemma_link_is_counted(railjson.track_section_links, link);
        },
        Ok(JunctionView::Switch(switch)) => {
            lemma_switch_is_counted(railjson.switches, switch);
        },
        Err(_) => {},
    }
}

/// A node that a single edge touches gets exactly one buffer stop and no
/// other primitive. The stop sits on that edge, at offset 0 where the node is
/// the source of the edge and at the length of the edge where it is the
/// target.
pub proof fn lemma_dead_end_gets_a_buffer_stop(edges: Seq<Edge>, tolerance: Tolerance, node: NodeId)
    requires
        edges.len() <= usize::MAX,
        nodes_of(edges).contains(node),
        incident(edges, node).len() == 1,
    ensures
        ({
            let e = edges[incident(edges, node)[0] as int];
            let stop = BufferStop {
                id: node,
                track: e.id,
                position: if e.source == node {
                    0
                } else {
                    e.length
                },
            };
            let railjson = synthesized(edges, tolerance).railjson;
            &&& e.source == node || e.target == node
            &&& railjson.buffer_stops.contains(stop)
            &&& stops_at(railjson.buffer_stops, node) == 1
            &&& links_at(railjson.track_section_links, node) == 0
            &&& switches_at(railjson.switches, node) == 0
        }),
{
    lemma_incident_is_exact(edges, node);
    lemma_single_edge_is_buffer_stop(edges, node, incident(edges, node), tolerance);
    lemma_one_outcome_per_node(edges, tolerance, node);
}

/// A node that two edges touch, which form one branch, gets exactly one link
/// and no other primitive. The link joins the connection points of the two
/// edges at the node, that of the edge with the smaller identifier first.
pub proof fn lemma_through_node_gets_a_link(edges: Seq<Edge>, tolerance: Tolerance, node: NodeId)
    requires
        nodes_of(edges).contains(node),
        incident(edges, node).len() == 2,
        branches_at(edges, node, incident(edges, node), tolerance).len() == 1,
    ensures
        ({
            let e0 = edges[incident(edges, node)[0] as int];
            let e1 = edges[incident(edges, node)[1] as int];
            let lower = if e0.id < e1.id {
                e0
            } else {
                e1
            };
            let higher = if e0.id < e1.id {
                e1
            } else {
                e0
            };
            let link = TrackSectionLink {
                id: node,
                src: lower.connection_at(node),
                dst: higher.connection_at(node),
            };
            let railjson = synthesized(edges, tolerance).railjson;
            &&& railjson.track_section_links.contains(link)
            &&& links_at(railjson.track_section_links, node) == 1
            &&& stops_at(railjson.buffer_stops, node) == 0
            &&& switches_at(railjson.switches, node) == 0
        }),
{
    lemma_two_edges_are_linked(edges, node, incident(edges, node), tolerance);
    lemma_one_outcome_per_node(edges, tolerance, node);
}

/// A node that three edges touch, with two branches that have one connection
/// point in common, gets exactly one switch and no other primitive: a point
/// with three ports, whose two routes join the common connection point, the
/// stem, to the other end of each branch.
pub proof fn lemma_fork_gets_a_point(
    edges: Seq<Edge>,
    tolerance: Tolerance,
    node: NodeId,
    stem: TrackEndpoint,
    first: TrackEndpoint,
    second: TrackEndpoint,
)
    requires
        nodes_of(edges).contains(node),
        incident(edges, node).len() == 3,
        branches_at(edges, node, incident(edges, node), tolerance).len() == 2,
        joins(branches_at(edges, node, incident(edges, node), tolerance)[0], stem, first),
        joins(branches_at(edges, node, incident(edges, node), tolerance)[1], stem, second),
        stem != first,
        stem != second,
        first != second,
    ensures
        ({
            let switch = SwitchView {
                id: node,
                kind: SwitchKind::Point,
                ports: seq![
                    Port { name: PortName::A, endpoint: stem },
                    Port { name: PortName::B1, endpoint: first },
                    Port { name: PortName::B2, endpoint: second },
                ],
            };
            let railjson = synthesized(edges, tolerance).railjson;
            &&& railjson.switches.contains(switch)
            &&& switches_at(railjson.switches, node) == 1
            &&& stops_at(railjson.buffer_stops, node) == 0
            &&& links_at(railjson.track_section_links, node) == 0
            &&& wired(
                SwitchKind::Point,
                seq![stem, first, second],
                branches_at(edges, node, incident(edges, node), tolerance),
            )
        }),
{
    let branches = branches_at(edges, node, incident(edges, node), tolerance);
    lemma_three_edges_are_a_point(edges, node, incident(edges, node), branches, stem, first, second);
    crate::wiring::lemma_point_is_wired(branches, stem, first, second);
    lemma_one_outcome_per_node(edges, tolerance, node);
}

/// A node that four edges touch, with two branches that have no connection
/// point in common, gets exactly one switch and no other primitive: a
/// crossing with four ports and two routes, one for each branch.
pub proof fn lemma_crossroads_get_a_crossing(edges: Seq<Edge>, tolerance: Tolerance, node: NodeId)
    requires
        nodes_of(edges).contains(node),
        incident(edges, node).len() == 4,
        branches_at(edges, node, incident(edges, node), tolerance).len() == 2,
        apart(
            branches_at(edges, node, incident(edges, node), tolerance)[0],
            branches_at(edges, node, incident(edges, node), tolerance)[1],
        ),
    ensures
        ({
            let branches = branches_at(edges, node, incident(edges, node), tolerance);
            let switch = SwitchView {
                id: node,
                kind: SwitchKind::Crossing,
                ports: seq![
                    Port { name: PortName::A1, endpoint: branches[0].entry },
                    Port { name: PortName::B1, endpoint: branches[0].exit },
                    Port { name: PortName::A2, endpoint: branches[1].entry },
                    Port { name: PortName::B2, endpoint: branches[1].exit },
                ],
            };
            let railjson = synthesized(edges, tolerance).railjson;
            &&& railjson.switches.contains(switch)
            &&& switches_at(railjson.switches, node) == 1
            &&& stops_at(railjson.buffer_stops, node) == 0
            &&& links_at(railjson.track_section_links, node) == 0
            &&& wired(
                SwitchKind::Crossing,
                seq![branches[0].entry, branches[0].exit, branches[1].entry, branches[1].exit],
                branches,
            )
        }),
{
    let branches = branches_at(edges, node, incident(edges, node), tolerance);
    crate::wiring::lemma_branch_ends_differ(edges, node, incident(edges, node), tolerance);
    assert(branches[0].entry.track < branches[0].exit.track);
    assert(branches[1].entry.track < branches[1].exit.track);
    lemma_four_edges_are_a_crossing(edges, node, incident(edges, node), branches);
    crate::wiring::lemma_crossing_is_wired(branches);
    lemma_one_outcome_per_node(edges, tolerance, node);
}

/// A node that four edges touch, with four branches that join each of two
/// connection points to each of two others, gets exactly one switch and no
/// other primitive: a double slip with four ports, whose four routes are the
/// four branches.
pub proof fn lemma_double_junction_gets_a_double_slip(
    edges: Seq<Edge>,
    tolerance: Tolerance,
    node: NodeId,
    a1: TrackEndpoint,
    b1: TrackEndpoint,
    a2: TrackEndpoint,
    b2: TrackEndpoint,
)
    requires
        nodes_of(edges).contains(node),
        incident(edges, node).len() == 4,
        branches_at(edges, node, incident(edges, node), tolerance).len() == 4,
        double_slip_shape(
            branches_at(edges, node, incident(edges, node), tolerance),
            a1,
            b1,
            a2,
            b2,
        ),
    ensures
        resolved(edges, node, tolerance) matches Ok(JunctionView::Switch(switch)) && {
            let railjson = synthesized(edges, tolerance).railjson;
            &&& switch.id == node
            &&& switch.kind == SwitchKind::DoubleSlip
            &&& switch.ports.len() == 4
            &&& railjson.switches.contains(switch)
            &&& switches_at(railjson.switches, node) == 1
            &&& stops_at(railjson.buffer_stops, node) == 0
            &&& links_at(railjson.track_section_links, node) == 0
            &&& wired(
                SwitchKind::DoubleSlip,
                ends_of(switch.ports),
                branches_at(edges, node, incident(edges, node), tolerance),
            )
        },
{
    let branches = branches_at(edges, node, incident(edges, node), tolerance);
    lemma_four_edges_are_a_double_slip(edges, node, incident(edges, node), branches, a1, b1, a2, b2);
    lemma_one_outcome_per_node(edges, tolerance, node);
}

/// Every switch of the infrastructure that stands for a node of the network
/// has the ports of its kind, bound to different connection points, and its
/// routes are the branches of the node.
pub proof fn lemma_switches_route_the_branches(
    edges: Seq<Edge>,
    tolerance: Tolerance,
    node: NodeId,
)
    requires
        nodes_of(edges).contains(node),
    ensures
        resolved(edges, node, tolerance) matches Ok(JunctionView::Switch(switch)) ==> {
            &&& synthesized(edges, tolerance).railjson.switches.contains(switch)
            &&& switch.ports.len() == port_names(switch.kind).len()
            &&& forall|i: int|
                0 <= i < switch.ports.len() ==> (#[trigger] switch.ports[i]).name == port_names(
                    switch.kind,
                )[i]
            &&& wired(
                switch.kind,
                ends_of(switch.ports),
                branches_at(edges, node, incident(edges, node), tolerance),
            )
        },
{
    lemma_routes_are_branches(
        edges,
        node,
        incident(edges, node),
        branches_at(edges, node, incident(edges, node), tolerance),
    );
    lemma_one_outcome_per_node(edges, tolerance, node);
}

/// No primitive stands for what is not a node of the network.
pub proof fn lemma_no_primitive_elsewhere(edges: Seq<Edge>, tolerance: Tolerance, node: NodeId)
    requires
        !nodes_of(edges).contains(node),
    ensures
        primitives_at(synthesized(edges, tolerance).railjson, node) == 0,
{
    let nodes = nodes_of(edges);
    assert(nodes.take(nodes.len() as int) == nodes);
    lemma_resolved_upto(edges, tolerance, nodes.len() as int, node);
}

/// Two runs on the same network with the same tolerance give the same
/// infrastructure and the same findings, item for item and in the same order.
pub proof fn lemma_synthesis_repeats(
    edges: Seq<Edge>,
    tolerance: Tolerance,
    first: Synthesis,
    second: Synthesis,
)
    requires
        first@ == synthesized(edges, tolerance),
        second@ == synthesized(edges, tolerance),
    ensures
        first@ == second@,
        first@.railjson.track_sections == second@.railjson.track_sections,
        first@.railjson.buffer_stops == second@.railjson.buffer_stops,
        first@.railjson.track_section_links == second@.railjson.track_section_links,
        first@.railjson.switches == second@.railjson.switches,
        first@.railjson.switch_types == second@.railjson.switch_types,
        first@.diagnostics == second@.diagnostics,
{
}

} // verus!
