use editoast::geometry::{Point, Tolerance};
use editoast::model::{Diagnostic, Edge, Endpoint, StructuralError, TrackEndpoint};
use editoast::railjson::{
    default_switch_types, BufferStop, Port, PortName, Switch, SwitchKind, TrackSection,
    TrackSectionLink,
};
use editoast::synthesis::{synthesize, track_sections};

const TOLERANCE: Tolerance = Tolerance { num: 577, den: 1000 };

fn p(x: i32, y: i32) -> Point {
    Point { x, y }
}

fn begin(track: u64) -> TrackEndpoint {
    TrackEndpoint { track, endpoint: Endpoint::Begin }
}

fn end(track: u64) -> TrackEndpoint {
    TrackEndpoint { track, endpoint: Endpoint::End }
}

fn port(name: PortName, endpoint: TrackEndpoint) -> Port {
    Port { name, endpoint }
}

/// An edge from `node` at `at` to a node of its own, `(dx, dy)` away.
fn spoke(id: u64, node: i64, at: Point, dx: i32, dy: i32) -> Edge {
    Edge {
        id,
        source: node,
        target: 1000 + id as i64,
        geometry: vec![at, p(at.x + dx, at.y + dy)],
        length: 100 + id,
    }
}

/// An edge to `node` at `at` from a node of its own, `(dx, dy)` away.
fn inward(id: u64, node: i64, at: Point, dx: i32, dy: i32) -> Edge {
    Edge {
        id,
        source: 1000 + id as i64,
        target: node,
        geometry: vec![p(at.x + dx, at.y + dy), at],
        length: 100 + id,
    }
}

/// A stem to the west and two edges that diverge to the east.
fn point_at(node: i64, at: Point, first_id: u64) -> Vec<Edge> {
    vec![
        inward(first_id, node, at, -100, 0),
        spoke(first_id + 1, node, at, 100, 0),
        spoke(first_id + 2, node, at, 100, 27),
    ]
}

/// Two straight tracks that cross at a right angle.
fn crossing_at(node: i64, at: Point, first_id: u64) -> Vec<Edge> {
    vec![
        spoke(first_id, node, at, 100, 0),
        spoke(first_id + 1, node, at, 0, 100),
        spoke(first_id + 2, node, at, -100, 0),
        spoke(first_id + 3, node, at, 0, -100),
    ]
}

/// Two edges to the west and two to the east, each continuing both edges of
/// the other side.
fn double_slip_at(node: i64, at: Point, first_id: u64) -> Vec<Edge> {
    vec![
        spoke(first_id, node, at, -100, 17),
        spoke(first_id + 1, node, at, -100, -17),
        spoke(first_id + 2, node, at, 100, 17),
        spoke(first_id + 3, node, at, 100, -17),
    ]
}

#[test]
fn convert_osm_to_railjson() {
    let edges = vec![Edge {
        id: 1,
        source: 1,
        target: 2,
        geometry: vec![p(0, 0), p(10, 0)],
        length: 10,
    }];
    let output = synthesize(&edges, TOLERANCE);
    assert!(output.is_ok());
    let railjson = output.unwrap().railjson;
    assert_eq!(1, railjson.track_sections.len());
}

#[test]
fn parse_switches() {
    let mut edges = Vec::new();
    edges.extend(point_at(1, p(0, 0), 10));
    edges.extend(crossing_at(2, p(10000, 0), 20));
    edges.extend(double_slip_at(3, p(20000, 0), 30));
    // A node where three edges meet and none continues another.
    edges.push(spoke(40, 4, p(30000, 0), 100, 0));
    edges.push(spoke(41, 4, p(30000, 0), 0, 100));
    edges.push(spoke(42, 4, p(30000, 0), 100, 100));
    // Two tracks of their own.
    edges.push(spoke(50, 5, p(40000, 0), 100, 0));
    edges.push(spoke(51, 6, p(50000, 0), 100, 0));
    let mut railjson = synthesize(&edges, TOLERANCE).unwrap().railjson;
    assert_eq!(3, railjson.switch_types.len());
    assert_eq!(3, railjson.switches.len());
    assert_eq!(18, railjson.buffer_stops.len());

    railjson.switches.sort_by(|a, b| a.kind.name().cmp(b.kind.name()));

    let switch = &railjson.switches[2];
    assert_eq!("point", switch.kind.name());
    assert_eq!(3, switch.ports.len());

    let cross = &railjson.switches[0];
    assert_eq!("cross_over", cross.kind.name());
    assert_eq!(4, cross.ports.len());

    let double = &railjson.switches[1];
    assert_eq!("double_slip", double.kind.name());
    assert_eq!(4, double.ports.len());
}

#[test]
fn empty_network_cannot_be_synthesized() {
    assert_eq!(synthesize(&vec![], TOLERANCE), Err(StructuralError::EmptyInput));
}

#[test]
fn network_with_a_loop_cannot_be_synthesized() {
    let mut edges = point_at(1, p(0, 0), 10);
    edges.push(Edge { id: 99, source: 7, target: 7, geometry: vec![p(0, 0), p(1, 1)], length: 2 });
    edges.push(Edge { id: 98, source: 8, target: 8, geometry: vec![p(0, 0), p(1, 1)], length: 2 });
    assert_eq!(synthesize(&edges, TOLERANCE), Err(StructuralError::SelfLoop { position: 3 }));
}

#[test]
fn every_edge_becomes_one_track_section() {
    let mut edges = double_slip_at(3, p(-5, 8), 30);
    edges.push(Edge {
        id: 7,
        source: 70,
        target: 71,
        geometry: vec![p(1, 2), p(3, 4), p(-5, 6), p(i32::MAX, i32::MIN)],
        length: u64::MAX,
    });
    edges.push(Edge { id: 8, source: 80, target: 81, geometry: vec![], length: 0 });
    let railjson = synthesize(&edges, TOLERANCE).unwrap().railjson;
    let expected: Vec<TrackSection> = edges
        .iter()
        .map(|e| TrackSection { id: e.id, length: e.length, geometry: e.geometry.clone() })
        .collect();
    assert_eq!(railjson.track_sections, expected);
    assert_eq!(track_sections(&edges), expected);
}

#[test]
fn switch_types_do_not_depend_on_the_network() {
    let small = synthesize(&vec![spoke(1, 1, p(0, 0), 5, 5)], TOLERANCE).unwrap();
    let large = synthesize(&crossing_at(2, p(0, 0), 20), TOLERANCE).unwrap();
    assert_eq!(small.railjson.switch_types, default_switch_types());
    assert_eq!(large.railjson.switch_types, default_switch_types());
}

#[test]
fn synthesis_twice_gives_the_same_result() {
    let mut edges = Vec::new();
    edges.extend(point_at(1, p(0, 0), 10));
    edges.extend(crossing_at(2, p(10000, 0), 20));
    edges.extend(double_slip_at(3, p(20000, 0), 30));
    edges.push(Edge { id: 60, source: 1013, target: 1020, geometry: vec![p(0, 0)], length: 1 });
    let first = synthesize(&edges, TOLERANCE).unwrap();
    let second = synthesize(&edges, TOLERANCE).unwrap();
    assert_eq!(first, second);
    assert!(!first.diagnostics.is_empty());
}

#[test]
fn single_edge_ends_in_two_buffer_stops() {
    // Edge D from node 5 to node 6, nothing else at either node.
    let d = Edge { id: 4, source: 5, target: 6, geometry: vec![p(0, 0), p(30, 40)], length: 50 };
    let synthesis = synthesize(&vec![d], TOLERANCE).unwrap();
    assert_eq!(
        synthesis.railjson.buffer_stops,
        vec![
            BufferStop { id: 5, track: 4, position: 0 },
            BufferStop { id: 6, track: 4, position: 50 },
        ]
    );
    assert!(synthesis.railjson.track_section_links.is_empty());
    assert!(synthesis.railjson.switches.is_empty());
    assert!(synthesis.diagnostics.is_empty());
}

#[test]
fn two_continuing_edges_are_linked_lower_identifier_first() {
    let edges = vec![spoke(9, 1, p(0, 0), 100, 0), inward(3, 1, p(0, 0), -100, 5)];
    let synthesis = synthesize(&edges, TOLERANCE).unwrap();
    assert_eq!(
        synthesis.railjson.track_section_links,
        vec![TrackSectionLink { id: 1, src: end(3), dst: begin(9) }]
    );
    assert_eq!(
        synthesis.railjson.buffer_stops,
        vec![
            BufferStop { id: 1009, track: 9, position: 109 },
            BufferStop { id: 1003, track: 3, position: 0 },
        ]
    );
    assert!(synthesis.diagnostics.is_empty());
}

#[test]
fn two_edges_at_an_angle_are_not_linked() {
    let edges = vec![spoke(1, 1, p(0, 0), 100, 0), spoke(2, 1, p(0, 0), 0, 100)];
    let synthesis = synthesize(&edges, TOLERANCE).unwrap();
    assert!(synthesis.railjson.track_section_links.is_empty());
    assert_eq!(synthesis.railjson.buffer_stops.len(), 2);
    assert_eq!(
        synthesis.diagnostics,
        vec![Diagnostic::UnknownJunction { node: 1, edges: 2, branches: 0 }]
    );
}

#[test]
fn three_edges_with_a_common_stem_are_a_point() {
    // A continues B and C across N; B and C do not continue each other.
    let (a, b, c) = (1, 2, 3);
    let n = 77;
    let edges = vec![
        spoke(b, n, p(0, 0), 100, 0),
        spoke(c, n, p(0, 0), 100, 27),
        inward(a, n, p(0, 0), -100, 0),
    ];
    let synthesis = synthesize(&edges, TOLERANCE).unwrap();
    assert_eq!(
        synthesis.railjson.switches,
        vec![Switch {
            id: n,
            kind: SwitchKind::Point,
            ports: vec![
                port(PortName::A, end(a)),
                port(PortName::B1, begin(b)),
                port(PortName::B2, begin(c)),
            ],
        }]
    );
    assert_eq!(synthesis.railjson.buffer_stops.len(), 3);
    assert!(synthesis.railjson.track_section_links.is_empty());
    assert!(synthesis.diagnostics.is_empty());
}

#[test]
fn four_edges_crossing_are_a_crossing() {
    let synthesis = synthesize(&crossing_at(2, p(0, 0), 20), TOLERANCE).unwrap();
    assert_eq!(
        synthesis.railjson.switches,
        vec![Switch {
            id: 2,
            kind: SwitchKind::Crossing,
            ports: vec![
                port(PortName::A1, begin(20)),
                port(PortName::B1, begin(22)),
                port(PortName::A2, begin(21)),
                port(PortName::B2, begin(23)),
            ],
        }]
    );
    assert_eq!(synthesis.railjson.buffer_stops.len(), 4);
}

#[test]
fn four_edges_joined_side_to_side_are_a_double_slip() {
    let synthesis = synthesize(&double_slip_at(3, p(0, 0), 30), TOLERANCE).unwrap();
    assert_eq!(
        synthesis.railjson.switches,
        vec![Switch {
            id: 3,
            kind: SwitchKind::DoubleSlip,
            ports: vec![
                port(PortName::A1, begin(30)),
                port(PortName::B1, begin(32)),
                port(PortName::A2, begin(31)),
                port(PortName::B2, begin(33)),
            ],
        }]
    );
    assert_eq!(synthesis.railjson.buffer_stops.len(), 4);
    assert!(synthesis.diagnostics.is_empty());
}

#[test]
fn five_edges_are_reported_and_left_out() {
    let n = 9;
    let at = p(0, 0);
    let edges = vec![
        spoke(1, n, at, 100, 0),
        spoke(2, n, at, -100, 0),
        spoke(3, n, at, 0, 100),
        spoke(4, n, at, 0, -100),
        spoke(5, n, at, 100, 100),
    ];
    let synthesis = synthesize(&edges, TOLERANCE).unwrap();
    assert_eq!(
        synthesis.diagnostics,
        vec![Diagnostic::UnknownJunction { node: n, edges: 5, branches: 2 }]
    );
    let ids: Vec<u64> = synthesis.railjson.track_sections.iter().map(|t| t.id).collect();
    assert_eq!(ids, vec![1, 2, 3, 4, 5]);
    assert!(synthesis.railjson.switches.is_empty());
    assert!(synthesis.railjson.track_section_links.is_empty());
    assert_eq!(synthesis.railjson.buffer_stops.len(), 5);
    assert!(synthesis.railjson.buffer_stops.iter().all(|stop| stop.id != n));
}

#[test]
fn edge_without_tangent_is_reported_and_not_paired() {
    let mut flat = spoke(2, 1, p(0, 0), 100, 0);
    flat.geometry = vec![p(0, 0)];
    let edges = vec![inward(1, 1, p(0, 0), -100, 0), flat];
    let synthesis = synthesize(&edges, TOLERANCE).unwrap();
    assert_eq!(
        synthesis.diagnostics,
        vec![
            Diagnostic::DegenerateGeometry { node: 1, edge: 2 },
            Diagnostic::UnknownJunction { node: 1, edges: 2, branches: 0 },
            Diagnostic::DegenerateGeometry { node: 1002, edge: 2 },
        ]
    );
    assert!(synthesis.railjson.track_section_links.is_empty());
    assert_eq!(
        synthesis.railjson.buffer_stops,
        vec![
            BufferStop { id: 1001, track: 1, position: 0 },
            BufferStop { id: 1002, track: 2, position: 102 },
        ]
    );
    assert_eq!(synthesis.railjson.track_sections[1].geometry, vec![p(0, 0)]);
}

#[test]
fn tolerance_decides_what_continues() {
    let edges = vec![inward(1, 1, p(0, 0), -100, 0), spoke(2, 1, p(0, 0), 100, 27)];
    let loose = synthesize(&edges, Tolerance { num: 27, den: 100 }).unwrap();
    assert_eq!(loose.railjson.track_section_links.len(), 1);
    let strict = synthesize(&edges, Tolerance { num: 26, den: 100 }).unwrap();
    assert!(strict.railjson.track_section_links.is_empty());
}

#[test]
fn primitives_come_in_the_order_of_the_nodes() {
    let edges = vec![
        Edge { id: 1, source: 30, target: 20, geometry: vec![p(0, 0), p(10, 0)], length: 10 },
        Edge { id: 2, source: 20, target: 10, geometry: vec![p(10, 0), p(20, 0)], length: 10 },
    ];
    let synthesis = synthesize(&edges, TOLERANCE).unwrap();
    assert_eq!(
        synthesis.railjson.buffer_stops,
        vec![
            BufferStop { id: 30, track: 1, position: 0 },
            BufferStop { id: 10, track: 2, position: 10 },
        ]
    );
    assert_eq!(
        synthesis.railjson.track_section_links,
        vec![TrackSectionLink { id: 20, src: end(1), dst: begin(2) }]
    );
}
