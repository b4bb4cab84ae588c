use editoast::adjacency::Adjacency;
use editoast::classify::{classify, cross_switch, double_slip_switch, point_switch, Junction};
use editoast::geometry::Point;
use editoast::model::{Branch, Diagnostic, Edge, Endpoint, TrackEndpoint};
use editoast::railjson::{BufferStop, Port, PortName, Switch, SwitchKind, TrackSectionLink};

fn begin(track: u64) -> TrackEndpoint {
    TrackEndpoint { track, endpoint: Endpoint::Begin }
}

fn end(track: u64) -> TrackEndpoint {
    TrackEndpoint { track, endpoint: Endpoint::End }
}

fn branch(entry: TrackEndpoint, exit: TrackEndpoint) -> Branch {
    Branch { entry, exit }
}

fn port(name: PortName, endpoint: TrackEndpoint) -> Port {
    Port { name, endpoint }
}

fn edge(id: u64, source: i64, target: i64, length: u64) -> Edge {
    Edge {
        id,
        source,
        target,
        geometry: vec![Point { x: 0, y: 0 }, Point { x: 1, y: 0 }],
        length,
    }
}

/// `count` edges that all start at node 0.
fn star(count: u64) -> (Vec<Edge>, Adjacency) {
    let mut edges = Vec::new();
    let mut touching = Vec::new();
    for i in 0..count {
        edges.push(edge(i + 1, 0, 100 + i as i64, 10));
        touching.push(i as usize);
    }
    (edges, Adjacency { node: 0, edges: touching })
}

#[test]
fn node_without_edge_is_reported() {
    let edges = vec![edge(1, 1, 2, 10)];
    let adjacency = Adjacency { node: 5, edges: vec![] };
    assert_eq!(
        classify(&edges, &adjacency, &vec![]),
        Err(Diagnostic::NodeWithoutEdge { node: 5 })
    );
    assert_eq!(
        classify(&edges, &adjacency, &vec![branch(begin(1), begin(2))]),
        Err(Diagnostic::NodeWithoutEdge { node: 5 })
    );
}

#[test]
fn buffer_stop_at_the_source_has_offset_zero() {
    let edges = vec![edge(9, 1, 2, 1234)];
    let adjacency = Adjacency { node: 1, edges: vec![0] };
    assert_eq!(
        classify(&edges, &adjacency, &vec![]),
        Ok(Junction::BufferStop(BufferStop { id: 1, track: 9, position: 0 }))
    );
}

#[test]
fn buffer_stop_at_the_target_has_the_length_as_offset() {
    let edges = vec![edge(9, 1, 2, 1234)];
    let adjacency = Adjacency { node: 2, edges: vec![0] };
    assert_eq!(
        classify(&edges, &adjacency, &vec![]),
        Ok(Junction::BufferStop(BufferStop { id: 2, track: 9, position: 1234 }))
    );
}

#[test]
fn two_edges_and_one_branch_are_a_link() {
    let (edges, adjacency) = star(2);
    assert_eq!(
        classify(&edges, &adjacency, &vec![branch(begin(1), begin(2))]),
        Ok(Junction::Link(TrackSectionLink { id: 0, src: begin(1), dst: begin(2) }))
    );
}

#[test]
fn three_edges_and_two_branches_are_a_point() {
    let (edges, adjacency) = star(3);
    let branches = vec![branch(begin(1), begin(3)), branch(begin(2), begin(3))];
    assert_eq!(
        classify(&edges, &adjacency, &branches),
        Ok(Junction::Switch(Switch {
            id: 0,
            kind: SwitchKind::Point,
            ports: vec![
                port(PortName::A, begin(3)),
                port(PortName::B1, begin(1)),
                port(PortName::B2, begin(2)),
            ],
        }))
    );
}

#[test]
fn four_edges_and_two_branches_are_a_crossing() {
    let (edges, adjacency) = star(4);
    let branches = vec![branch(begin(1), begin(3)), branch(begin(2), begin(4))];
    assert_eq!(
        classify(&edges, &adjacency, &branches),
        Ok(Junction::Switch(Switch {
            id: 0,
            kind: SwitchKind::Crossing,
            ports: vec![
                port(PortName::A1, begin(1)),
                port(PortName::B1, begin(3)),
                port(PortName::A2, begin(2)),
                port(PortName::B2, begin(4)),
            ],
        }))
    );
}

#[test]
fn four_edges_and_four_branches_are_a_double_slip() {
    let (edges, adjacency) = star(4);
    let branches = vec![
        branch(begin(1), begin(3)),
        branch(begin(1), begin(4)),
        branch(begin(2), begin(3)),
        branch(begin(2), begin(4)),
    ];
    assert_eq!(
        classify(&edges, &adjacency, &branches),
        Ok(Junction::Switch(Switch {
            id: 0,
            kind: SwitchKind::DoubleSlip,
            ports: vec![
                port(PortName::A1, begin(1)),
                port(PortName::B1, begin(3)),
                port(PortName::A2, begin(2)),
                port(PortName::B2, begin(4)),
            ],
        }))
    );
}

#[test]
fn counts_outside_the_table_are_reported() {
    let one = branch(begin(1), begin(2));
    let cases: Vec<(u64, usize)> =
        vec![(1, 1), (2, 0), (2, 2), (3, 0), (3, 1), (3, 3), (4, 0), (4, 1), (4, 3), (4, 5), (5, 2), (6, 4)];
    for (n, m) in cases {
        let (edges, adjacency) = star(n);
        let branches = vec![one; m];
        assert_eq!(
            classify(&edges, &adjacency, &branches),
            Err(Diagnostic::UnknownJunction { node: 0, edges: n as usize, branches: m })
        );
    }
}

#[test]
fn point_needs_one_common_connection_point() {
    let apart = vec![branch(begin(1), begin(2)), branch(begin(3), begin(4))];
    assert_eq!(point_switch(0, &apart), None);
    let twice = vec![branch(begin(1), begin(2)), branch(begin(1), begin(2))];
    assert_eq!(point_switch(0, &twice), None);
    let turned = vec![branch(begin(1), begin(2)), branch(begin(2), begin(1))];
    assert_eq!(point_switch(0, &turned), None);
    let looped = vec![branch(begin(1), begin(1)), branch(begin(1), begin(2))];
    assert_eq!(point_switch(0, &looped), None);
}

#[test]
fn point_finds_the_stem_wherever_it_stands() {
    let stem = end(7);
    let expected = Some(Switch {
        id: 3,
        kind: SwitchKind::Point,
        ports: vec![
            port(PortName::A, stem),
            port(PortName::B1, begin(1)),
            port(PortName::B2, begin(2)),
        ],
    });
    assert_eq!(point_switch(3, &vec![branch(stem, begin(1)), branch(stem, begin(2))]), expected);
    assert_eq!(point_switch(3, &vec![branch(stem, begin(1)), branch(begin(2), stem)]), expected);
    assert_eq!(point_switch(3, &vec![branch(begin(1), stem), branch(stem, begin(2))]), expected);
    assert_eq!(point_switch(3, &vec![branch(begin(1), stem), branch(begin(2), stem)]), expected);
}

#[test]
fn same_track_at_both_ends_counts_as_two_connection_points() {
    let switch = point_switch(0, &vec![branch(begin(1), end(1)), branch(begin(1), begin(2))]);
    assert_eq!(
        switch.map(|s| s.ports),
        Some(vec![
            port(PortName::A, begin(1)),
            port(PortName::B1, end(1)),
            port(PortName::B2, begin(2)),
        ])
    );
}

#[test]
fn crossing_needs_four_connection_points() {
    let shared = vec![branch(begin(1), begin(2)), branch(begin(1), begin(3))];
    assert_eq!(cross_switch(0, &shared), None);
    let looped = vec![branch(begin(1), begin(1)), branch(begin(2), begin(3))];
    assert_eq!(cross_switch(0, &looped), None);
    let (edges, adjacency) = star(4);
    assert_eq!(
        classify(&edges, &adjacency, &shared),
        Err(Diagnostic::InconsistentWiring { node: 0, edges: 4, branches: 2 })
    );
}

#[test]
fn double_slip_ports_are_turned_to_fit_the_branches() {
    // The branch opposite to the first one is given from the B side to the A side.
    let branches = vec![
        branch(begin(1), begin(3)),
        branch(begin(4), begin(2)),
        branch(begin(1), begin(4)),
        branch(begin(3), begin(2)),
    ];
    assert_eq!(
        double_slip_switch(8, &branches).map(|s| s.ports),
        Some(vec![
            port(PortName::A1, begin(1)),
            port(PortName::B1, begin(3)),
            port(PortName::A2, begin(2)),
            port(PortName::B2, begin(4)),
        ])
    );
}

#[test]
fn double_slip_needs_each_side_joined_to_the_other() {
    // A triangle and a pendant edge: four branches, but no two sides.
    let triangle = vec![
        branch(begin(1), begin(2)),
        branch(begin(2), begin(3)),
        branch(begin(1), begin(3)),
        branch(begin(3), begin(4)),
    ];
    assert_eq!(double_slip_switch(0, &triangle), None);
    // One branch twice.
    let twice = vec![
        branch(begin(1), begin(3)),
        branch(begin(1), begin(3)),
        branch(begin(2), begin(4)),
        branch(begin(2), begin(3)),
    ];
    assert_eq!(double_slip_switch(0, &twice), None);
    // A fifth connection point.
    let fifth = vec![
        branch(begin(1), begin(3)),
        branch(begin(1), begin(4)),
        branch(begin(2), begin(3)),
        branch(begin(2), begin(5)),
    ];
    assert_eq!(double_slip_switch(0, &fifth), None);
    let (edges, adjacency) = star(4);
    assert_eq!(
        classify(&edges, &adjacency, &triangle),
        Err(Diagnostic::InconsistentWiring { node: 0, edges: 4, branches: 4 })
    );
}

#[test]
fn point_with_unfit_branches_is_reported() {
    let (edges, adjacency) = star(3);
    let twice = vec![branch(begin(1), begin(2)), branch(begin(1), begin(2))];
    assert_eq!(
        classify(&edges, &adjacency, &twice),
        Err(Diagnostic::InconsistentWiring { node: 0, edges: 3, branches: 2 })
    );
}

#[test]
fn kinds_list_their_ports() {
    assert_eq!(SwitchKind::Point.ports(), vec![PortName::A, PortName::B1, PortName::B2]);
    assert_eq!(
        SwitchKind::Crossing.ports(),
        vec![PortName::A1, PortName::B1, PortName::A2, PortName::B2]
    );
    assert_eq!(
        SwitchKind::DoubleSlip.ports(),
        vec![PortName::A1, PortName::B1, PortName::A2, PortName::B2]
    );
}
