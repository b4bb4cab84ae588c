use editoast::adjacency::{build_adjacency, Adjacency};
use editoast::geometry::Point;
use editoast::model::{Edge, StructuralError};

fn edge(id: u64, source: i64, target: i64) -> Edge {
    Edge {
        id,
        source,
        target,
        geometry: vec![Point { x: 0, y: 0 }, Point { x: 1, y: 0 }],
        length: 1,
    }
}

#[test]
fn empty_network_is_refused() {
    assert_eq!(build_adjacency(&vec![]), Err(StructuralError::EmptyInput));
}

#[test]
fn loop_is_refused_with_its_position() {
    let edges = vec![edge(1, 10, 11), edge(2, 12, 12), edge(3, 11, 12)];
    assert_eq!(build_adjacency(&edges), Err(StructuralError::SelfLoop { position: 1 }));
}

#[test]
fn first_of_several_loops_is_reported() {
    let edges = vec![edge(1, 5, 5), edge(2, 6, 6)];
    assert_eq!(build_adjacency(&edges), Err(StructuralError::SelfLoop { position: 0 }));
}

#[test]
fn nodes_come_in_the_order_of_first_mention() {
    let edges = vec![edge(7, 30, 10), edge(8, 10, 20), edge(9, 20, 30), edge(4, 40, 10)];
    let adjacencies = build_adjacency(&edges).unwrap();
    assert_eq!(
        adjacencies,
        vec![
            Adjacency { node: 30, edges: vec![0, 2] },
            Adjacency { node: 10, edges: vec![0, 1, 3] },
            Adjacency { node: 20, edges: vec![1, 2] },
            Adjacency { node: 40, edges: vec![3] },
        ]
    );
}

#[test]
fn parallel_edges_are_both_incident() {
    let edges = vec![edge(1, 1, 2), edge(2, 2, 1)];
    let adjacencies = build_adjacency(&edges).unwrap();
    assert_eq!(
        adjacencies,
        vec![
            Adjacency { node: 1, edges: vec![0, 1] },
            Adjacency { node: 2, edges: vec![0, 1] },
        ]
    );
}

#[test]
fn negative_node_identifiers_are_nodes_like_others() {
    let edges = vec![edge(1, -1, i64::MIN), edge(2, i64::MAX, -1)];
    let adjacencies = build_adjacency(&edges).unwrap();
    assert_eq!(adjacencies.len(), 3);
    assert_eq!(adjacencies[0], Adjacency { node: -1, edges: vec![0, 1] });
    assert_eq!(adjacencies[1], Adjacency { node: i64::MIN, edges: vec![0] });
    assert_eq!(adjacencies[2], Adjacency { node: i64::MAX, edges: vec![1] });
}
