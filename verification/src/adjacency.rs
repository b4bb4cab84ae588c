//! For every node of the network, the edges that touch it.
use vstd::prelude::*;
use std::collections::HashMap;
use crate::model::{Edge, NodeId, StructuralError};

verus! {

/// A node together with the edges that touch it, each given by its position
/// in the list of edges.
#[derive(Clone, Debug, PartialEq, Eq)]
pub struct Adjacency {
    pub node: NodeId,
    pub edges: Vec<usize>,
}

/// The nodes of the network in the order in which the edges first name them,
/// the source of an edge before its target.
pub open spec fn nodes_of(edges: Seq<Edge>) -> Seq<NodeId>
    decreases edges.len(),
{
    if edges.len() == 0 {
        Seq::empty()
    } else {
        let before = nodes_of(edges.drop_last());
        let e = edges.last();
        let with_source = if before.contains(e.source) {
            before
        } else {
            before.push(e.source)
        };
        if with_source.contains(e.target) {
            with_source
        } else {
            with_source.push(e.target)
        }
    }
}

/// The positions of the edges that touch `node`, in increasing order.
pub open spec fn incident(edges: Seq<Edge>, node: NodeId) -> Seq<usize>
    decreases edges.len(),
{
    if edges.len() == 0 {
        Seq::empty()
    } else {
        let before = incident(edges.drop_last(), node);
        if edges.last().touches(node) {
            before.push((edges.len() - 1) as usize)
        } else {
            before
        }
    }
}

/// The position of the first edge that is a loop, if there is one.
pub open spec fn first_loop(edges: Seq<Edge>) -> Option<usize>
    decreases edges.len(),
{
    if edges.len() == 0 {
        None
    } else {
        match first_loop(edges.drop_last()) {
            Some(p) => Some(p),
            None => if edges.last().is_loop() {
                Some((edges.len() - 1) as usize)
            } else {
                None
            },
        }
    }
}

/// What the network is refused for, if it is.
pub open spec fn structural_error(edges: Seq<Edge>) -> Option<StructuralError> {
    if edges.len() == 0 {
        Some(StructuralError::EmptyInput)
    } else {
        match first_loop(edges) {
            Some(position) => Some(StructuralError::SelfLoop { position }),
            None => None,
        }
    }
}

/// The adjacency of each node of the network, in the order of `nodes_of`.
pub open spec fn adjacencies_match(edges: Seq<Edge>, adjacencies: Seq<Adjacency>) -> bool {
    &&& adjacencies.len() == nodes_of(edges).len()
    &&& forall|k: int|
        0 <= k < adjacencies.len() ==> {
            &&& (#[trigger] adjacencies[k]).node == nodes_of(edges)[k]
            &&& adjacencies[k].edges@ == incident(edges, nodes_of(edges)[k])
        }
}

/// Whether `index` gives, for each node that has an adjacency, its position.
pub open spec fn indexed(adjacencies: Seq<Adjacency>, index: Map<NodeId, usize>) -> bool {
    &&& forall|n: NodeId|
        index.contains_key(n) ==> (#[trigger] index[n]) < adjacencies.len()
            && adjacencies[index[n] as int].node == n
    &&& forall|k: int|
        0 <= k < adjacencies.len() ==> index.contains_key((#[trigger] adjacencies[k]).node)
            && index[adjacencies[k].node] == k
}

/// A node that is not among `nodes_of` is touched by no edge.
pub proof fn lemma_unseen_node_is_untouched(edges: Seq<Edge>, node: NodeId)
    ensures
        !nodes_of(edges).contains(node) ==> incident(edges, node) == Seq::<usize>::empty(),
    decreases edges.len(),
{
    if edges.len() > 0 && !nodes_of(edges).contains(node) {
        let before = nodes_of(edges.drop_last());
        let e = edges.last();
        let with_source = if before.contains(e.source) {
            before
        } else {
            before.push(e.source)
        };
        if before.contains(node) {
            let k = choose|k: int| 0 <= k < before.len() && before[k] == node;
            assert(with_source[k] == node);
            assert(nodes_of(edges)[k] == node);
        }
        if e.source == node {
            if !before.contains(e.source) {
                assert(with_source[before.len() as int] == node);
            }
            let k = choose|k: int| 0 <= k < with_source.len() && with_source[k] == node;
            assert(nodes_of(edges)[k] == node);
        }
        if e.target == node {
            if !with_source.contains(e.target) {
                assert(nodes_of(edges)[with_source.len() as int] == node);
            }
        }
        lemma_unseen_node_is_untouched(edges.drop_last(), node);
    }
}

/// The list of the edges that touch a node names each of them once, in the
/// order of the network, and names no other edge.
pub proof fn lemma_incident_is_exact(edges: Seq<Edge>, node: NodeId)
    requires
        edges.len() <= usize::MAX,
    ensures
        forall|k: int|
            0 <= k < incident(edges, node).len() ==> {
                &&& (#[trigger] incident(edges, node)[k]) < edges.len()
                &&& edges[incident(edges, node)[k] as int].touches(node)
            },
        forall|j: int, k: int|
            0 <= j < k < incident(edges, node).len() ==> incident(edges, node)[j] < incident(
                edges,
                node,
            )[k],
        forall|i: int|
            0 <= i < edges.len() && (#[trigger] edges[i]).touches(node) ==> incident(
                edges,
                node,
            ).contains(i as usize),
    decreases edges.len(),
{
    if edges.len() > 0 {
        let shorter = edges.drop_last();
        let before = incident(shorter, node);
        let now = incident(edges, node);
        lemma_incident_is_exact(shorter, node);
        assert forall|k: int| 0 <= k < now.len() implies {
            &&& (#[trigger] now[k]) < edges.len()
            &&& edges[now[k] as int].touches(node)
        } by {
            if k < before.len() {
                assert(now[k] == before[k]);
                assert(edges[before[k] as int] == shorter[before[k] as int]);
            }
        }
        assert forall|j: int, k: int| 0 <= j < k < now.len() implies now[j] < now[k] by {
            assert(now[j] == before[j]);
            if k < before.len() {
                assert(now[k] == before[k]);
            }
        }
        assert forall|i: int| 0 <= i < edges.len() && (#[trigger] edges[i]).touches(
            node,
        ) implies now.contains(i as usize) by {
            if i < shorter.len() {
                assert(shorter[i] == edges[i]);
                let k = choose|k: int| 0 <= k < before.len() && before[k] == i as usize;
                assert(now[k] == i as usize);
            } else {
                assert(now[now.len() - 1] == i as usize);
            }
        }
    }
}

/// The nodes of a network are the ends of its edges.
pub proof fn lemma_nodes_are_the_ends(edges: Seq<Edge>, node: NodeId)
    ensures
        nodes_of(edges).contains(node) <==> exists|i: int|
            0 <= i < edges.len() && (#[trigger] edges[i]).touches(node),
    decreases edges.len(),
{
    if edges.len() > 0 {
        let shorter = edges.drop_last();
        let before = nodes_of(shorter);
        let e = edges.last();
        let with_source = if before.contains(e.source) {
            before
        } else {
            before.push(e.source)
        };
        let now = nodes_of(edges);
        lemma_nodes_are_the_ends(shorter, node);
        if exists|i: int| 0 <= i < edges.len() && (#[trigger] edges[i]).touches(node) {
            let i = choose|i: int| 0 <= i < edges.len() && (#[trigger] edges[i]).touches(node);
            if i < shorter.len() {
                assert(shorter[i].touches(node));
                let k = choose|k: int| 0 <= k < before.len() && before[k] == node;
                assert(with_source[k] == node);
                assert(now[k] == node);
            } else if e.source == node {
                if before.contains(node) {
                    let k = choose|k: int| 0 <= k < before.len() && before[k] == node;
                    assert(now[k] == node);
                } else {
                    assert(with_source[before.len() as int] == node);
                    assert(now[before.len() as int] == node);
                }
            } else {
                if with_source.contains(node) {
                    let k = choose|k: int| 0 <= k < with_source.len() && with_source[k] == node;
                    assert(now[k] == node);
                } else {
                    assert(now[with_source.len() as int] == node);
                }
            }
        }
        if now.contains(node) {
            let k = choose|k: int| 0 <= k < now.len() && now[k] == node;
            if k < before.len() {
                assert(before[k] == node);
                let i = choose|i: int|
                    0 <= i < shorter.len() && (#[trigger] shorter[i]).touches(node);
                assert(edges[i].touches(node));
            } else {
                assert(edges[edges.len() - 1].touches(node));
            }
        }
    }
}

/// Records that the edge at `position` touches `node`: the adjacency of the
/// node gets the position at its end, and a node not seen before gets a new
/// adjacency behind the others.
fn touch(
    adjacencies: &mut Vec<Adjacency>,
    index: &mut HashMap<NodeId, usize>,
    node: NodeId,
    position: usize,
)
    requires
        indexed(old(adjacencies)@, old(index)@),
    ensures
        indexed(final(adjacencies)@, final(index)@),
        final(adjacencies)@.len() == old(adjacencies)@.len() + (if old(index)@.contains_key(node) {
            0int
        } else {
            1int
        }),
        forall|k: int|
            0 <= k < old(adjacencies)@.len() ==> {
                &&& (#[trigger] final(adjacencies)@[k]).node == old(adjacencies)@[k].node
                &&& final(adjacencies)@[k].edges@ == if old(adjacencies)@[k].node == node {
                    old(adjacencies)@[k].edges@.push(position)
                } else {
                    old(adjacencies)@[k].edges@
                }
            },
        !old(index)@.contains_key(node) ==> {
            &&& final(adjacencies)@[old(adjacencies)@.len() as int].node == node
            &&& final(adjacencies)@[old(adjacencies)@.len() as int].edges@ == seq![position]
        },
{
    broadcast use vstd::std_specs::hash::group_hash_axioms;
    let found: Option<usize> = match index.get(&node) {
        Some(k) => Some(*k),
        None => None,
    };
    match found {
        Some(k) => {
            adjacencies[k].edges.push(position);
            assert(forall|j: int|
                0 <= j < adjacencies@.len() && j != k ==> adjacencies@[j] == old(adjacencies)@[j]);
        },
        None => {
            let k: usize = adjacencies.len();
            let mut edges: Vec<usize> = Vec::new();
            edges.push(position);
            adjacencies.push(Adjacency { node, edges });
            index.insert(node, k);
        },
    }
}

/// Collects, for every node of the network, the edges that touch it.
///
/// The network is refused when it is empty or holds a loop; otherwise each
/// node gets one adjacency, the nodes in the order in which the edges first
/// name them, and the edges of a node in the order of the input.
pub fn build_adjacency(edges: &Vec<Edge>) -> (result: Result<Vec<Adjacency>, StructuralError>)
    ensures
        match result {
            Ok(adjacencies) => structural_error(edges@) is None && adjacencies_match(
                edges@,
                adjacencies@,
            ),
            Err(error) => structural_error(edges@) == Some(error),
        },
{
    if edges.len() == 0 {
        return Err(StructuralError::EmptyInput);
    }
    let mut adjacencies: Vec<Adjacency> = Vec::new();
    let mut index: HashMap<NodeId, usize> = HashMap::new();
    let mut i: usize = 0;
    while i < edges.len()
        invariant
            i <= edges@.len(),
            first_loop(edges@.take(i as int)) is None,
            adjacencies_match(edges@.take(i as int), adjacencies@),
            indexed(adjacencies@, index@),
        decreases edges@.len() - i,
    {
        let ghost prefix = edges@.take(i as int);
        let ghost next = edges@.take(i + 1);
        let ghost before = nodes_of(prefix);
        let ghost e = edges@[i as int];
        assert(next.drop_last() == prefix);
        assert(next.last() == e);
        if edges[i].source == edges[i].target {
            proof {
                lemma_first_loop_extends(edges@, i + 1);
            }
            return Err(StructuralError::SelfLoop { position: i });
        }
        let ghost with_source = if before.contains(e.source) {
            before
        } else {
            before.push(e.source)
        };
        proof {
            if index@.contains_key(e.source) {
                assert(before[index@[e.source] as int] == e.source);
            }
            if before.contains(e.source) {
                let k = choose|k: int| 0 <= k < before.len() && before[k] == e.source;
                assert(adjacencies@[k].node == e.source);
            }
            lemma_unseen_node_is_untouched(prefix, e.source);
            lemma_unseen_node_is_untouched(prefix, e.target);
        }
        touch(&mut adjacencies, &mut index, edges[i].source, i);
        let ghost midway = adjacencies@;
        proof {
            assert(midway.len() == with_source.len());
            assert forall|k: int| 0 <= k < midway.len() implies (#[trigger] midway[k]).node
                == with_source[k] by {}
            if index@.contains_key(e.target) {
                assert(with_source[index@[e.target] as int] == e.target);
            }
            if with_source.contains(e.target) {
                let k = choose|k: int| 0 <= k < with_source.len() && with_source[k] == e.target;
                assert(midway[k].node == e.target);
            }
        }
        touch(&mut adjacencies, &mut index, edges[i].target, i);
        proof {
            let after = nodes_of(next);
            assert(adjacencies@.len() == after.len());
            assert forall|k: int| 0 <= k < adjacencies@.len() implies {
                &&& (#[trigger] adjacencies@[k]).node == after[k]
                &&& adjacencies@[k].edges@ == incident(next, after[k])
            } by {
                if k < midway.len() {
                    assert(adjacencies@[k].node == midway[k].node);
                    if k < before.len() {
                        assert(midway[k].node == before[k]);
                    } else {
                        assert(midway[k].edges@ == seq![i]);
                        assert(incident(prefix, e.source).push(i) == seq![i]);
                    }
                } else {
                    if before.contains(e.target) {
                        let j = choose|j: int| 0 <= j < before.len() && before[j] == e.target;
                        assert(with_source[j] == e.target);
                    }
                    assert(adjacencies@[k].edges@ == seq![i]);
                    assert(incident(prefix, e.target).push(i) == seq![i]);
                }
            }
        }
        i += 1;
    }
    assert(edges@.take(i as int) == edges@);
    Ok(adjacencies)
}

/// A loop among the first `n` edges is found again among all of them.
proof fn lemma_first_loop_extends(edges: Seq<Edge>, n: int)
    requires
        0 < n <= edges.len(),
        first_loop(edges.take(n - 1)) is None,
        edges[n - 1].is_loop(),
    ensures
        first_loop(edges) == Some((n - 1) as usize),
    decreases edges.len() - n,
{
    assert(edges.take(n).drop_last() == edges.take(n - 1));
    if n == edges.len() {
        assert(edges.take(n) == edges);
    } else {
        lemma_first_loop_stays(edges, n, (n - 1) as usize);
    }
}

/// Once found among the first `n` edges, the first loop stays the first.
proof fn lemma_first_loop_stays(edges: Seq<Edge>, n: int, position: usize)
    requires
        0 <= n <= edges.len(),
        first_loop(edges.take(n)) == Some(position),
    ensures
        first_loop(edges) == Some(position),
    decreases edges.len() - n,
{
    if n == edges.len() {
        assert(edges.take(n) == edges);
    } else {
        assert(edges.take(n + 1).drop_last() == edges.take(n));
        lemma_first_loop_stays(edges, n + 1, position);
    }
}

} // verus!
