//! From the raw network to its infrastructure: every edge becomes a track
//! section, and every node is resolved into the junction primitive that its
//! edges and branches name, or left out with a finding.
use vstd::prelude::*;
use crate::adjacency::{adjacencies_match, build_adjacency, incident, nodes_of, structural_error};
use crate::branches::{branches_at, degenerate_at, degenerate_edges, in_network, pair_branches};
use crate::classify::{classified, classify, Junction, JunctionView};
use crate::geometry::{Point, Tolerance};
use crate::model::{Diagnostic, Edge, NodeId, StructuralError};
use crate::railjson::{
    catalogue, default_switch_types, views, RailJson, RailJsonView, TrackSection,
    TrackSectionView,
};

verus! {

/// What synthesis hands back: the infrastructure, and the findings about the
/// nodes and edges that it could not make sense of.
#[derive(Clone, Debug, PartialEq, Eq)]
pub struct Synthesis {
    pub railjson: RailJson,
    pub diagnostics: Vec<Diagnostic>,
}

pub struct SynthesisView {
    pub railjson: RailJsonView,
    pub diagnostics: Seq<Diagnostic>,
}

impl View for Synthesis {
    type V = SynthesisView;

    open spec fn view(&self) -> SynthesisView {
        SynthesisView { railjson: self.railjson@, diagnostics: self.diagnostics@ }
    }
}

/// The track section of an edge: its identifier, length and geometry.
pub open spec fn track_section_of(edge: Edge) -> TrackSectionView {
    TrackSectionView { id: edge.id, length: edge.length, geometry: edge.geometry@ }
}

/// One track section for each edge, in the order of the edges.
pub open spec fn track_sections_of(edges: Seq<Edge>) -> Seq<TrackSectionView> {
    Seq::new(edges.len(), |i: int| track_section_of(edges[i]))
}

/// What a node of the network becomes.
pub open spec fn resolved(edges: Seq<Edge>, node: NodeId, tolerance: Tolerance) -> Result<
    JunctionView,
    Diagnostic,
> {
    let touching = incident(edges, node);
    classified(edges, node, touching, branches_at(edges, node, touching, tolerance))
}

/// The infrastructure with one more junction primitive, behind the others of
/// its sort.
pub open spec fn placed(railjson: RailJsonView, junction: JunctionView) -> RailJsonView {
    match junction {
        JunctionView::BufferStop(stop) => RailJsonView {
            buffer_stops: railjson.buffer_stops.push(stop),
            ..railjson
        },
        JunctionView::Link(link) => RailJsonView {
            track_section_links: railjson.track_section_links.push(link),
            ..railjson
        },
        JunctionView::Switch(switch) => RailJsonView {
            switches: railjson.switches.push(switch),
            ..railjson
        },
    }
}

/// The result after one more node: the findings about its edges without a
/// tangent, then its primitive, or the finding for which it is left out.
pub open spec fn with_node(
    before: SynthesisView,
    edges: Seq<Edge>,
    node: NodeId,
    tolerance: Tolerance,
) -> SynthesisView {
    let findings = before.diagnostics + degenerate_at(edges, node, incident(edges, node));
    match resolved(edges, node, tolerance) {
        Ok(junction) => SynthesisView {
            railjson: placed(before.railjson, junction),
            diagnostics: findings,
        },
        Err(finding) => SynthesisView {
            railjson: before.railjson,
            diagnostics: findings.push(finding),
        },
    }
}

/// The result before any node is resolved: the track sections and the
/// catalogue of switch types.
pub open spec fn unresolved(edges: Seq<Edge>) -> SynthesisView {
    SynthesisView {
        railjson: RailJsonView {
            track_sections: track_sections_of(edges),
            buffer_stops: Seq::empty(),
            track_section_links: Seq::empty(),
            switches: Seq::empty(),
            switch_types: catalogue(),
        },
        diagnostics: Seq::empty(),
    }
}

/// The result after the first `k` nodes of the network are resolved.
pub open spec fn synthesized_upto(edges: Seq<Edge>, tolerance: Tolerance, k: int) -> SynthesisView
    decreases k,
{
    if k <= 0 {
        unresolved(edges)
    } else {
        with_node(
            synthesized_upto(edges, tolerance, k - 1),
            edges,
            nodes_of(edges)[k - 1],
            tolerance,
        )
    }
}

/// The infrastructure of a network, and the findings about it.
pub open spec fn synthesized(edges: Seq<Edge>, tolerance: Tolerance) -> SynthesisView {
    synthesized_upto(edges, tolerance, nodes_of(edges).len() as int)
}

/// Every position in the list of the edges that touch a node is one of an
/// edge of the network.
pub proof fn lemma_incident_in_network(edges: Seq<Edge>, node: NodeId)
    ensures
        in_network(edges, incident(edges, node)),
        incident(edges, node).len() <= edges.len(),
    decreases edges.len(),
{
    if edges.len() > 0 {
        lemma_incident_in_network(edges.drop_last(), node);
    }
}

fn copy_points(points: &Vec<Point>) -> (copy: Vec<Point>)
    ensures
        copy@ == points@,
{
    let mut copy: Vec<Point> = Vec::new();
    let mut i: usize = 0;
    while i < points.len()
        invariant
            i <= points@.len(),
            copy@ == points@.take(i as int),
        decreases points@.len() - i,
    {
        copy.push(points[i]);
        assert(points@.take(i + 1) == points@.take(i as int).push(points@[i as int]));
        i += 1;
    }
    assert(points@.take(i as int) == points@);
    copy
}

/// Turns every edge into a track section with the identifier, the length and
/// the geometry of the edge.
pub fn track_sections(edges: &Vec<Edge>) -> (sections: Vec<TrackSection>)
    ensures
        views(sections@) == track_sections_of(edges@),
{
    let mut sections: Vec<TrackSection> = Vec::new();
    let mut i: usize = 0;
    while i < edges.len()
        invariant
            i <= edges@.len(),
            sections@.len() == i,
            forall|k: int| 0 <= k < i ==> (#[trigger] sections@[k])@ == track_section_of(edges@[k]),
        decreases edges@.len() - i,
    {
        let e = &edges[i];
        sections.push(TrackSection { id: e.id, length: e.length, geometry: copy_points(&e.geometry) });
        i += 1;
    }
    assert(views(sections@) =~= track_sections_of(edges@));
    sections
}

impl RailJson {
    /// Adds a junction primitive behind the others of its sort.
    pub fn place(&mut self, junction: Junction)
        ensures
            final(self)@ == placed(old(self)@, junction@),
    {
        match junction {
            Junction::BufferStop(stop) => {
                self.buffer_stops.push(stop);
            },
            Junction::Link(link) => {
                self.track_section_links.push(link);
            },
            Junction::Switch(switch) => {
                self.switches.push(switch);
                assert(views(self.switches@) =~= views(old(self).switches@).push(switch@));
            },
        }
    }
}

/// Synthesizes the infrastructure of a network.
///
/// An empty network, or one with an edge that starts and ends at one node, is
/// refused. Otherwise every edge becomes a track section, and the nodes are
/// resolved one by one, in the order in which the edges first name them:
/// each becomes a buffer stop, a link or a switch, or is left out with a
/// finding; synthesis goes on either way.
pub fn synthesize(edges: &Vec<Edge>, tolerance: Tolerance) -> (result: Result<
    Synthesis,
    StructuralError,
>)
    ensures
        match result {
            Ok(synthesis) => structural_error(edges@) is None && synthesis@ == synthesized(
                edges@,
                tolerance,
            ),
            Err(error) => structural_error(edges@) == Some(error),
        },
{
    let adjacencies = match build_adjacency(edges) {
        Ok(adjacencies) => adjacencies,
        Err(error) => {
            return Err(error);
        },
    };
    let mut railjson = RailJson {
        track_sections: track_sections(edges),
        buffer_stops: Vec::new(),
        track_section_links: Vec::new(),
        switches: Vec::new(),
        switch_types: default_switch_types(),
    };
    let mut diagnostics: Vec<Diagnostic> = Vec::new();
    assert(railjson@.switches =~= Seq::<crate::railjson::SwitchView>::empty());
    let mut k: usize = 0;
    while k < adjacencies.len()
        invariant
            k <= adjacencies@.len(),
            adjacencies_match(edges@, adjacencies@),
            (SynthesisView { railjson: railjson@, diagnostics: diagnostics@ }) == synthesized_upto(
                edges@,
                tolerance,
                k as int,
            ),
        decreases adjacencies@.len() - k,
    {
        let adjacency = &adjacencies[k];
        proof {
            lemma_incident_in_network(edges@, adjacency.node);
        }
        let mut findings = degenerate_edges(edges, adjacency);
        let branches = pair_branches(edges, adjacency, tolerance);
        diagnostics.append(&mut findings);
        match classify(edges, adjacency, &branches) {
            Ok(junction) => {
                railjson.place(junction);
            },
            Err(finding) => {
                diagnostics.push(finding);
            },
        }
        k += 1;
    }
    Ok(Synthesis { railjson, diagnostics })
}

} // verus!
