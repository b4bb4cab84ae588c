//! The infrastructure that synthesis produces: track sections, the junction
//! primitives that connect them, and the catalogue of switch types.
use vstd::prelude::*;
use vstd::string::StringExecFns;
use crate::geometry::Point;
use crate::model::{EdgeId, NodeId, TrackEndpoint};

verus! {

/// One edge of the network as a piece of infrastructure. Slopes and curves
/// are not known to synthesis: a track section has none.
#[derive(Clone, Debug, PartialEq, Eq)]
pub struct TrackSection {
    pub id: EdgeId,
    pub length: u64,
    pub geometry: Vec<Point>,
}

pub struct TrackSectionView {
    pub id: EdgeId,
    pub length: u64,
    pub geometry: Seq<Point>,
}

impl View for TrackSection {
    type V = TrackSectionView;

    open spec fn view(&self) -> TrackSectionView {
        TrackSectionView { id: self.id, length: self.length, geometry: self.geometry@ }
    }
}

/// The end of a track at a node that a single edge touches.
#[derive(Clone, Copy, Debug, PartialEq, Eq, Structural)]
pub struct BufferStop {
    pub id: NodeId,
    pub track: EdgeId,
    /// Distance from the beginning of the track.
    pub position: u64,
}

/// Two track sections joined end to end at a node.
#[derive(Clone, Copy, Debug, PartialEq, Eq, Structural)]
pub struct TrackSectionLink {
    pub id: NodeId,
    pub src: TrackEndpoint,
    pub dst: TrackEndpoint,
}

/// The topologies of switch that synthesis knows.
#[derive(Clone, Copy, Debug, PartialEq, Eq, Structural)]
pub enum SwitchKind {
    /// One stem that leads to either of two diverging tracks.
    Point,
    /// Two tracks that cross without connecting.
    Crossing,
    /// Two tracks that cross, each side connected to both tracks of the other.
    DoubleSlip,
}

/// The names that switch types give their ports.
#[derive(Clone, Copy, Debug, PartialEq, Eq, Structural)]
pub enum PortName {
    A,
    A1,
    A2,
    B1,
    B2,
}

/// A port of a switch, bound to the connection point that it stands for.
#[derive(Clone, Copy, Debug, PartialEq, Eq, Structural)]
pub struct Port {
    pub name: PortName,
    pub endpoint: TrackEndpoint,
}

/// A switch at a node. Its ports are those of the switch type of its kind, in
/// the type's order.
#[derive(Clone, Debug, PartialEq, Eq)]
pub struct Switch {
    pub id: NodeId,
    pub kind: SwitchKind,
    pub ports: Vec<Port>,
}

pub struct SwitchView {
    pub id: NodeId,
    pub kind: SwitchKind,
    pub ports: Seq<Port>,
}

impl View for Switch {
    type V = SwitchView;

    open spec fn view(&self) -> SwitchView {
        SwitchView { id: self.id, kind: self.kind, ports: self.ports@ }
    }
}

/// A legal connection between two ports of a switch.
#[derive(Clone, Copy, Debug, PartialEq, Eq, Structural)]
pub struct Route {
    pub src: PortName,
    pub dst: PortName,
}

/// Routes that a switch offers together, in one of its positions.
#[derive(Clone, Debug, PartialEq, Eq)]
pub struct RouteGroup {
    pub routes: Vec<Route>,
}

/// The template that all switches of one kind share: the ports, and the
/// routes between them, grouped by position of the switch.
#[derive(Clone, Debug, PartialEq, Eq)]
pub struct SwitchType {
    pub kind: SwitchKind,
    pub ports: Vec<PortName>,
    pub groups: Vec<RouteGroup>,
}

pub struct SwitchTypeView {
    pub kind: SwitchKind,
    pub ports: Seq<PortName>,
    pub groups: Seq<Seq<Route>>,
}

impl View for SwitchType {
    type V = SwitchTypeView;

    open spec fn view(&self) -> SwitchTypeView {
        SwitchTypeView {
            kind: self.kind,
            ports: self.ports@,
            groups: Seq::new(self.groups@.len(), |g: int| self.groups@[g].routes@),
        }
    }
}

/// The infrastructure of a network.
#[derive(Clone, Debug, PartialEq, Eq)]
pub struct RailJson {
    pub track_sections: Vec<TrackSection>,
    pub buffer_stops: Vec<BufferStop>,
    pub track_section_links: Vec<TrackSectionLink>,
    pub switches: Vec<Switch>,
    pub switch_types: Vec<SwitchType>,
}

pub struct RailJsonView {
    pub track_sections: Seq<TrackSectionView>,
    pub buffer_stops: Seq<BufferStop>,
    pub track_section_links: Seq<TrackSectionLink>,
    pub switches: Seq<SwitchView>,
    pub switch_types: Seq<SwitchTypeView>,
}

impl View for RailJson {
    type V = RailJsonView;

    open spec fn view(&self) -> RailJsonView {
        RailJsonView {
            track_sections: views(self.track_sections@),
            buffer_stops: self.buffer_stops@,
            track_section_links: self.track_section_links@,
            switches: views(self.switches@),
            switch_types: views(self.switch_types@),
        }
    }
}

/// The views of the items of a sequence, in its order.
pub open spec fn views<T: View>(items: Seq<T>) -> Seq<T::V> {
    Seq::new(items.len(), |i: int| items[i]@)
}

/// The names of the ports of a kind of switch, in the order in which a switch
/// of that kind lists its ports.
pub open spec fn port_names(kind: SwitchKind) -> Seq<PortName> {
    match kind {
        SwitchKind::Point => seq![PortName::A, PortName::B1, PortName::B2],
        SwitchKind::Crossing => seq![PortName::A1, PortName::B1, PortName::A2, PortName::B2],
        SwitchKind::DoubleSlip => seq![PortName::A1, PortName::B1, PortName::A2, PortName::B2],
    }
}

/// The routes of a kind of switch, each as the positions of its two ports in
/// `port_names`.
pub open spec fn route_slots(kind: SwitchKind) -> Seq<(int, int)> {
    match kind {
        SwitchKind::Point => seq![(0int, 1int), (0int, 2int)],
        SwitchKind::Crossing => seq![(0int, 1int), (2int, 3int)],
        SwitchKind::DoubleSlip => seq![(0int, 1int), (0int, 3int), (2int, 1int), (2int, 3int)],
    }
}

/// The route that joins the ports at two positions of a kind of switch.
pub open spec fn route_between(kind: SwitchKind, slots: (int, int)) -> Route {
    Route { src: port_names(kind)[slots.0], dst: port_names(kind)[slots.1] }
}

/// The routes of a kind of switch, grouped by position of the switch. A point
/// and a double slip offer one route at a time; the two routes of a crossing
/// are always there together.
pub open spec fn route_groups(kind: SwitchKind) -> Seq<Seq<Route>> {
    let slots = route_slots(kind);
    match kind {
        SwitchKind::Point => seq![
            seq![route_between(kind, slots[0])],
            seq![route_between(kind, slots[1])],
        ],
        SwitchKind::Crossing => seq![
            seq![route_between(kind, slots[0]), route_between(kind, slots[1])],
        ],
        SwitchKind::DoubleSlip => seq![
            seq![route_between(kind, slots[0])],
            seq![route_between(kind, slots[1])],
            seq![route_between(kind, slots[2])],
            seq![route_between(kind, slots[3])],
        ],
    }
}

/// The switch type of a kind.
pub open spec fn switch_type_of(kind: SwitchKind) -> SwitchTypeView {
    SwitchTypeView { kind, ports: port_names(kind), groups: route_groups(kind) }
}

/// The catalogue of switch types: one for each kind.
pub open spec fn catalogue() -> Seq<SwitchTypeView> {
    seq![
        switch_type_of(SwitchKind::Point),
        switch_type_of(SwitchKind::Crossing),
        switch_type_of(SwitchKind::DoubleSlip),
    ]
}

/// The catalogue holds the switch type of every kind.
pub proof fn lemma_catalogue_is_complete(kind: SwitchKind)
    ensures
        catalogue().contains(switch_type_of(kind)),
        forall|i: int|
            0 <= i < catalogue().len() && (#[trigger] catalogue()[i]).kind == kind ==> catalogue()[i]
                == switch_type_of(kind),
{
    match kind {
        SwitchKind::Point => assert(catalogue()[0] == switch_type_of(kind)),
        SwitchKind::Crossing => assert(catalogue()[1] == switch_type_of(kind)),
        SwitchKind::DoubleSlip => assert(catalogue()[2] == switch_type_of(kind)),
    }
}

impl SwitchKind {
    /// The name under which the catalogue lists the kind.
    pub open spec fn name_of(self) -> Seq<char> {
        match self {
            SwitchKind::Point => "point"@,
            SwitchKind::Crossing => "cross_over"@,
            SwitchKind::DoubleSlip => "double_slip"@,
        }
    }

    pub fn name(&self) -> (name: &'static str)
        ensures
            name@ == self.name_of(),
    {
        match self {
            SwitchKind::Point => "point",
            SwitchKind::Crossing => "cross_over",
            SwitchKind::DoubleSlip => "double_slip",
        }
    }
}

impl PortName {
    pub open spec fn name_of(self) -> Seq<char> {
        match self {
            PortName::A => "A"@,
            PortName::A1 => "A1"@,
            PortName::A2 => "A2"@,
            PortName::B1 => "B1"@,
            PortName::B2 => "B2"@,
        }
    }

    pub fn name(&self) -> (name: &'static str)
        ensures
            name@ == self.name_of(),
    {
        match self {
            PortName::A => "A",
            PortName::A1 => "A1",
            PortName::A2 => "A2",
            PortName::B1 => "B1",
            PortName::B2 => "B2",
        }
    }
}

/// The name of a group of routes of a kind of switch: the routes of a
/// crossing, which are always there, go by `STATIC`; a group of another kind
/// goes by the names of the two ports of its first route.
pub open spec fn group_label(kind: SwitchKind, routes: Seq<Route>) -> Seq<char> {
    if kind == SwitchKind::Crossing {
        "STATIC"@
    } else if routes.len() == 0 {
        Seq::empty()
    } else {
        routes[0].src.name_of() + "_"@ + routes[0].dst.name_of()
    }
}

impl RouteGroup {
    /// The name of the group in a switch type of the given kind.
    pub fn name(&self, kind: SwitchKind) -> (name: String)
        ensures
            name@ == group_label(kind, self.routes@),
    {
        match kind {
            SwitchKind::Crossing => String::from_str("STATIC"),
            _ => {
                if self.routes.len() == 0 {
                    String::new()
                } else {
                    let mut name = String::from_str(self.routes[0].src.name());
                    name.append("_");
                    name.append(self.routes[0].dst.name());
                    name
                }
            },
        }
    }
}

fn single(src: PortName, dst: PortName) -> (group: RouteGroup)
    ensures
        group.routes@ == seq![(Route { src, dst })],
{
    let mut routes: Vec<Route> = Vec::new();
    routes.push(Route { src, dst });
    RouteGroup { routes }
}

impl SwitchType {
    /// The switch type of a kind.
    pub fn of(kind: SwitchKind) -> (switch_type: SwitchType)
        ensures
            switch_type@ == switch_type_of(kind),
    {
        let mut ports: Vec<PortName> = Vec::new();
        let mut groups: Vec<RouteGroup> = Vec::new();
        match kind {
            SwitchKind::Point => {
                ports.push(PortName::A);
                ports.push(PortName::B1);
                ports.push(PortName::B2);
                groups.push(single(PortName::A, PortName::B1));
                groups.push(single(PortName::A, PortName::B2));
            },
            SwitchKind::Crossing => {
                ports.push(PortName::A1);
                ports.push(PortName::B1);
                ports.push(PortName::A2);
                ports.push(PortName::B2);
                let mut routes: Vec<Route> = Vec::new();
                routes.push(Route { src: PortName::A1, dst: PortName::B1 });
                routes.push(Route { src: PortName::A2, dst: PortName::B2 });
                groups.push(RouteGroup { routes });
            },
            SwitchKind::DoubleSlip => {
                ports.push(PortName::A1);
                ports.push(PortName::B1);
                ports.push(PortName::A2);
                ports.push(PortName::B2);
                groups.push(single(PortName::A1, PortName::B1));
                groups.push(single(PortName::A1, PortName::B2));
                groups.push(single(PortName::A2, PortName::B1));
                groups.push(single(PortName::A2, PortName::B2));
            },
        }
        let switch_type = SwitchType { kind, ports, groups };
        assert(switch_type@.ports =~= port_names(kind));
        assert(switch_type@.groups =~= route_groups(kind)) by {
            assert forall|g: int| 0 <= g < switch_type@.groups.len() implies
                #[trigger] switch_type@.groups[g] =~= route_groups(kind)[g] by {}
        }
        switch_type
    }
}

/// The catalogue of switch types: one for each kind, whatever the network.
pub fn default_switch_types() -> (types: Vec<SwitchType>)
    ensures
        views(types@) == catalogue(),
{
    let mut types: Vec<SwitchType> = Vec::new();
    types.push(SwitchType::of(SwitchKind::Point));
    types.push(SwitchType::of(SwitchKind::Crossing));
    types.push(SwitchType::of(SwitchKind::DoubleSlip));
    assert(views(types@) =~= catalogue());
    types
}

} // verus!
