use editoast::railjson::{
    default_switch_types, PortName, Route, RouteGroup, SwitchKind, SwitchType,
};

fn route(src: PortName, dst: PortName) -> Route {
    Route { src, dst }
}

#[test]
fn catalogue_holds_the_three_kinds_in_order() {
    let types = default_switch_types();
    let kinds: Vec<SwitchKind> = types.iter().map(|t| t.kind).collect();
    assert_eq!(kinds, vec![SwitchKind::Point, SwitchKind::Crossing, SwitchKind::DoubleSlip]);
    assert_eq!(types[0], SwitchType::of(SwitchKind::Point));
    assert_eq!(types[1], SwitchType::of(SwitchKind::Crossing));
    assert_eq!(types[2], SwitchType::of(SwitchKind::DoubleSlip));
}

#[test]
fn point_type_joins_the_stem_to_each_diverging_port() {
    let point = SwitchType::of(SwitchKind::Point);
    assert_eq!(point.ports, vec![PortName::A, PortName::B1, PortName::B2]);
    assert_eq!(
        point.groups,
        vec![
            RouteGroup { routes: vec![route(PortName::A, PortName::B1)] },
            RouteGroup { routes: vec![route(PortName::A, PortName::B2)] },
        ]
    );
}

#[test]
fn crossing_type_has_its_two_routes_in_one_group() {
    let crossing = SwitchType::of(SwitchKind::Crossing);
    assert_eq!(crossing.ports, vec![PortName::A1, PortName::B1, PortName::A2, PortName::B2]);
    assert_eq!(
        crossing.groups,
        vec![RouteGroup {
            routes: vec![route(PortName::A1, PortName::B1), route(PortName::A2, PortName::B2)],
        }]
    );
}

#[test]
fn double_slip_type_joins_each_side_to_the_other() {
    let double_slip = SwitchType::of(SwitchKind::DoubleSlip);
    assert_eq!(double_slip.ports, vec![PortName::A1, PortName::B1, PortName::A2, PortName::B2]);
    assert_eq!(
        double_slip.groups,
        vec![
            RouteGroup { routes: vec![route(PortName::A1, PortName::B1)] },
            RouteGroup { routes: vec![route(PortName::A1, PortName::B2)] },
            RouteGroup { routes: vec![route(PortName::A2, PortName::B1)] },
            RouteGroup { routes: vec![route(PortName::A2, PortName::B2)] },
        ]
    );
}

#[test]
fn kinds_and_ports_have_their_names() {
    assert_eq!(SwitchKind::Point.name(), "point");
    assert_eq!(SwitchKind::Crossing.name(), "cross_over");
    assert_eq!(SwitchKind::DoubleSlip.name(), "double_slip");
    assert_eq!(PortName::A.name(), "A");
    assert_eq!(PortName::A1.name(), "A1");
    assert_eq!(PortName::A2.name(), "A2");
    assert_eq!(PortName::B1.name(), "B1");
    assert_eq!(PortName::B2.name(), "B2");
}

#[test]
fn groups_go_by_their_ports_or_static() {
    let names = |kind: SwitchKind| -> Vec<String> {
        SwitchType::of(kind).groups.iter().map(|g| g.name(kind)).collect()
    };
    assert_eq!(names(SwitchKind::Point), vec!["A_B1", "A_B2"]);
    assert_eq!(names(SwitchKind::Crossing), vec!["STATIC"]);
    assert_eq!(names(SwitchKind::DoubleSlip), vec!["A1_B1", "A1_B2", "A2_B1", "A2_B2"]);
    assert_eq!(RouteGroup { routes: vec![] }.name(SwitchKind::Point), "");
    assert_eq!(RouteGroup { routes: vec![] }.name(SwitchKind::Crossing), "STATIC");
}
