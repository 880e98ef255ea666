use batsim::kvmap::KvMap;
use batsim::matsim::{ActEnd, ActStart, EnteredLink, LeftLink, MATSimEvent, VehicleLeavesTraffic};
use batsim::network::{Network, NetworkBuilder};
use batsim::population::{Person, Population};
use batsim::trace::{Activity, Component, Link, Trace};
use batsim::tracer::TraceHandler;
use batsim::xml::XmlEvent;
use batsim::tracer::TracerError;

fn network() -> Network {
    let mut builder = NetworkBuilder::new();
    builder
        .process(&XmlEvent::Start {
            name: "node".to_string(),
            attributes: vec![
                ("id".to_string(), "n".to_string()),
                ("x".to_string(), "0.0".to_string()),
                ("y".to_string(), "0.0".to_string()),
            ],
        })
        .unwrap();
    for lid in ["a", "b"] {
        builder
            .process(&XmlEvent::Start {
                name: "link".to_string(),
                attributes: vec![
                    ("id".to_string(), lid.to_string()),
                    ("length".to_string(), "1.0".to_string()),
                    ("to".to_string(), "n".to_string()),
                ],
            })
            .unwrap();
    }
    builder.build()
}

fn population() -> Population {
    let mut population = Population::new();
    let mut person = Person::new();
    person.attributes.insert("a".to_string(), "a".to_string());
    population.insert("0".to_string(), person);
    population
}

fn plan_of(population: &Population) -> &Vec<Component> {
    &population.person_at(0).trace.plan
}

#[test]
fn test_parse_activity_end() {
    let mut handler = TraceHandler::new();
    let network = network();
    let mut population = population();
    let event = MATSimEvent::ActEnd(ActEnd {
        time: 1,
        person: "0".to_string(),
        act_type: "home".to_string(),
        lid: "a".to_string(),
    });
    handler.process(&mut population, &event, &network).unwrap();
    let plan = plan_of(&population);
    assert_eq!(plan.len(), 1);
    assert_eq!(
        plan[0],
        Component::ActivityType(Activity {
            start_time: 0,
            end_time: 1,
            act: "home".to_string(),
            node: (0, 0)
        })
    );
}

#[test]
fn test_parse_activity_start() {
    let mut handler = TraceHandler::new();
    let network = network();
    let mut population = population();
    let event = MATSimEvent::ActStart(ActStart {
        time: 1,
        person: "0".to_string(),
        act_type: "home".to_string(),
        lid: "a".to_string(),
    });
    handler.process(&mut population, &event, &network).unwrap();
    handler.finalise(&mut population, &network).unwrap();
    let plan = plan_of(&population);
    assert_eq!(plan.len(), 1);
    assert_eq!(
        plan[0],
        Component::ActivityType(Activity {
            start_time: 1,
            end_time: 24 * 60 * 60,
            act: "home".to_string(),
            node: (0, 0)
        })
    );
}

#[test]
fn test_parse_plan_wrap() {
    let mut handler = TraceHandler::new();
    let network = network();
    let mut population = population();
    handler
        .process(
            &mut population,
            &MATSimEvent::ActEnd(ActEnd {
                time: 1,
                person: "0".to_string(),
                act_type: "home".to_string(),
                lid: "a".to_string(),
            }),
            &network,
        )
        .unwrap();
    handler
        .process(
            &mut population,
            &MATSimEvent::EnteredLink(EnteredLink {
                time: 1,
                vehicle: "0".to_string(),
                link: "a".to_string(),
            }),
            &network,
        )
        .unwrap();
    handler
        .process(
            &mut population,
            &MATSimEvent::LeftLink(LeftLink {
                time: 2,
                vehicle: "0".to_string(),
                link: "a".to_string(),
            }),
            &network,
        )
        .unwrap();
    handler
        .process(
            &mut population,
            &MATSimEvent::EnteredLink(EnteredLink {
                time: 2,
                vehicle: "0".to_string(),
                link: "b".to_string(),
            }),
            &network,
        )
        .unwrap();
    handler
        .process(
            &mut population,
            &MATSimEvent::VehicleLeavesTraffic(VehicleLeavesTraffic {
                time: 3,
                vehicle: "0".to_string(),
                person: "0".to_string(),
                link: "b".to_string(),
                mode: "car".to_string(),
            }),
            &network,
        )
        .unwrap();
    handler
        .process(
            &mut population,
            &MATSimEvent::ActStart(ActStart {
                time: 3,
                person: "0".to_string(),
                act_type: "home".to_string(),
                lid: "a".to_string(),
            }),
            &network,
        )
        .unwrap();
    handler.finalise(&mut population, &network).unwrap();
    handler.clean(&mut population);
    handler.wrap(&mut population);
    let plan = plan_of(&population);
    assert_eq!(plan.len(), 3);
    assert_eq!(
        plan[0],
        Component::LinkType(Link {
            start_time: 1,
            end_time: 2,
            lid: "a".to_string(),
            distance: 1000,
            node: (0, 0)
        })
    );
    // A vehicle leaving traffic mid-link covers half the link's length.
    assert_eq!(
        plan[1],
        Component::LinkType(Link {
            start_time: 2,
            end_time: 3,
            lid: "b".to_string(),
            distance: 500,
            node: (0, 0)
        })
    );
    assert_eq!(
        plan[2],
        Component::ActivityType(Activity {
            start_time: 3,
            end_time: (24 * 60 * 60) + 1,
            act: "home".to_string(),
            node: (0, 0)
        })
    );
}

#[test]
fn missing_link_is_an_error() {
    let mut handler = TraceHandler::new();
    let network = network();
    let mut population = population();
    let event = MATSimEvent::ActEnd(ActEnd {
        time: 1,
        person: "0".to_string(),
        act_type: "home".to_string(),
        lid: "missing".to_string(),
    });
    let err = handler.process(&mut population, &event, &network).unwrap_err();
    assert_eq!(err, TracerError::MissingLink("missing".to_string()));
}

#[test]
fn clean_drops_people_without_links() {
    let mut population = population();
    assert_eq!(population.len(), 1);
    population.clean();
    assert_eq!(population.len(), 0);
}

#[test]
fn wrap_is_idempotent_on_wrapped_traces() {
    // After a wrap the trace starts with a link, so it is no longer
    // wrappable and a second wrap changes nothing.
    let mut trace = Trace {
        plan: vec![
            Component::ActivityType(Activity {
                start_time: 0,
                end_time: 1,
                act: "home".to_string(),
                node: (0, 0),
            }),
            Component::LinkType(Link {
                start_time: 1,
                end_time: 2,
                lid: "a".to_string(),
                distance: 1000,
                node: (0, 0),
            }),
            Component::ActivityType(Activity {
                start_time: 3,
                end_time: 86401,
                act: "home".to_string(),
                node: (0, 0),
            }),
        ],
    };
    assert!(trace.is_wrappable());
    trace.wrap().unwrap();
    assert_eq!(trace.len(), 2);
    assert!(!trace.is_wrappable());
    assert!(trace.wrap().is_err());
    assert_eq!(trace.len(), 2);
}

#[test]
fn network_builds_from_tokens() {
    let mut builder = NetworkBuilder::new();
    builder
        .process(&XmlEvent::Start {
            name: "node".to_string(),
            attributes: vec![
                ("id".to_string(), "1".to_string()),
                ("x".to_string(), "100.0".to_string()),
                ("y".to_string(), "0.0".to_string()),
            ],
        })
        .unwrap();
    builder
        .process(&XmlEvent::Start {
            name: "link".to_string(),
            attributes: vec![
                ("id".to_string(), "1-2".to_string()),
                ("length".to_string(), "1000".to_string()),
                ("to".to_string(), "1".to_string()),
            ],
        })
        .unwrap();
    builder
        .process(&XmlEvent::Start { name: "ignored".to_string(), attributes: vec![] })
        .unwrap();
    let network = builder.build();
    assert_eq!(network.len(), 1);
    let link = network.get_link(&"1-2".to_string()).unwrap();
    assert_eq!(link.0, 1_000_000); // metres to millimetres
    assert_eq!(link.1, (100_000, 0));
}

#[test]
fn network_rejects_a_link_to_an_unknown_node() {
    let mut builder = NetworkBuilder::new();
    let err = builder.process(&XmlEvent::Start {
        name: "link".to_string(),
        attributes: vec![
            ("id".to_string(), "1-2".to_string()),
            ("length".to_string(), "1000".to_string()),
            ("to".to_string(), "nowhere".to_string()),
        ],
    });
    assert!(err.is_err());
}

#[test]
fn network_rejects_an_unparseable_length() {
    let mut builder = NetworkBuilder::new();
    builder
        .process(&XmlEvent::Start {
            name: "node".to_string(),
            attributes: vec![
                ("id".to_string(), "1".to_string()),
                ("x".to_string(), "0".to_string()),
                ("y".to_string(), "0".to_string()),
            ],
        })
        .unwrap();
    let err = builder.process(&XmlEvent::Start {
        name: "link".to_string(),
        attributes: vec![
            ("id".to_string(), "1-2".to_string()),
            ("length".to_string(), "soon".to_string()),
            ("to".to_string(), "1".to_string()),
        ],
    });
    assert!(err.is_err());
}

#[test]
fn valid_plan_combinations() {
    let person = Person {
        attributes: KvMap::new(),
        trace: Trace {
            plan: vec![
                Component::ActivityType(Activity {
                    start_time: 0,
                    end_time: 0,
                    act: "home".to_string(),
                    node: (0, 0),
                }),
                Component::LinkType(Link {
                    start_time: 0,
                    end_time: 0,
                    lid: "a".to_string(),
                    distance: 0,
                    node: (0, 0),
                }),
                Component::ActivityType(Activity {
                    start_time: 0,
                    end_time: 0,
                    act: "work".to_string(),
                    node: (0, 0),
                }),
                Component::LinkType(Link {
                    start_time: 0,
                    end_time: 0,
                    lid: "b".to_string(),
                    distance: 0,
                    node: (0, 0),
                }),
                Component::ActivityType(Activity {
                    start_time: 0,
                    end_time: 0,
                    act: "home".to_string(),
                    node: (0, 0),
                }),
            ],
        },
    };
    let none = "none".to_string();
    let home = "home".to_string();
    let work = "work".to_string();
    assert_eq!(person.viable_charge_activities(&vec![&none]), Vec::<usize>::new());
    assert_eq!(person.viable_combinations(&vec![&none]), vec![vec![Vec::<usize>::new()]]);
    assert_eq!(person.viable_charge_activities(&vec![&home]), vec![0, 4]);
    assert_eq!(
        person.viable_combinations(&vec![&home]),
        vec![vec![vec![4], vec![0]], vec![vec![4, 0]]]
    );
    assert_eq!(person.viable_charge_activities(&vec![&home, &work]), vec![0, 2, 4]);
    assert_eq!(
        person.viable_combinations(&vec![&home, &work]),
        vec![
            vec![vec![4], vec![2], vec![0]],
            vec![vec![4, 2], vec![4, 0], vec![2, 0]],
            vec![vec![4, 2, 0]],
        ]
    );
}

#[test]
fn valid_empty_plan_combinations() {
    let person = Person::new();
    let home = "home".to_string();
    assert_eq!(person.viable_charge_activities(&vec![&home]), Vec::<usize>::new());
    assert_eq!(person.viable_combinations(&vec![&home]), vec![vec![Vec::<usize>::new()]]);
}
