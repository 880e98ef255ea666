use batsim::kvmap::KvMap;
use batsim::matsim::{ActEnd, ActStart, EnteredLink, LeftLink, MATSimEvent, VehicleLeavesTraffic};
use batsim::peek::{PeekAttributesParser, PeekAttributesParserState, PeekSet, PeekerState};
use batsim::population::{AttributesParser, AttributesParserState, Population};
use batsim::xml::{get_attribute, parse_milli, parse_time, parse_u32, XmlEvent};

fn start(name: &str, attributes: &[(&str, &str)]) -> XmlEvent {
    XmlEvent::Start {
        name: name.to_string(),
        attributes: attributes.iter().map(|(k, v)| (k.to_string(), v.to_string())).collect(),
    }
}

fn empty(name: &str, attributes: &[(&str, &str)]) -> XmlEvent {
    XmlEvent::Empty {
        name: name.to_string(),
        attributes: attributes.iter().map(|(k, v)| (k.to_string(), v.to_string())).collect(),
    }
}

fn end(name: &str) -> XmlEvent {
    XmlEvent::End { name: name.to_string() }
}

fn text(content: &str) -> XmlEvent {
    XmlEvent::Text { content: content.to_string() }
}

#[test]
fn population_test_parser_initial_state() {
    let parser = AttributesParser::new();
    assert_eq!(parser.state, AttributesParserState::Population);
}

#[test]
fn test_parser_expected_transitions_from_population() {
    let mut people = Population::new();

    let mut parser = AttributesParser::new();
    parser.process(&start("population", &[]), &mut people);
    assert_eq!(parser.state, AttributesParserState::Population);

    let mut parser = AttributesParser::new();
    parser.process(&start("person", &[("id", "x")]), &mut people);
    assert_eq!(parser.state, AttributesParserState::Person { pid: "x".to_string() });
    assert_eq!(people.len(), 1);
    assert_eq!(people.person_at(0).attributes.len(), 0);
}

#[test]
fn test_parser_expected_transitions_from_person() {
    let mut people = Population::new();
    let mut parser = AttributesParser::new();
    parser.process(&start("person", &[("id", "x")]), &mut people);

    parser.process(&end("person"), &mut people);
    assert_eq!(parser.state, AttributesParserState::Population);

    let mut parser = AttributesParser::new();
    parser.process(&start("person", &[("id", "x")]), &mut people);
    parser.process(&start("attributes", &[]), &mut people);
    assert_eq!(parser.state, AttributesParserState::Attributes { pid: "x".to_string() });

    // With the plan guard (the default), plan content suspends attribute
    // collection; the legacy reading stays in the person state as the
    // original file layout assumed.
    let mut parser = AttributesParser::new();
    parser.process(&start("person", &[("id", "x")]), &mut people);
    parser.process(&start("plan", &[]), &mut people);
    assert_eq!(parser.state, AttributesParserState::Plan { pid: "x".to_string() });
    parser.process(&end("plan"), &mut people);
    assert_eq!(parser.state, AttributesParserState::Person { pid: "x".to_string() });

    let mut parser = AttributesParser::unguarded();
    parser.process(&start("person", &[("id", "x")]), &mut people);
    parser.process(&start("plan", &[]), &mut people);
    assert_eq!(parser.state, AttributesParserState::Person { pid: "x".to_string() });
}

#[test]
fn plan_attributes_are_not_collected_under_the_guard() {
    let mut people = Population::new();
    let mut parser = AttributesParser::new();
    parser.process(&start("person", &[("id", "x")]), &mut people);
    parser.process(&start("plan", &[]), &mut people);
    parser.process(&start("attributes", &[]), &mut people);
    parser.process(&start("attribute", &[("name", "leg")]), &mut people);
    parser.process(&text("car"), &mut people);
    assert_eq!(people.person_at(0).attributes.len(), 0);
}

#[test]
fn test_parser_expected_transitions_from_attributes() {
    let mut people = Population::new();
    let mut parser = AttributesParser::new();
    parser.process(&start("person", &[("id", "x")]), &mut people);
    parser.process(&start("attributes", &[]), &mut people);

    parser.process(&end("attributes"), &mut people);
    assert_eq!(parser.state, AttributesParserState::Population);

    let mut parser = AttributesParser::new();
    parser.process(&start("person", &[("id", "x")]), &mut people);
    parser.process(&start("attributes", &[]), &mut people);
    parser.process(&start("attribute", &[("name", "y")]), &mut people);
    assert_eq!(
        parser.state,
        AttributesParserState::Attribute { pid: "x".to_string(), name: "y".to_string() }
    );
}

#[test]
fn test_parser_expected_transitions_from_attribute() {
    let mut people = Population::new();
    let mut parser = AttributesParser::new();
    parser.process(&start("person", &[("id", "x")]), &mut people);
    parser.process(&start("attributes", &[]), &mut people);
    parser.process(&start("attribute", &[("name", "y")]), &mut people);

    parser.process(&text("z"), &mut people);
    assert_eq!(parser.state, AttributesParserState::Attributes { pid: "x".to_string() });
    assert_eq!(
        people.person_at(0).attributes.get(&"y".to_string()),
        Some(&"z".to_string())
    );
}

#[test]
fn population_iteration_is_sorted_by_person_id() {
    let mut people = Population::new();
    let mut parser = AttributesParser::new();
    for pid in ["b", "a", "c"] {
        parser.process(&start("person", &[("id", pid)]), &mut people);
        parser.process(&end("person"), &mut people);
    }
    assert_eq!(people.len(), 3);
    assert_eq!(people.key_at(0), "a");
    assert_eq!(people.key_at(1), "b");
    assert_eq!(people.key_at(2), "c");
}

#[test]
fn attributes_test_parser_initial_state() {
    let parser = PeekAttributesParser::new(10);
    assert_eq!(parser.state, PeekAttributesParserState::Person);
}

#[test]
fn test_expected_transitions() {
    let mut attributes: KvMap<PeekSet> = KvMap::new();

    let mut parser = PeekAttributesParser::new(10);
    parser.process(&start("population", &[]), &mut attributes);
    assert_eq!(parser.state, PeekAttributesParserState::Person);

    parser.process(&start("person", &[]), &mut attributes);
    assert_eq!(parser.state, PeekAttributesParserState::Person);

    parser.process(&start("attributes", &[]), &mut attributes);
    assert_eq!(parser.state, PeekAttributesParserState::Attributes);

    parser.process(&start("attribute", &[("name", "a"), ("class", "java.lang.String")]), &mut attributes);
    assert_eq!(parser.state, PeekAttributesParserState::Attribute { key: "a".to_string() });

    parser.process(&text("A"), &mut attributes);
    assert_eq!(parser.state, PeekAttributesParserState::Attributes);
    assert_eq!(attributes.get(&"a".to_string()).unwrap().memory, vec!["A".to_string()]);

    parser.process(&end("attribute"), &mut attributes);
    parser.process(&start("attribute", &[("name", "b"), ("class", "java.lang.String")]), &mut attributes);
    parser.process(&text("B"), &mut attributes);
    assert_eq!(attributes.get(&"b".to_string()).unwrap().memory, vec!["B".to_string()]);

    parser.process(&end("attributes"), &mut attributes);
    assert_eq!(parser.state, PeekAttributesParserState::Person);

    parser.process(&start("plan", &[]), &mut attributes);
    assert_eq!(parser.state, PeekAttributesParserState::Plan);

    parser.process(&end("plan"), &mut attributes);
    assert_eq!(parser.state, PeekAttributesParserState::Person);
}

#[test]
fn test_set_builds_correctly() {
    let mut attributes: KvMap<PeekSet> = KvMap::new();
    let mut seeded = PeekSet::new(10);
    seeded.insert("A".to_string());
    attributes.insert("a".to_string(), seeded);
    let mut parser = PeekAttributesParser::new(10);
    parser.process(&start("person", &[]), &mut attributes);
    parser.process(&start("attributes", &[]), &mut attributes);
    parser.process(&start("attribute", &[("name", "a"), ("class", "java.lang.String")]), &mut attributes);
    parser.process(&text("B"), &mut attributes);
    parser.process(&end("attributes"), &mut attributes);
    assert_eq!(
        attributes.get(&"a".to_string()).unwrap().memory,
        vec!["A".to_string(), "B".to_string()]
    );
}

#[test]
fn test_set_avoids_trip_attributes() {
    let mut attributes: KvMap<PeekSet> = KvMap::new();
    let mut parser = PeekAttributesParser::new(10);
    parser.process(&start("person", &[]), &mut attributes);
    parser.process(&start("plan", &[]), &mut attributes);
    parser.process(&start("attribute", &[("name", "a"), ("class", "java.lang.String")]), &mut attributes);
    parser.process(&text("A"), &mut attributes);
    assert_eq!(attributes.len(), 0);
}

#[test]
fn test_peekset() {
    let mut set = PeekSet::new(3);
    set.insert("a".to_string());
    set.insert("a".to_string());
    set.insert("b".to_string());
    assert_eq!(
        set,
        PeekSet {
            max: 1,
            state: PeekerState::Full,
            memory: vec!["a".to_string(), "b".to_string()],
        }
    );
}

#[test]
fn test_peekset_full() {
    let mut set = PeekSet::new(1);
    set.insert("a".to_string());
    set.insert("b".to_string());
    assert_eq!(
        set,
        PeekSet { max: 1, state: PeekerState::Full, memory: vec!["a".to_string()] }
    );
}

#[test]
fn test_peekset_full_zero() {
    let mut set = PeekSet::new(0);
    set.insert("a".to_string());
    set.insert("b".to_string());
    assert_eq!(set, PeekSet { max: 1, state: PeekerState::Full, memory: vec![] });
}

#[test]
fn test_act_start() {
    let event = empty(
        "event",
        &[("time", "0.0"), ("type", "actstart"), ("person", "0"), ("link", "a"), ("actType", "home")],
    );
    assert_eq!(
        MATSimEvent::from_raw_event(&event).unwrap(),
        MATSimEvent::ActStart(ActStart {
            time: 0,
            person: "0".to_string(),
            act_type: "home".to_string(),
            lid: "a".to_string()
        })
    );
}

#[test]
fn test_act_end() {
    let event = empty(
        "event",
        &[("time", "0.0"), ("type", "actend"), ("person", "0"), ("link", "a"), ("actType", "home")],
    );
    assert_eq!(
        MATSimEvent::from_raw_event(&event).unwrap(),
        MATSimEvent::ActEnd(ActEnd {
            time: 0,
            person: "0".to_string(),
            act_type: "home".to_string(),
            lid: "a".to_string()
        })
    );
}

#[test]
fn test_veh_leaves_traffic() {
    let event = empty(
        "event",
        &[
            ("time", "0.0"),
            ("type", "vehicle leaves traffic"),
            ("person", "0"),
            ("link", "a"),
            ("vehicle", "0"),
            ("networkMode", "car"),
            ("relativePosition", "1.0"),
        ],
    );
    assert_eq!(
        MATSimEvent::from_raw_event(&event).unwrap(),
        MATSimEvent::VehicleLeavesTraffic(VehicleLeavesTraffic {
            time: 0,
            person: "0".to_string(),
            vehicle: "0".to_string(),
            mode: "car".to_string(),
            link: "a".to_string()
        })
    );
}

#[test]
fn test_veh_enter_link() {
    let event = empty("event", &[("time", "0.0"), ("type", "entered link"), ("link", "a"), ("vehicle", "0")]);
    assert_eq!(
        MATSimEvent::from_raw_event(&event).unwrap(),
        MATSimEvent::EnteredLink(EnteredLink {
            time: 0,
            vehicle: "0".to_string(),
            link: "a".to_string()
        })
    );
}

#[test]
fn test_veh_leaves_link() {
    let event = empty("event", &[("time", "0.0"), ("type", "left link"), ("link", "a"), ("vehicle", "0")]);
    assert_eq!(
        MATSimEvent::from_raw_event(&event).unwrap(),
        MATSimEvent::LeftLink(LeftLink {
            time: 0,
            vehicle: "0".to_string(),
            link: "a".to_string()
        })
    );
}

#[test]
fn a_malformed_time_is_an_error() {
    let event = empty("event", &[("time", "soon"), ("type", "left link"), ("link", "a"), ("vehicle", "0")]);
    assert!(MATSimEvent::from_raw_event(&event).is_err());
}

#[test]
fn test_get_attribute() {
    let attributes = vec![
        ("key1".to_string(), "A".to_string()),
        ("key2".to_string(), "B".to_string()),
    ];
    assert_eq!(get_attribute(&attributes, &"key1".to_string()), Some(&"A".to_string()));
    assert_eq!(get_attribute(&attributes, &"key2".to_string()), Some(&"B".to_string()));
    assert_eq!(get_attribute(&attributes, &"missing_key".to_string()), None);
}

#[test]
fn times_are_whole_seconds_left_of_the_dot() {
    assert_eq!(parse_time(&"123.4".to_string()), Some(123));
    assert_eq!(parse_time(&"0.0".to_string()), Some(0));
    assert_eq!(parse_time(&"123".to_string()), None);
    assert_eq!(parse_time(&"x.0".to_string()), None);
}

#[test]
fn decimals_parse_into_milli_units() {
    assert_eq!(parse_milli(&"12.5".to_string()), Some(12_500));
    assert_eq!(parse_milli(&"-3.25".to_string()), Some(-3_250));
    assert_eq!(parse_milli(&"20000.0".to_string()), Some(20_000_000));
    assert_eq!(parse_milli(&"7".to_string()), Some(7_000));
    assert_eq!(parse_milli(&"1.23456".to_string()), Some(1_234));
    assert_eq!(parse_milli(&"".to_string()), None);
    assert_eq!(parse_milli(&"nan".to_string()), None);
}

#[test]
fn whole_numbers_parse_within_range() {
    assert_eq!(parse_u32("86400"), Some(86400));
    assert_eq!(parse_u32(""), None);
    assert_eq!(parse_u32("99999999999999999999"), None);
}
