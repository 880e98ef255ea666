use batsim::codec::{deserialise, serialise};
use batsim::config::{BatsimConfigError, Config};
use batsim::events::Event;
use batsim::groups::{ActivitySpec, BatterySpec, EnRouteSpec, TriggerSpec};
use batsim::handler::AgentConfig;
use batsim::kvmap::KvMap;
use batsim::charge_plan::ActivityChargingPlanner;
use batsim::population::{Person, Population};
use batsim::results::{u64_string, HumanEnergyCount, SummaryHandler};
use batsim::trace::{Activity, Component, Link, Trace};
use batsim::sampler;

fn test_pop() -> Population {
    let mut population = Population::new();
    let mut person = Person::new();
    person.attributes.insert("age".to_string(), "high".to_string());
    person.trace = Trace {
        plan: vec![
            Component::LinkType(Link {
                start_time: 1,
                end_time: 2,
                lid: "a".to_string(),
                distance: 1000,
                node: (0, 0),
            }),
            Component::LinkType(Link {
                start_time: 2,
                end_time: 3,
                lid: "b".to_string(),
                distance: 500,
                node: (0, 0),
            }),
            Component::ActivityType(Activity {
                start_time: 3,
                end_time: (24 * 60 * 60) + 1,
                act: "home".to_string(),
                node: (0, 0),
            }),
        ],
    };
    population.insert("1".to_string(), person);
    population
}

#[test]
fn test_serialise_deserialise_consistency_binary() {
    let population = test_pop();
    let bytes = serialise(&population);
    let decoded = deserialise(&bytes).unwrap();
    assert_eq!(decoded.len(), population.len());
    assert_eq!(decoded.key_at(0), population.key_at(0));
    assert_eq!(
        decoded.person_at(0).attributes.entries,
        population.person_at(0).attributes.entries
    );
    assert_eq!(decoded.person_at(0).trace, population.person_at(0).trace);
}

#[test]
fn an_empty_population_round_trips() {
    let population = Population::new();
    let bytes = serialise(&population);
    let decoded = deserialise(&bytes).unwrap();
    assert_eq!(decoded.len(), 0);
}

#[test]
fn truncated_bytes_do_not_deserialise() {
    let population = test_pop();
    let mut bytes = serialise(&population);
    bytes.truncate(bytes.len() - 1);
    assert!(deserialise(&bytes).is_none());
}


#[test]
fn an_unsorted_encoding_is_rejected() {
    // Built behind the sorted map's back, so the encoding carries ids out
    // of order; deserialise refuses to produce an ill-formed population.
    let person = || Person::new();
    let population = Population { people: vec![("b".to_string(), person()), ("a".to_string(), person())] };
    let bytes = serialise(&population);
    assert!(deserialise(&bytes).is_none());
}

#[test]
fn test_human_energy_count_fmt() {
    // Values in mkWs: 1000 is one kWs.
    assert_eq!("1000 kWs", HumanEnergyCount { value: 1000 * 1000 }.render());
    assert_eq!("1500 kWs", HumanEnergyCount { value: 1500 * 1000 }.render());
    assert_eq!("2 kWh", HumanEnergyCount { value: 7200 * 1000 }.render());
    assert_eq!("1000 kWh", HumanEnergyCount { value: 3_600_000 * 1000 }.render());
    assert_eq!("2 MWh", HumanEnergyCount { value: 5_400_000 * 1000 }.render());
}

#[test]
fn numbers_render_in_decimal() {
    assert_eq!(u64_string(0), "0");
    assert_eq!(u64_string(7), "7");
    assert_eq!(u64_string(1234567), "1234567");
}

#[test]
fn summary_totals_add_up() {
    let mut summary = SummaryHandler::new();
    summary.add(&Event::en_route("a".to_string(), None, 2000, 1, (0, 1), "l".to_string(), (0, 0)));
    summary.add(&Event::activity("a".to_string(), None, 3000, 1, (0, 1), "home".to_string(), (0, 0)));
    summary.add(&Event::activity("a".to_string(), None, 1000, 2, (0, 1), "home".to_string(), (0, 0)));
    summary.add_leak(500);
    assert_eq!(summary.en_route_charge, 2000);
    assert_eq!(summary.en_route_events, 1);
    assert_eq!(*summary.activity_charge_map.get(&"home".to_string()).unwrap(), 4000);
    assert_eq!(*summary.activity_events_map.get(&"home".to_string()).unwrap(), 2);
    assert_eq!(summary.leak, 500);
    let mut config = Config::default();
    config.scale = Some(2000);
    summary.finalise(&config);
    assert_eq!(summary.leak, 1000);
    assert_eq!(summary.en_route_events, 2);
}

#[test]
fn invalid_scale_is_rejected() {
    let mut config = Config::default();
    config.scale = Some(-1);
    assert_eq!(config.valid().unwrap_err(), BatsimConfigError::InvalidScale);
    config.scale = Some(0);
    assert!(config.valid().is_ok());
}

#[test]
fn test_from_specs() {
    fn spec(name: Option<&str>, acts: &[&str]) -> ActivitySpec {
        ActivitySpec::new(
            name.map(|n| n.to_string()),
            acts.iter().map(|a| a.to_string()).collect(),
            3000,
            None,
            None,
        )
    }
    let spec_a = spec(Some("A"), &["a"]);
    let spec_b = spec(Some("B"), &["b1", "b2"]);
    let spec_c = spec(None, &["b1"]);
    let planner = ActivityChargingPlanner::new(vec![&spec_a, &spec_b, &spec_c]);
    assert_eq!(planner.activities(), vec!["a", "b1", "b2", "b1"]);
}

#[test]
fn test_get() {
    fn spec(name: Option<&str>, acts: &[&str]) -> ActivitySpec {
        ActivitySpec::new(
            name.map(|n| n.to_string()),
            acts.iter().map(|a| a.to_string()).collect(),
            3000,
            None,
            None,
        )
    }
    let spec_a = spec(Some("A"), &["a"]);
    let spec_b = spec(Some("B"), &["b1", "b2"]);
    let spec_c = spec(None, &["b1"]);
    let planner = ActivityChargingPlanner::new(vec![&spec_a, &spec_b, &spec_c]);
    assert_eq!(planner.get(&"a".to_string()), Some(spec_a.spec()));
    assert_eq!(planner.get(&"b2".to_string()), Some(spec_b.spec()));
    assert_eq!(planner.get(&"b1".to_string()), Some(spec_c.spec()));
    assert_eq!(planner.get(&"c".to_string()), None);
}

#[test]
fn specs_row_joins_activity_names() {
    let battery = BatterySpec::unit();
    let trigger = TriggerSpec::empty();
    let en_route = EnRouteSpec::new(Some("fast".to_string()), 1000, None, None);
    let act_a = ActivitySpec::new(Some("home".to_string()), vec!["home".to_string()], 1000, None, None);
    let act_b = ActivitySpec::new(Some("work".to_string()), vec!["work".to_string()], 1000, None, None);
    let agent_config = AgentConfig {
        pid: "p1".to_string(),
        battery: Some(&battery),
        trigger: Some(&trigger),
        en_route: Some(&en_route),
        activities: vec![&act_a, &act_b],
    };
    let row = agent_config.to_record();
    assert_eq!(row.pid, "p1");
    assert_eq!(row.battery, "unit");
    assert_eq!(row.trigger, "empty");
    assert_eq!(row.en_route, "fast");
    assert_eq!(row.activities, "home+work");
    assert!(agent_config.validate().is_ok());
}

#[test]
fn a_battery_without_en_route_charging_is_invalid() {
    let battery = BatterySpec::unit();
    let agent_config = AgentConfig {
        pid: "p1".to_string(),
        battery: Some(&battery),
        trigger: None,
        en_route: None,
        activities: vec![],
    };
    assert_eq!(
        agent_config.validate().unwrap_err(),
        BatsimConfigError::AgentMissingEnRouteCharging("p1".to_string())
    );
}

#[test]
fn a_person_without_specs_resolves_to_the_defaults() {
    let config = Config::default();
    let person = Person { attributes: KvMap::new(), trace: Trace { plan: vec![] } };
    let mut rng = sampler::new(Some(1));
    let agent_config = AgentConfig::build(&config, "p".to_string(), &person, &mut rng);
    assert!(agent_config.battery.is_some());
    assert!(agent_config.trigger.is_some());
    assert!(agent_config.en_route.is_some());
    assert!(agent_config.activities.is_empty());
    assert!(agent_config.validate().is_ok());
}
