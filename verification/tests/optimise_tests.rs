use batsim::charge_plan::ActivityChargingPlanner;
use batsim::config::Config;
use batsim::groups::{ActivitySpec, BatterySpecBuilder, EnRouteSpec, TriggerSpec};
use batsim::handler::AgentConfig;
use batsim::kvmap::KvMap;
use batsim::optimise::run_simulations;
use batsim::population::Person;
use batsim::trace::{Activity, Component, Link, Trace};
use batsim::config::BatsimConfigError;
use batsim::groups::BatterySpec;
use batsim::optimise::OptimiseHandler;

const KWS: i64 = 1000;

fn act(name: &str, st: u32, et: u32, x: i64, y: i64) -> Component {
    Component::ActivityType(Activity { start_time: st, end_time: et, act: name.to_string(), node: (x, y) })
}

fn link(lid: &str, st: u32, et: u32, d_mm: i64, x: i64, y: i64) -> Component {
    Component::LinkType(Link { start_time: st, end_time: et, lid: lid.to_string(), distance: d_mm, node: (x, y) })
}

fn activity_spec(name: Option<&str>, acts: &[&str], rate: i64) -> ActivitySpec {
    ActivitySpec::new(
        name.map(|n| n.to_string()),
        acts.iter().map(|a| a.to_string()).collect(),
        rate,
        None,
        None,
    )
}

fn person(plan: Vec<Component>) -> Person {
    Person { attributes: KvMap::new(), trace: Trace { plan } }
}

#[test]
fn test_run_simulation_find_best_act_for_charging() {
    let config = Config::default();
    // Three charging activities; the optimiser should choose the last one.
    let person = person(vec![
        link("a", 1, 2, 1000, 0, 0),
        act("home", 2, 4, 0, 0),
        link("b", 4, 5, 1000, 1, 1),
        act("home", 5, 7, 0, 0),
        link("c", 7, 8, 1000, 2, 2),
        act("home", 8, 12, 0, 0),
    ]);
    let battery_spec = BatterySpecBuilder::new()
        .capacity(36_000 * KWS)
        .full()
        .consumption_rate(1000 * KWS)
        .build();
    let trigger_spec = TriggerSpec::empty();
    let en_route_spec = EnRouteSpec::new(Some("enroute".to_string()), 1000 * KWS, None, None);
    let charge_act = activity_spec(Some("home"), &["home"], 1000 * KWS);
    let agent_config = AgentConfig {
        pid: "A".to_string(),
        battery: Some(&battery_spec),
        trigger: Some(&trigger_spec),
        en_route: Some(&en_route_spec),
        activities: vec![&charge_act],
    };
    let planner = ActivityChargingPlanner::new(vec![&charge_act]);
    let solution = run_simulations(&"A".to_string(), &person, &agent_config, &planner, &config)
        .unwrap();
    let events = solution.slice_events();
    assert_eq!(events.len(), 1);
    assert_eq!(events[0].charge, 3000 * KWS);
    assert_eq!(events[0].activity, Some("home".to_string()));
    assert_eq!(events[0].start_time, 8);
    assert_eq!(events[0].end_time, 11);
    assert_eq!(solution.history[0], 36_000 * KWS);
}

#[test]
fn test_run_simulation_requires_en_route() {
    let config = Config::default();
    let person = person(vec![
        link("a", 1, 2, 1000, 0, 0),
        act("home", 2, 3, 0, 0),
        link("b", 3, 4, 1000, 1, 1),
        act("home", 4, 5, 0, 0),
        link("c", 5, 6, 1000, 2, 2),
    ]);
    let battery_spec = BatterySpecBuilder::new().capacity(3 * KWS).full().consumption_rate(KWS).build();
    let trigger_spec = TriggerSpec::empty();
    let en_route_spec = EnRouteSpec::new(None, KWS, None, None);
    let charge_act = activity_spec(None, &["home"], KWS);
    let agent_config = AgentConfig {
        pid: "A".to_string(),
        battery: Some(&battery_spec),
        trigger: Some(&trigger_spec),
        en_route: Some(&en_route_spec),
        activities: vec![&charge_act],
    };
    let planner = ActivityChargingPlanner::new(vec![&charge_act]);
    let mut record = run_simulations(&"A".to_string(), &person, &agent_config, &planner, &config)
        .unwrap();
    record.finalise(&Config::default());
    assert_eq!(record.get_total_charge(), 3 * KWS);
}

#[test]
fn test_run_simulation_with_activity_indifference() {
    let config = Config::default();
    // Either activity alone suffices; the later one (home) should win.
    let person = person(vec![
        link("a", 1, 2, 1000, 0, 0),
        act("work", 2, 4, 0, 0),
        link("b", 4, 5, 1000, 1, 1),
        act("home", 5, 7, 0, 0),
    ]);
    let battery_spec = BatterySpecBuilder::new().capacity(3 * KWS).full().consumption_rate(KWS).build();
    let trigger_spec = TriggerSpec::empty();
    let charge_spec_home = activity_spec(None, &["home"], KWS);
    let charge_spec_work = activity_spec(None, &["work"], KWS);
    let planner = ActivityChargingPlanner::new(vec![&charge_spec_home, &charge_spec_work]);
    let en_route_spec = EnRouteSpec::new(None, KWS, None, None);
    let agent_config = AgentConfig {
        pid: "A".to_string(),
        battery: Some(&battery_spec),
        trigger: Some(&trigger_spec),
        en_route: Some(&en_route_spec),
        activities: vec![&charge_spec_home, &charge_spec_work],
    };
    let mut record = run_simulations(&"A".to_string(), &person, &agent_config, &planner, &config)
        .unwrap();
    record.finalise(&Config::default());
    let events = record.slice_events();
    assert_eq!(events[0].activity, Some("home".to_string()));
    assert_eq!(events[0].charge, 2 * KWS);
    assert_eq!(record.error, Some(0));
}

#[test]
fn optimiser_gives_an_empty_record_without_a_battery() {
    let config = Config::default();
    let handler = OptimiseHandler::new(&config);
    let person = person(vec![]);
    let agent_config = AgentConfig {
        pid: "A".to_string(),
        battery: None,
        trigger: None,
        en_route: None,
        activities: vec![],
    };
    let record = handler.optimise(&config, &"A".to_string(), &person, agent_config).unwrap();
    assert_eq!(record.len(), 0);
    assert_eq!(record.error, Some(0));
}

#[test]
fn optimiser_rejects_a_battery_without_a_trigger() {
    let config = Config::default();
    let handler = OptimiseHandler::new(&config);
    let person = person(vec![]);
    let battery = BatterySpec::unit();
    let agent_config = AgentConfig {
        pid: "A".to_string(),
        battery: Some(&battery),
        trigger: None,
        en_route: None,
        activities: vec![],
    };
    let err = handler.optimise(&config, &"A".to_string(), &person, agent_config).unwrap_err();
    assert_eq!(err, BatsimConfigError::AgentMissingTrigger("A".to_string()));
}
