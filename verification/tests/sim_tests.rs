use batsim::charge_plan::ActivityChargingPlanner;
use batsim::config::Config;
use batsim::events::{ChargeType, Event};
use batsim::groups::{ActivitySpec, BatterySpec, BatterySpecBuilder, EnRouteSpec, TriggerSpec};
use batsim::handler::AgentConfig;
use batsim::sim::simulate;
use batsim::trace::{Activity, Component, Link, Trace};
use batsim::record::AgentSimulationRecord;
use batsim::scoring::score_events;

// Energies mkWs, distances mm, rates mkW.
const KWS: i64 = 1000;

fn act(name: &str, st: u32, et: u32, x: i64, y: i64) -> Component {
    Component::ActivityType(Activity { start_time: st, end_time: et, act: name.to_string(), node: (x, y) })
}

fn link(lid: &str, st: u32, et: u32, d_mm: i64, x: i64, y: i64) -> Component {
    Component::LinkType(Link { start_time: st, end_time: et, lid: lid.to_string(), distance: d_mm, node: (x, y) })
}

fn en_route_event(charge: i64, day: u32, time: (u32, u32), lid: &str, loc: (i64, i64)) -> Event {
    Event::en_route("A".to_string(), Some("enroute".to_string()), charge, day, time, lid.to_string(), loc)
}

fn activity_spec(name: Option<&str>, acts: &[&str], rate: i64) -> ActivitySpec {
    ActivitySpec::new(
        name.map(|n| n.to_string()),
        acts.iter().map(|a| a.to_string()).collect(),
        rate,
        None,
        None,
    )
}

#[test]
fn test_leg_sim() {
    let config = Config::default();
    let trace = Trace { plan: vec![link("a", 1, 2, 1000, 0, 0)] };
    let battery_spec = BatterySpec::unit();
    let trigger_spec = TriggerSpec::empty();
    let charge_act = activity_spec(Some("home"), &["home"], KWS);
    let enroute_spec = EnRouteSpec::new(Some("enroute".to_string()), KWS, None, None);
    let agent_config = AgentConfig {
        pid: "a".to_string(),
        battery: Some(&battery_spec),
        trigger: Some(&trigger_spec),
        en_route: Some(&enroute_spec),
        activities: vec![&charge_act],
    };
    let planner = ActivityChargingPlanner::new(vec![&charge_act]);
    let record = simulate(&"A".to_string(), &trace, &vec![], &agent_config, &planner, &config);
    let events = record.slice_events();
    assert_eq!(events, vec![en_route_event(KWS, 1, (1, 2), "a", (0, 0))]);
}

#[test]
fn test_sim_full_charge_end_of_day() {
    let config = Config::default();
    let trace = Trace {
        plan: vec![
            link("a", 1, 2, 1000, 0, 0),
            act("work", 2, 3, 0, 0),
            link("b", 3, 4, 1000, 1, 1),
            act("home", 4, 10, 0, 0),
        ],
    };
    let battery_spec = BatterySpecBuilder::new().capacity(3 * KWS).full().consumption_rate(KWS).build();
    let trigger_spec = TriggerSpec::empty();
    let enroute_spec = EnRouteSpec::new(Some("enroute".to_string()), KWS, None, None);
    let charge_act = activity_spec(Some("home"), &["home"], KWS);
    let agent_config = AgentConfig {
        pid: "a".to_string(),
        battery: Some(&battery_spec),
        trigger: Some(&trigger_spec),
        en_route: Some(&enroute_spec),
        activities: vec![&charge_act],
    };
    let planner = ActivityChargingPlanner::new(vec![&charge_act]);
    let record = simulate(&"A".to_string(), &trace, &vec![3], &agent_config, &planner, &config);
    let events = record.slice_events();
    let expected = Event::activity(
        "A".to_string(),
        Some("home".to_string()),
        2 * KWS,
        1,
        (4, 6),
        "home".to_string(),
        (0, 0),
    );
    assert_eq!(events, vec![expected]);
}

#[test]
fn test_sim_no_activity_charge() {
    let config = Config::default();
    let trace = Trace {
        plan: vec![
            link("a", 1, 2, 1000, 0, 0),
            act("work", 2, 3, 1, 1),
            link("b", 3, 4, 1000, 1, 1),
            link("c", 4, 5, 1000, 2, 2),
            act("home", 5, 11, 0, 0),
        ],
    };
    let battery_spec = BatterySpecBuilder::new().capacity(2 * KWS).full().consumption_rate(KWS).build();
    let trigger_spec = TriggerSpec::empty();
    let enroute_spec = EnRouteSpec::new(Some("enroute".to_string()), KWS, None, None);
    let charge_act = activity_spec(None, &["home"], KWS);
    let agent_config = AgentConfig {
        pid: "a".to_string(),
        battery: Some(&battery_spec),
        trigger: Some(&trigger_spec),
        en_route: Some(&enroute_spec),
        activities: vec![&charge_act],
    };
    let planner = ActivityChargingPlanner::new(vec![&charge_act]);
    let record = simulate(&"A".to_string(), &trace, &vec![], &agent_config, &planner, &config);
    let events = record.slice_events();
    let expected = vec![
        en_route_event(2 * KWS, 1, (3, 5), "b", (1, 1)),
        en_route_event(2 * KWS, 2, (1, 3), "a", (0, 0)),
        en_route_event(2 * KWS, 2, (4, 6), "c", (2, 2)),
    ];
    assert_eq!(events, expected);
}

#[test]
fn test_sim_look_ahead() {
    let config = Config::default();
    let trace = Trace {
        plan: vec![
            link("a", 1, 2, 1000, 0, 0),
            link("b", 2, 3, 1000, 1, 1),
            link("c", 3, 4, 1000, 2, 2),
            act("home", 4, 5, 0, 0),
        ],
    };
    let battery_spec = BatterySpecBuilder::new().capacity(2 * KWS).full().consumption_rate(KWS).build();
    let trigger_spec = TriggerSpec::empty();
    let charge_act = activity_spec(Some("home"), &["home"], KWS);
    let planner = ActivityChargingPlanner::new(vec![&charge_act]);
    let en_route_spec = EnRouteSpec::new(Some("enroute".to_string()), KWS, None, None);
    let agent_config = AgentConfig {
        pid: "a".to_string(),
        battery: Some(&battery_spec),
        trigger: Some(&trigger_spec),
        en_route: Some(&en_route_spec),
        activities: vec![&charge_act],
    };
    let record = simulate(&"A".to_string(), &trace, &vec![3], &agent_config, &planner, &config);
    let events = record.slice_events();
    let expected = vec![
        en_route_event(2 * KWS, 1, (2, 4), "b", (1, 1)),
        Event::activity(
            "A".to_string(),
            Some("home".to_string()),
            KWS,
            1,
            (4, 5),
            "home".to_string(),
            (0, 0),
        ),
    ];
    assert_eq!(events, expected);
}

#[test]
fn en_route_event_is_emitted_even_at_zero_charge() {
    // The battery never recovers with a zero-rate charger, so each link at
    // or below the trigger still logs an en-route event.
    let config = Config::default();
    let trace = Trace { plan: vec![link("a", 1, 2, 1000, 0, 0)] };
    let battery_spec = BatterySpec::unit();
    let trigger_spec = TriggerSpec::empty();
    let enroute_spec = EnRouteSpec::new(None, KWS, None, None);
    let agent_config = AgentConfig {
        pid: "a".to_string(),
        battery: Some(&battery_spec),
        trigger: Some(&trigger_spec),
        en_route: Some(&enroute_spec),
        activities: vec![],
    };
    let planner = ActivityChargingPlanner::new(vec![]);
    let record = simulate(&"A".to_string(), &trace, &vec![], &agent_config, &planner, &config);
    assert!(record.slice_events().iter().all(|e| e.charge_type == ChargeType::EnRoute));
}

#[test]
fn test_scoring() {
    let mut record = AgentSimulationRecord::new("A".to_string(), 100);
    record.new_day(10 * KWS);
    record.add_event(Event::activity("A".to_string(), None, 2 * KWS, 1, (4, 7), "home".to_string(), (0, 0)));
    record.new_day(9 * KWS);
    record.add_event(en_route_event(KWS, 2, (4, 7), "a", (0, 0)));
    let score = score_events(&record);
    assert_eq!(score.en_route_events, 1);
    assert_eq!(score.en_route_charge, KWS);
    assert_eq!(score.activity_events, 1);
    assert_eq!(score.days, 2);
    record.new_day(8 * KWS);
    record.new_day(7 * KWS);
    record.add_event(en_route_event(3 * KWS, 4, (4, 7), "a", (0, 0)));
    record.add_event(Event::activity("A".to_string(), None, KWS, 4, (4, 7), "home".to_string(), (0, 0)));
    let score = score_events(&record);
    assert_eq!(score.en_route_events, 2);
    assert_eq!(score.en_route_charge, 4 * KWS);
    assert_eq!(score.activity_events, 2);
    assert_eq!(score.days, 4);
}
