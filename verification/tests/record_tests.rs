use batsim::config::Config;
use batsim::events::{ChargeType, Event};
use batsim::record::AgentSimulationRecord;

// Energies are mkWs: one kWs is 1000.
const KWS: i64 = 1000;

fn activity_event(charge: i64, day: u32, time: (u32, u32)) -> Event {
    Event::activity("a".to_string(), None, charge, day, time, "home".to_string(), (0, 0))
}

fn en_route_event(charge: i64, day: u32, time: (u32, u32)) -> Event {
    Event::en_route("a".to_string(), None, charge, day, time, "a".to_string(), (0, 0))
}

fn record() -> AgentSimulationRecord {
    let mut record = AgentSimulationRecord::new("a".to_string(), 2 * 3600 * KWS);
    record.new_day(10 * 3600 * KWS);
    record.new_day(4 * 3600 * KWS);
    record.add_event(activity_event(2 * 3600 * KWS, 1, (0, 1)));
    record.add_event(en_route_event(2 * 3600 * KWS, 1, (1, 2)));
    record.new_day(8 * 3600 * KWS);
    record.add_event(en_route_event(2 * 3600 * KWS, 2, (0, 1)));
    record
}

#[test]
fn test_init_record() {
    let record = AgentSimulationRecord::new("a".to_string(), 100);
    assert_eq!(record.close_precision, 100);
}

#[test]
fn test_not_close() {
    let mut record = record();
    let state = 6 * 3600 * KWS;
    let closed = record.try_to_close(state);
    assert!(!closed);
    assert_eq!(record.error(state), -4 * 3600 * KWS);
    assert_eq!(record.slice_start, 0);
    assert_eq!(record.slice_end, None);
    let (lo, hi) = record.slice_bounds();
    assert_eq!(hi - lo, 3);
}

#[test]
fn test_close_on_first() {
    let mut record = record();
    let state = 10 * 3600 * KWS;
    let closed = record.try_to_close(state);
    assert!(closed);
    assert_eq!(record.error(state), 0);
    assert_eq!(record.slice_start, 0);
    assert_eq!(record.slice_end, None);
    let (lo, hi) = record.slice_bounds();
    assert_eq!(hi - lo, 3);
}

#[test]
fn test_close() {
    let mut record = record();
    let state = 5 * 3600 * KWS;
    let closed = record.try_to_close(state);
    assert!(closed);
    assert_eq!(record.error(state), 3600 * KWS);
    assert_eq!(record.slice_start, 1);
    assert_eq!(record.slice_end, None);
    let (lo, hi) = record.slice_bounds();
    assert_eq!(hi - lo, 2);
}

#[test]
fn test_normalise_closed_first() {
    let mut record = record();
    let state = 10 * 3600 * KWS;
    let closed = record.try_to_close(state);
    assert!(closed);
    assert_eq!(record.get_total_charge(), 6 * 3600 * KWS);
    record.finalise(&Config::default());
    let (lo, hi) = record.slice_bounds();
    assert_eq!(hi - lo, 3);
    assert_eq!(record.get_total_charge(), 2 * 3600 * KWS);
}

#[test]
fn test_normalise_closed() {
    let mut record = record();
    let state = 4 * 3600 * KWS;
    let closed = record.try_to_close(state);
    assert!(closed);
    assert_eq!(record.slice_start, 1);
    assert_eq!(record.slice_end, None);
    assert_eq!(record.error, Some(0));
    assert_eq!(record.get_total_charge(), 6 * 3600 * KWS);
    record.finalise(&Config::default());
    let (lo, hi) = record.slice_bounds();
    assert_eq!(hi - lo, 2);
    assert_eq!(record.get_total_charge(), 3 * 3600 * KWS);
}

#[test]
fn test_force_close_a() {
    let mut record = record();
    record.force_close();
    assert_eq!(record.slice_start, 0);
    assert_eq!(record.slice_end, Some(2));
    let (lo, hi) = record.slice_bounds();
    assert_eq!(hi - lo, 2);
    assert_eq!(record.error, Some(-2 * 3600 * KWS));
    assert_eq!(record.get_total_charge(), 4 * 3600 * KWS);
    record.finalise(&Config::default());
    assert_eq!(record.get_total_charge(), 2 * 3600 * KWS);
}

#[test]
fn test_force_close_b() {
    let mut record = AgentSimulationRecord::new("a".to_string(), 360 * KWS);
    record.new_day(10 * 3600 * KWS);
    record.new_day(4 * 3600 * KWS);
    record.add_event(activity_event(2 * 3600 * KWS, 1, (0, 1)));
    record.add_event(en_route_event(2 * 3600 * KWS, 1, (1, 2)));
    record.new_day(8 * 3600 * KWS);
    record.add_event(en_route_event(2 * 3600 * KWS, 2, (0, 1)));
    record.new_day(5 * 3600 * KWS);
    record.add_event(en_route_event(3600 * KWS, 2, (0, 1)));

    record.force_close();
    assert_eq!(record.slice_start, 1);
    assert_eq!(record.slice_end, Some(3));
    let (lo, hi) = record.slice_bounds();
    assert_eq!(hi - lo, 2);
    assert_eq!(record.error, Some(3600 * KWS));
    assert_eq!(record.get_total_charge(), 6 * 3600 * KWS);
    record.finalise(&Config::default());
    assert_eq!(record.get_total_charge(), 3 * 3600 * KWS);
}

#[test]
fn test_force_close_short() {
    let mut record = AgentSimulationRecord::new("a".to_string(), 360 * KWS);
    record.new_day(10 * 3600 * KWS);
    record.new_day(8 * 3600 * KWS);

    record.force_close();
    assert_eq!(record.slice_start, 0);
    assert_eq!(record.slice_end, Some(1));
    let (lo, hi) = record.slice_bounds();
    assert_eq!(hi - lo, 1);
    assert_eq!(record.error, Some(-2 * 3600 * KWS));
    assert_eq!(record.get_total_charge(), 0);
    record.finalise(&Config::default());
    assert_eq!(record.get_total_charge(), 0);
}

#[test]
fn test_totals() {
    let record = record();
    assert_eq!(record.len(), 3);
    let report = record.to_record();
    assert_eq!(report.total_charge, 6 * 3600 * KWS);
    assert_eq!(report.total_activity, 2 * 3600 * KWS);
    assert_eq!(report.total_enroute, 4 * 3600 * KWS);
    assert_eq!(report.number_charges, 3);
    assert_eq!(report.number_activity, 1);
    assert_eq!(report.number_enroute, 2);
}

#[test]
fn close_error_is_within_precision() {
    let mut record = record();
    let state = 5 * 3600 * KWS;
    assert!(record.try_to_close(state));
    let leak = record.error.unwrap();
    assert!(leak.abs() < record.close_precision);
    assert_eq!(leak, state - 4 * 3600 * KWS);
}

#[test]
fn test_day() {
    let day = batsim::events::Day::new();
    assert_eq!(day.len(), 0);
}

#[test]
fn iter_events() {
    let mut day = batsim::events::Day::new();
    day.push(activity_event(0, 0, (0, 1)));
    day.push(en_route_event(0, 0, (0, 1)));
    assert_eq!(day.len(), 2);
    assert_eq!(day.get(0).charge_type, ChargeType::Activity);
    assert_eq!(day.get(1).charge_type, ChargeType::EnRoute);
}

#[test]
fn test_init_activity() {
    let event = activity_event(0, 0, (0, 1));
    assert_eq!(event.charge_type, ChargeType::Activity);
}

#[test]
fn test_init_enroute() {
    let event = en_route_event(0, 0, (0, 1));
    assert_eq!(event.charge_type, ChargeType::EnRoute);
}

#[test]
fn test_normalise() {
    let mut event = en_route_event(2 * KWS, 2, (0, 1));
    event.normalise(2, 1);
    assert_eq!(event.charge, KWS);
    assert_eq!(event.day, 1);
}
