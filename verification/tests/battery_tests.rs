use batsim::battery::BatteryState;
use batsim::groups::{BatterySpec, TriggerSpec};

// Energies are mkWs: the unit battery holds one kWs (1000 mkWs) and drains
// one kWs per metre; distances are millimetres and rates milli-kilowatts.

#[test]
fn test_battery_state_apply_distance() {
    let spec = BatterySpec::unit();
    let trigger_spec = TriggerSpec::empty();
    let mut battery = BatteryState::new(&spec, &trigger_spec);
    assert_eq!(battery.state, 1000);

    battery.apply_distance(500);
    assert_eq!(battery.state, 500);
    assert_eq!(battery.deficit(), 500);
    assert!(!battery.must_charge());

    battery.apply_distance(500);
    assert_eq!(battery.state, 0);
    assert_eq!(battery.deficit(), 1000);
    assert!(battery.must_charge());

    battery.apply_distance(500);
    assert_eq!(battery.state, -500);
    assert_eq!(battery.deficit(), 1500);
    assert!(battery.must_charge());
}

#[test]
fn test_charge_to_full_already_full() {
    let spec = BatterySpec::unit();
    let trigger_spec = TriggerSpec::empty();
    let mut battery = BatteryState::new(&spec, &trigger_spec);
    let (deficit, duration) = battery.charge_to_full(1000);
    assert_eq!(deficit, 0);
    assert_eq!(duration, 0);
    assert_eq!(battery.deficit(), 0);
}

#[test]
fn test_charge_to_full() {
    let spec = BatterySpec::unit();
    let trigger_spec = TriggerSpec::empty();
    let mut battery = BatteryState::new(&spec, &trigger_spec);
    battery.apply_distance(1500);
    let (deficit, duration) = battery.charge_to_full(1000);
    assert_eq!(deficit, 1500);
    assert_eq!(duration, 1);
    assert_eq!(battery.deficit(), 0);
}

#[test]
fn test_charge_for_duration_already_full() {
    let spec = BatterySpec::unit();
    let trigger_spec = TriggerSpec::empty();
    let mut battery = BatteryState::new(&spec, &trigger_spec);
    let (deficit, duration) = battery.charge_for_duration(1, 1000);
    assert_eq!(deficit, 0);
    assert_eq!(duration, 0);
    assert_eq!(battery.deficit(), 0);
}

#[test]
fn test_charge_for_duration_incomplete() {
    let spec = BatterySpec::unit();
    let trigger_spec = TriggerSpec::empty();
    let mut battery = BatteryState::new(&spec, &trigger_spec);
    battery.apply_distance(1500);
    let (charge, duration) = battery.charge_for_duration(1, 1000);
    assert_eq!(charge, 1000);
    assert_eq!(duration, 1);
    assert_eq!(battery.deficit(), 500);
}

#[test]
fn test_charge_for_duration() {
    let spec = BatterySpec::unit();
    let trigger_spec = TriggerSpec::empty();
    let mut battery = BatteryState::new(&spec, &trigger_spec);
    battery.apply_distance(500);
    let (charge, duration) = battery.charge_for_duration(1, 1000);
    assert_eq!(charge, 500);
    assert_eq!(duration, 0); // rounds down from half a second
    assert_eq!(battery.deficit(), 0);
}

#[test]
fn test_charge_to_desired_already_full() {
    let spec = BatterySpec::unit();
    let trigger_spec = TriggerSpec::empty();
    let mut battery = BatteryState::new(&spec, &trigger_spec);
    let (deficit, duration) = battery.charge_to_desired(1000, 1000);
    assert_eq!(deficit, 0);
    assert_eq!(duration, 0);
    assert_eq!(battery.deficit(), 0);
}

#[test]
fn test_charge_to_desired_incomplete() {
    let spec = BatterySpec::unit();
    let trigger_spec = TriggerSpec::empty();
    let mut battery = BatteryState::new(&spec, &trigger_spec);
    battery.apply_distance(1500);
    let (charge, duration) = battery.charge_to_desired(1000, 1000);
    assert_eq!(charge, 1000);
    assert_eq!(duration, 1);
    assert_eq!(battery.deficit(), 500);
}

#[test]
fn test_charge_to_desired() {
    let spec = BatterySpec::unit();
    let trigger_spec = TriggerSpec::empty();
    let mut battery = BatteryState::new(&spec, &trigger_spec);
    battery.apply_distance(500);
    let (charge, duration) = battery.charge_to_desired(1000, 1000);
    assert_eq!(charge, 500);
    assert_eq!(duration, 0); // rounds down from half a second
    assert_eq!(battery.deficit(), 0);
}

#[test]
fn trigger_level_is_a_fraction_of_capacity() {
    let spec = BatterySpec {
        name: None,
        capacity: 10_000,
        initial: 10_000,
        consumption_rate: 1000,
        p: None,
        filters: None,
    };
    // A fifth of capacity: 200 million parts per billion.
    let trigger_spec = TriggerSpec { name: None, trigger: 200_000_000, p: None, filters: None };
    let battery = BatteryState::new(&spec, &trigger_spec);
    assert_eq!(battery.trigger, 2000);
}

#[test]
fn state_never_exceeds_capacity_after_charging() {
    let spec = BatterySpec::unit();
    let trigger_spec = TriggerSpec::empty();
    let mut battery = BatteryState::new(&spec, &trigger_spec);
    battery.apply_distance(300);
    let _ = battery.charge_for_duration(100, 1000);
    assert!(battery.state <= battery.capacity);
    battery.apply_distance(700);
    let _ = battery.charge_to_desired(5_000_000, 1000);
    assert!(battery.state <= battery.capacity);
}
