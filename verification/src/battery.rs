//! The battery model: drain by distance, charge by duration or deficit.
//!
//! All energies are mkWs, distances millimetres, charge rates mkW and
//! consumption rates mkWs per metre.  The state may go arbitrarily negative
//! while draining — a deep deficit is a diagnostic signal — so drains
//! saturate at the `i64` bounds instead of overflowing.  After every charge
//! operation the state is at most the capacity.

use vstd::prelude::*;
use crate::arith::{clamp_i64, spec_duration, trunc_div, i128_trunc_div, add_sat, sub_sat, duration_for};
use crate::groups::{BatterySpec, TriggerSpec};

verus! {

#[derive(Debug, Clone)]
pub struct BatteryState {
    pub state: i64,
    pub capacity: i64,
    pub initial: i64,
    pub trigger: i64,
    pub consumption_rate: i64,
}

/// The energy drained over a distance: millimetres times mkWs per metre,
/// scaled back to mkWs and clamped to `i64`.
pub open spec fn spec_drain(distance_mm: int, rate: int) -> int {
    clamp_i64(trunc_div(distance_mm * rate, 1000))
}

/// The trigger level: the given fraction (parts per billion) of the capacity.
pub open spec fn spec_trigger_level(trigger_ppb: int, capacity: int) -> int {
    clamp_i64(trunc_div(trigger_ppb * capacity, 1_000_000_000))
}


/// The battery built from its specs: units converted, trigger level fixed.
pub open spec fn spec_battery_new(bs: BatterySpec, ts: TriggerSpec) -> BatteryState {
    BatteryState {
        state: bs.initial,
        capacity: bs.capacity,
        initial: bs.initial,
        trigger: spec_trigger_level(ts.trigger as int, bs.capacity as int) as i64,
        consumption_rate: bs.consumption_rate,
    }
}

/// The battery after draining over a distance.
pub open spec fn spec_after_distance(b: BatteryState, distance_mm: int) -> BatteryState {
    BatteryState {
        state: clamp_i64(b.state - spec_drain(distance_mm, b.consumption_rate as int)) as i64,
        ..b
    }
}

/// The battery, charge and duration after a charge to full.
pub open spec fn spec_charge_to_full(b: BatteryState, rate: int) -> (BatteryState, int, int) {
    (
        BatteryState { state: b.capacity, ..b },
        b.spec_deficit(),
        spec_duration(b.spec_deficit(), rate),
    )
}

/// The battery, charge and duration after charging for a duration.
pub open spec fn spec_charge_for_duration(b: BatteryState, dur: int, rate: int) -> (
    BatteryState,
    int,
    int,
) {
    let tentative = clamp_i64(dur * rate);
    if tentative > b.spec_deficit() {
        spec_charge_to_full(b, rate)
    } else {
        (BatteryState { state: clamp_i64(b.state + tentative) as i64, ..b }, tentative, dur)
    }
}

/// The battery, charge and duration after applying a desired charge.
pub open spec fn spec_charge_to_desired(b: BatteryState, desired: int, rate: int) -> (
    BatteryState,
    int,
    int,
) {
    if desired > b.spec_deficit() {
        spec_charge_to_full(b, rate)
    } else {
        (
            BatteryState { state: clamp_i64(b.state + desired) as i64, ..b },
            desired,
            spec_duration(desired, rate),
        )
    }
}

impl BatteryState {
    /// The difference between capacity and state, clamped to `i64`.
    pub open spec fn spec_deficit(self) -> int {
        clamp_i64(self.capacity - self.state)
    }

    pub fn new(battery_spec: &BatterySpec, trigger_spec: &TriggerSpec) -> (r: BatteryState)
        requires
            battery_spec.capacity >= 0,
        ensures
            r == spec_battery_new(*battery_spec, *trigger_spec),
            r.trigger == spec_trigger_level(
                trigger_spec.trigger as int,
                battery_spec.capacity as int,
            ),
    {
        proof {
            assert(trigger_spec.trigger as int * battery_spec.capacity as int <= i128::MAX as int
                && trigger_spec.trigger as int * battery_spec.capacity as int > i128::MIN as int)
                by (nonlinear_arith)
                requires
                    0 <= trigger_spec.trigger as int <= u32::MAX as int,
                    i64::MIN as int <= battery_spec.capacity as int <= i64::MAX as int,
            ;
        }
        let t: i128 = i128_trunc_div(
            trigger_spec.trigger as i128 * battery_spec.capacity as i128,
            1_000_000_000,
        );
        let trigger: i64 = if t > i64::MAX as i128 {
            i64::MAX
        } else if t < i64::MIN as i128 {
            i64::MIN
        } else {
            t as i64
        };
        BatteryState {
            state: battery_spec.initial,
            capacity: battery_spec.capacity,
            initial: battery_spec.initial,
            trigger,
            consumption_rate: battery_spec.consumption_rate,
        }
    }

    /// Drain the battery for the given distance in millimetres.
    pub fn apply_distance(&mut self, distance_mm: i64)
        ensures
            *final(self) == spec_after_distance(*old(self), distance_mm as int),
    {
        let drain = drain_amount(distance_mm, self.consumption_rate);
        self.state = sub_sat(self.state, drain);
    }

    /// The difference between capacity and current state.
    pub fn deficit(&self) -> (r: i64)
        ensures
            r as int == self.spec_deficit(),
    {
        sub_sat(self.capacity, self.state)
    }

    /// Whether the state is at or below the trigger level.
    pub fn must_charge(&self) -> (r: bool)
        ensures
            r == (self.state <= self.trigger),
    {
        self.state <= self.trigger
    }

    /// Charge to full at the given rate: the full deficit is delivered over
    /// the whole seconds it takes at that rate.
    pub fn charge_to_full(&mut self, charge_rate: i64) -> (r: (i64, u32))
        ensures
            ({
                let (b2, c, d) = spec_charge_to_full(*old(self), charge_rate as int);
                *final(self) == b2 && r.0 as int == c && r.1 as int == d
            }),
            final(self).state <= final(self).capacity,
    {
        let desired = self.deficit();
        let duration = duration_for(desired, charge_rate);
        self.state = self.capacity;
        (desired, duration)
    }

    /// Charge for the given duration at the given rate, but never beyond
    /// full: when the tentative charge exceeds the deficit, charge to full
    /// and report the time that the deficit alone takes.
    pub fn charge_for_duration(&mut self, duration: u32, charge_rate: i64) -> (r: (i64, u32))
        requires
            old(self).capacity >= 0,
        ensures
            ({
                let (b2, c, d) = spec_charge_for_duration(
                    *old(self),
                    duration as int,
                    charge_rate as int,
                );
                *final(self) == b2 && r.0 as int == c && r.1 as int == d
            }),
            final(self).state <= final(self).capacity,
    {
        proof {
            assert(duration as int * charge_rate as int <= i128::MAX as int && duration as int
                * charge_rate as int >= i128::MIN as int) by (nonlinear_arith)
                requires
                    0 <= duration as int <= u32::MAX as int,
                    i64::MIN as int <= charge_rate as int <= i64::MAX as int,
            ;
        }
        let p: i128 = duration as i128 * charge_rate as i128;
        let charge: i64 = if p > i64::MAX as i128 {
            i64::MAX
        } else if p < i64::MIN as i128 {
            i64::MIN
        } else {
            p as i64
        };
        let deficit = self.deficit();
        if charge > deficit {
            let (c, d) = self.charge_to_full(charge_rate);
            (c, d)
        } else {
            self.state = add_sat(self.state, charge);
            proof {
                self.lemma_partial_charge_stays_within(*old(self), charge as int);
            }
            (charge, duration)
        }
    }

    /// Apply the desired charge at the given rate, but never beyond full:
    /// when the desired charge exceeds the deficit, charge to full.
    pub fn charge_to_desired(&mut self, desired_charge: i64, charge_rate: i64) -> (r: (i64, u32))
        requires
            old(self).capacity >= 0,
        ensures
            ({
                let (b2, c, d) = spec_charge_to_desired(
                    *old(self),
                    desired_charge as int,
                    charge_rate as int,
                );
                *final(self) == b2 && r.0 as int == c && r.1 as int == d
            }),
            final(self).state <= final(self).capacity,
    {
        let deficit = self.deficit();
        if desired_charge > deficit {
            let (c, d) = self.charge_to_full(charge_rate);
            (c, d)
        } else {
            self.state = add_sat(self.state, desired_charge);
            let duration = duration_for(desired_charge, charge_rate);
            proof {
                self.lemma_partial_charge_stays_within(*old(self), desired_charge as int);
            }
            (desired_charge, duration)
        }
    }

    /// A charge of at most the deficit never lifts the state above the
    /// capacity.
    proof fn lemma_partial_charge_stays_within(self, pre: BatteryState, charge: int)
        requires
            pre.capacity >= 0,
            charge <= pre.spec_deficit(),
            self.capacity == pre.capacity,
            self.state == clamp_i64(pre.state + charge),
        ensures
            self.state <= self.capacity,
    {
    }
}


/// The energy drained over a distance, clamped to `i64`.
pub fn drain_amount(distance_mm: i64, rate: i64) -> (r: i64)
    ensures
        r as int == spec_drain(distance_mm as int, rate as int),
{
    proof {
        assert(distance_mm as int * rate as int <= i128::MAX as int && distance_mm as int
            * rate as int > i128::MIN as int) by (nonlinear_arith)
            requires
                i64::MIN as int <= distance_mm as int <= i64::MAX as int,
                i64::MIN as int <= rate as int <= i64::MAX as int,
        ;
    }
    let p: i128 = i128_trunc_div(distance_mm as i128 * rate as i128, 1000);
    if p > i64::MAX as i128 {
        i64::MAX
    } else if p < i64::MIN as i128 {
        i64::MIN
    } else {
        p as i64
    }
}

} // verus!
