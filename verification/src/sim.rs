//! The day simulator: walk the trace day by day, draining on links,
//! charging at enabled activities, and charging en route when the battery
//! falls to the trigger, until the day-boundary state closes on a state
//! already seen — or patience runs out and the best cycle is forced.

use vstd::prelude::*;
use crate::arith::{clamp_i64, spec_add_u32, add_sat, add_sat_u32};
use crate::battery::{drain_amount, spec_drain, spec_after_distance, spec_battery_new, spec_charge_for_duration, spec_charge_to_desired, spec_charge_to_full, BatteryState};
use crate::charge_plan::{spec_charges_at, spec_last_charging, ActivityChargingPlanner};
use crate::config::Config;
use crate::events::{ChargeType, Event};
use crate::groups::{ActivitySpec, BatterySpec, EnRouteSpec, TriggerSpec};
use crate::handler::AgentConfig;
use crate::record::{abs_int, spec_pair_leak, spec_score_le, AgentSimulationRecord};
use crate::trace::{Component, Trace};

verus! {

/// Whether an index is in the enabled set.
pub open spec fn spec_has_index(acts: Seq<usize>, i: int) -> bool {
    exists|k: int| 0 <= k < acts.len() && (#[trigger] acts[k]) as int == i
}

fn contains_idx(v: &Vec<usize>, x: usize) -> (r: bool)
    ensures
        r == spec_has_index(v@, x as int),
{
    let n = v.len();
    for i in 0..n
        invariant
            n == v@.len(),
            forall|j: int| 0 <= j < i ==> (#[trigger] v@[j]) as int != x as int,
    {
        if v[i] == x {
            proof {
                assert((v@[i as int]) as int == x as int);
            }
            return true;
        }
    }
    false
}

/// One scanning pass of the look-ahead: walk components `lo .. hi`,
/// accumulating link drains, and stop at the first enabled activity.
/// Returns whether one was found and the accumulated charge.
pub open spec fn spec_scan(
    plan: Seq<Component>,
    acts: Seq<usize>,
    lo: int,
    hi: int,
    rate: int,
    acc: int,
) -> (bool, int)
    decreases hi - lo,
{
    if lo >= hi {
        (false, acc)
    } else {
        match plan[lo] {
            Component::ActivityType(_) => if spec_has_index(acts, lo) {
                (true, acc)
            } else {
                spec_scan(plan, acts, lo + 1, hi, rate, acc)
            },
            Component::LinkType(l) => spec_scan(
                plan,
                acts,
                lo + 1,
                hi,
                rate,
                clamp_i64(acc + spec_drain(l.distance as int, rate)),
            ),
        }
    }
}

/// The charge needed to reach the next enabled activity from `start`,
/// wrapping around the day: scan forward from `start`, then from the top
/// up to `start`.
pub open spec fn spec_plan_ahead(
    plan: Seq<Component>,
    acts: Seq<usize>,
    start: int,
    rate: int,
) -> int {
    let (found, acc) = spec_scan(plan, acts, start, plan.len() as int, rate, 0);
    if found {
        acc
    } else {
        spec_scan(plan, acts, 0, start, rate, acc).1
    }
}

/// Look ahead from `start` for the next enabled activity and return the
/// energy needed to reach it.
pub fn plan_ahead(trace: &Trace, charge_activities: &Vec<usize>, start: usize, efficiency: i64) -> (r:
    i64)
    requires
        start <= trace.plan@.len(),
    ensures
        r as int == spec_plan_ahead(
            trace.plan@,
            charge_activities@,
            start as int,
            efficiency as int,
        ),
{
    let n = trace.len();
    let mut acc: i64 = 0;
    let mut i = start;
    while i < n
        invariant
            start <= n,
            n == trace.plan@.len(),
            start <= i <= n,
            spec_scan(
                trace.plan@,
                charge_activities@,
                start as int,
                n as int,
                efficiency as int,
                0,
            ) == spec_scan(
                trace.plan@,
                charge_activities@,
                i as int,
                n as int,
                efficiency as int,
                acc as int,
            ),
        decreases n - i,
    {
        match trace.get(i) {
            Component::ActivityType(_) => {
                if contains_idx(charge_activities, i) {
                    return acc;
                }
            },
            Component::LinkType(link) => {
                acc = add_sat(acc, drain_amount(link.distance, efficiency));
            },
        }
        i = i + 1;
    }
    let mut q: usize = 0;
    while q < start
        invariant
            start <= n,
            n == trace.plan@.len(),
            q <= start,
            spec_plan_ahead(
                trace.plan@,
                charge_activities@,
                start as int,
                efficiency as int,
            ) == spec_scan(
                trace.plan@,
                charge_activities@,
                q as int,
                start as int,
                efficiency as int,
                acc as int,
            ).1,
        decreases start - q,
    {
        match trace.get(q) {
            Component::ActivityType(_) => {
                if contains_idx(charge_activities, q) {
                    return acc;
                }
            },
            Component::LinkType(link) => {
                acc = add_sat(acc, drain_amount(link.distance, efficiency));
            },
        }
        q = q + 1;
    }
    acc
}

/// Every enabled activity index names an activity whose name the planner
/// charges at.
pub open spec fn spec_acts_covered(
    plan: Seq<Component>,
    acts: Seq<usize>,
    planner: ActivityChargingPlanner,
) -> bool {
    forall|k: int|
        0 <= k < acts.len() && ((#[trigger] acts[k]) as int) < plan.len() && plan[acts[k] as int]
            is ActivityType ==> exists|j: int|
            0 <= j < planner.specs@.len() && spec_charges_at(
                *(#[trigger] planner.specs@[j]),
                plan[acts[k] as int]->ActivityType_0.act@,
            )
}


/// One walked component: the events emitted and the battery afterwards.
/// An enabled activity charges for its duration at the planner's rate for
/// its name; a link drains the battery and, at or below the trigger, takes
/// an en-route charge — the full deficit with no enabled activities, or
/// the look-ahead amount otherwise.
pub open spec fn spec_step(
    plan: Seq<Component>,
    i: int,
    acts: Seq<usize>,
    planner: Seq<&ActivitySpec>,
    er: EnRouteSpec,
    pid: String,
    day_no: u32,
    b: BatteryState,
) -> (Seq<Event>, BatteryState) {
    match plan[i] {
        Component::ActivityType(a) => {
            if spec_has_index(acts, i) {
                let rate: int = match spec_last_charging(planner, a.act@) {
                    Some(j) => planner[j].charge_rate as int,
                    None => 0,
                };
                let name: Option<String> = match spec_last_charging(planner, a.act@) {
                    Some(j) => planner[j].name,
                    None => None,
                };
                let (b2, c, d) = spec_charge_for_duration(b, a.spec_duration(), rate);
                if c > 0 {
                    (
                        seq![
                            Event {
                                charge_type: ChargeType::Activity,
                                pid,
                                spec: name,
                                charge: c as i64,
                                day: day_no,
                                start_time: a.start_time,
                                end_time: spec_add_u32(a.start_time as int, d) as u32,
                                activity: Some(a.act),
                                link_id: None,
                                x: a.node.0,
                                y: a.node.1,
                            },
                        ],
                        b2,
                    )
                } else {
                    (Seq::empty(), b2)
                }
            } else {
                (Seq::empty(), b)
            }
        },
        Component::LinkType(l) => {
            let b1 = spec_after_distance(b, l.distance as int);
            if b1.state <= b1.trigger {
                let (b2, c, d) = if acts.len() == 0 {
                    spec_charge_to_full(b1, er.charge_rate as int)
                } else {
                    spec_charge_to_desired(
                        b1,
                        spec_plan_ahead(plan, acts, i, b1.consumption_rate as int),
                        er.charge_rate as int,
                    )
                };
                (
                    seq![
                        Event {
                            charge_type: ChargeType::EnRoute,
                            pid,
                            spec: er.name,
                            charge: c as i64,
                            day: day_no,
                            start_time: l.start_time,
                            end_time: spec_add_u32(l.start_time as int, d) as u32,
                            activity: None,
                            link_id: Some(l.lid),
                            x: l.node.0,
                            y: l.node.1,
                        },
                    ],
                    b2,
                )
            } else {
                (Seq::empty(), b1)
            }
        },
    }
}

/// The walk of one day, from component `i` on.
pub open spec fn spec_day_from(
    plan: Seq<Component>,
    acts: Seq<usize>,
    planner: Seq<&ActivitySpec>,
    er: EnRouteSpec,
    pid: String,
    day_no: u32,
    b: BatteryState,
    i: int,
) -> (Seq<Event>, BatteryState)
    decreases plan.len() - i,
{
    if i < 0 || i >= plan.len() {
        (Seq::empty(), b)
    } else {
        let (evs, b1) = spec_step(plan, i, acts, planner, er, pid, day_no, b);
        let (rest, b2) = spec_day_from(plan, acts, planner, er, pid, day_no, b1, i + 1);
        (evs + rest, b2)
    }
}

/// The battery at the start of day `d` (day numbers are one-based in
/// events; `d` here counts completed days).
pub open spec fn spec_day_start(
    plan: Seq<Component>,
    acts: Seq<usize>,
    planner: Seq<&ActivitySpec>,
    er: EnRouteSpec,
    pid: String,
    b0: BatteryState,
    d: int,
) -> BatteryState
    decreases d,
{
    if d <= 0 {
        b0
    } else {
        spec_day_from(
            plan,
            acts,
            planner,
            er,
            pid,
            d as u32,
            spec_day_start(plan, acts, planner, er, pid, b0, d - 1),
            0,
        ).1
    }
}

/// Whether day `d`'s end state comes within `precision` of an earlier
/// day's start.
pub open spec fn spec_closes_at(
    plan: Seq<Component>,
    acts: Seq<usize>,
    planner: Seq<&ActivitySpec>,
    er: EnRouteSpec,
    pid: String,
    b0: BatteryState,
    precision: i64,
    d: int,
) -> bool {
    exists|k: int|
        #![trigger spec_day_start(plan, acts, planner, er, pid, b0, k)]
        0 <= k <= d && abs_int(
            spec_day_start(plan, acts, planner, er, pid, b0, d + 1).state - spec_day_start(
                plan,
                acts,
                planner,
                er,
                pid,
                b0,
                k,
            ).state,
        ) < precision
}

/// The first day at or after `d`, within patience, that closes.
pub open spec fn spec_first_close(
    plan: Seq<Component>,
    acts: Seq<usize>,
    planner: Seq<&ActivitySpec>,
    er: EnRouteSpec,
    pid: String,
    b0: BatteryState,
    precision: i64,
    patience: int,
    d: int,
) -> Option<int>
    decreases patience - d,
{
    if d >= patience || d < 0 {
        None
    } else if spec_closes_at(plan, acts, planner, er, pid, b0, precision, d) {
        Some(d)
    } else {
        spec_first_close(plan, acts, planner, er, pid, b0, precision, patience, d + 1)
    }
}

/// What `simulate` returns: the day-by-day walk of §4.7 and §4.8, stopped
/// at the first closing day or force-closed at patience.
pub open spec fn spec_simulated(
    r: AgentSimulationRecord,
    plan: Seq<Component>,
    acts: Seq<usize>,
    planner: Seq<&ActivitySpec>,
    er: EnRouteSpec,
    pid: String,
    bspec: BatterySpec,
    tspec: TriggerSpec,
    precision: i64,
    patience: int,
) -> bool {
    let b0 = spec_battery_new(bspec, tspec);
    &&& r.pid == pid
    &&& r.close_precision == precision
    &&& r.wf()
    &&& r.days@.len() == r.history@.len()
    &&& (forall|d: int|
        0 <= d < r.history@.len() ==> r.history@[d] == spec_day_start(
            plan,
            acts,
            planner,
            er,
            pid,
            b0,
            d,
        ).state)
    &&& match spec_first_close(plan, acts, planner, er, pid, b0, precision, patience, 0) {
        Some(dc) => {
            let end = spec_day_start(plan, acts, planner, er, pid, b0, dc + 1).state;
            &&& r.history@.len() == dc + 1
            &&& r.slice_end is None
            &&& (forall|d: int|
                0 <= d < r.days@.len() ==> (#[trigger] r.days@[d]).events@ == spec_day_from(
                    plan,
                    acts,
                    planner,
                    er,
                    pid,
                    (d + 1) as u32,
                    spec_day_start(plan, acts, planner, er, pid, b0, d),
                    0,
                ).0)
            &&& r.slice_start <= dc
            &&& abs_int(end - r.history@[r.slice_start as int]) < precision
            &&& (forall|k: int|
                0 <= k < r.slice_start ==> abs_int(end - #[trigger] r.history@[k]) >= precision)
            &&& r.error == Some((end - r.history@[r.slice_start as int]) as i64)
        },
        None => {
            &&& r.history@.len() == patience + 1
            &&& (forall|d: int|
                0 <= d < patience ==> (#[trigger] r.days@[d]).events@ == spec_day_from(
                    plan,
                    acts,
                    planner,
                    er,
                    pid,
                    (d + 1) as u32,
                    spec_day_start(plan, acts, planner, er, pid, b0, d),
                    0,
                ).0)
            &&& r.days@[patience].events@.len() == 0
            &&& (r.slice_end matches Some(j) && ({
                let h = r.history@;
                let i = r.slice_start as int;
                &&& (i < j < h.len())
                &&& r.error == Some(clamp_i64(h[j as int] - h[i]) as i64)
                &&& (forall|a: int, b: int|
                    0 <= a < b < h.len() ==> spec_score_le(
                        spec_pair_leak(h, i, j as int),
                        j - i,
                        #[trigger] spec_pair_leak(h, a, b),
                        b - a,
                    ))
                &&& (forall|a: int, b: int|
                    0 <= a < b < h.len() && spec_pair_leak(h, i, j as int) == (
                    #[trigger] spec_pair_leak(h, a, b)) && j - i == b - a ==> (i < a || (i == a
                        && j <= b)))
            }))
        },
    }
}


/// The record's history matches the day-start states, so closing against
/// the history is closing in the day walk's terms.
proof fn lemma_close_iff(
    plan: Seq<Component>,
    acts: Seq<usize>,
    planner: Seq<&ActivitySpec>,
    er: EnRouteSpec,
    pid: String,
    b0: BatteryState,
    precision: i64,
    day: int,
    history: Seq<i64>,
    state: i64,
)
    requires
        day >= 0,
        history.len() == day + 1,
        forall|d: int|
            0 <= d < history.len() ==> history[d] == spec_day_start(
                plan,
                acts,
                planner,
                er,
                pid,
                b0,
                d,
            ).state,
        state == spec_day_start(plan, acts, planner, er, pid, b0, day + 1).state,
    ensures
        (exists|k: int|
            0 <= k < history.len() && abs_int(state - history[k]) < precision) <==> spec_closes_at(
            plan,
            acts,
            planner,
            er,
            pid,
            b0,
            precision,
            day,
        ),
{
    if exists|k: int| 0 <= k < history.len() && abs_int(state - history[k]) < precision {
        let k = choose|k: int| 0 <= k < history.len() && abs_int(state - history[k]) < precision;
        assert(history[k] == spec_day_start(plan, acts, planner, er, pid, b0, k).state);
    }
    if spec_closes_at(plan, acts, planner, er, pid, b0, precision, day) {
        let k = choose|k: int|
            #![trigger spec_day_start(plan, acts, planner, er, pid, b0, k)]
            0 <= k <= day && abs_int(
                spec_day_start(plan, acts, planner, er, pid, b0, day + 1).state - spec_day_start(
                    plan,
                    acts,
                    planner,
                    er,
                    pid,
                    b0,
                    k,
                ).state,
            ) < precision;
        assert(abs_int(state - history[k]) < precision);
    }
}

/// Simulate up to `patience` days.  Each day records the starting battery
/// state; on links the battery drains and, at or below the trigger, an
/// en-route charge sized by the look-ahead (or a full charge when no
/// activity is enabled) is taken; enabled activities charge for their
/// duration.  The simulation stops the first time the day-boundary state
/// comes within the closing precision of an earlier day's start; when
/// patience runs out, the best cycle is chosen instead.
#[verifier::rlimit(100)]
#[verifier::spinoff_prover]
pub fn simulate(
    pid: &String,
    trace: &Trace,
    charge_activities: &Vec<usize>,
    agent_config: &AgentConfig,
    activity_charging_planner: &ActivityChargingPlanner,
    config: &Config,
) -> (r: AgentSimulationRecord)
    requires
        config.precision is Some,
        config.patience matches Some(p) && 1 <= p <= u32::MAX - 1,
        agent_config.battery is Some,
        agent_config.battery->0.capacity >= 0,
        agent_config.trigger is Some,
        agent_config.en_route is Some,
        spec_acts_covered(trace.plan@, charge_activities@, *activity_charging_planner),
    ensures
        spec_simulated(
            r,
            trace.plan@,
            charge_activities@,
            activity_charging_planner.specs@,
            *agent_config.en_route->0,
            *pid,
            *agent_config.battery->0,
            *agent_config.trigger->0,
            config.precision->0,
            config.patience->0 as int,
        ),
        r.pid@ == pid@,
        r.close_precision == config.precision->0,
        r.wf(),
        r.days@.len() == r.history@.len(),
        r.days@.len() >= 1,
        r.slice_start < r.history@.len(),
        match r.slice_end {
            None => r.error matches Some(e) && abs_int(e as int) < r.close_precision,
            Some(j) => ({
                let h = r.history@;
                let i = r.slice_start as int;
                &&& (i < j < h.len())
                &&& r.error == Some(clamp_i64(h[j as int] - h[i]) as i64)
                &&& forall|a: int, b: int|
                    0 <= a < b < h.len() ==> spec_score_le(
                        spec_pair_leak(h, i, j as int),
                        j - i,
                        #[trigger] spec_pair_leak(h, a, b),
                        b - a,
                    )
            }),
        },
{
    let close_precision = match config.precision {
        Some(p) => p,
        None => 0,
    };
    let max_days = match config.patience {
        Some(p) => p,
        None => 0,
    };
    let battery_spec = match agent_config.battery {
        Some(b) => b,
        None => {
            return AgentSimulationRecord::empty(pid.clone());
        },
    };
    let trigger_spec = match agent_config.trigger {
        Some(t) => t,
        None => {
            return AgentSimulationRecord::empty(pid.clone());
        },
    };
    let en_route_spec = match agent_config.en_route {
        Some(e) => e,
        None => {
            return AgentSimulationRecord::empty(pid.clone());
        },
    };
    let mut battery = BatteryState::new(battery_spec, trigger_spec);
    let mut simulation_record = AgentSimulationRecord::new(pid.clone(), close_precision);
    let n = trace.len();
    let ghost plan = trace.plan@;
    let ghost acts = charge_activities@;
    let ghost pl = activity_charging_planner.specs@;
    let ghost ger = *en_route_spec;
    let ghost gpid = *pid;
    let ghost b0 = spec_battery_new(*battery_spec, *trigger_spec);
    for day in 0..max_days
        invariant
            n == trace.plan@.len(),
            1 <= max_days <= u32::MAX - 1,
            simulation_record.pid@ == pid@,
            simulation_record.pid == *pid,
            close_precision == config.precision->0,
            simulation_record.close_precision == close_precision,
            simulation_record.slice_start == 0,
            simulation_record.slice_end is None,
            simulation_record.error is None,
            simulation_record.days@.len() == day,
            simulation_record.history@.len() == day,
            spec_acts_covered(trace.plan@, charge_activities@, *activity_charging_planner),
            plan == trace.plan@,
            acts == charge_activities@,
            pl == activity_charging_planner.specs@,
            ger == *en_route_spec,
            gpid == *pid,
            b0 == spec_battery_new(*battery_spec, *trigger_spec),
            max_days == config.patience->0,
            *battery_spec == *agent_config.battery->0,
            *trigger_spec == *agent_config.trigger->0,
            *en_route_spec == *agent_config.en_route->0,
            battery.capacity >= 0,
            battery == spec_day_start(plan, acts, pl, ger, gpid, b0, day as int),
            forall|d: int|
                0 <= d < day ==> simulation_record.history@[d] == spec_day_start(
                    plan,
                    acts,
                    pl,
                    ger,
                    gpid,
                    b0,
                    d,
                ).state,
            forall|d: int|
                0 <= d < day ==> (#[trigger] simulation_record.days@[d]).events@ == spec_day_from(
                    plan,
                    acts,
                    pl,
                    ger,
                    gpid,
                    (d + 1) as u32,
                    spec_day_start(plan, acts, pl, ger, gpid, b0, d),
                    0,
                ).0,
            spec_first_close(
                plan,
                acts,
                pl,
                ger,
                gpid,
                b0,
                close_precision,
                max_days as int,
                0,
            ) == spec_first_close(
                plan,
                acts,
                pl,
                ger,
                gpid,
                b0,
                close_precision,
                max_days as int,
                day as int,
            ),
    {
        let ghost bday = battery;
        let ghost day_no: u32 = ((day + 1) as u32);
        simulation_record.new_day(battery.state);
        for i in 0..n
            invariant
                n == trace.plan@.len(),
                day < max_days <= u32::MAX - 1,
                simulation_record.pid@ == pid@,
                simulation_record.pid == *pid,
                close_precision == config.precision->0,
                simulation_record.close_precision == close_precision,
                simulation_record.slice_start == 0,
                simulation_record.slice_end is None,
                simulation_record.error is None,
                simulation_record.days@.len() == day + 1,
                simulation_record.history@.len() == day + 1,
                spec_acts_covered(trace.plan@, charge_activities@, *activity_charging_planner),
                plan == trace.plan@,
                acts == charge_activities@,
                pl == activity_charging_planner.specs@,
                ger == *en_route_spec,
                gpid == *pid,
                b0 == spec_battery_new(*battery_spec, *trigger_spec),
                day_no == day + 1,
                battery.capacity >= 0,
                bday == spec_day_start(plan, acts, pl, ger, gpid, b0, day as int),
                forall|d: int|
                    0 <= d < day ==> simulation_record.history@[d] == spec_day_start(
                        plan,
                        acts,
                        pl,
                        ger,
                        gpid,
                        b0,
                        d,
                    ).state,
                simulation_record.history@[day as int] == bday.state,
                forall|d: int|
                    0 <= d < day ==> (#[trigger] simulation_record.days@[d]).events@
                        == spec_day_from(
                        plan,
                        acts,
                        pl,
                        ger,
                        gpid,
                        (d + 1) as u32,
                        spec_day_start(plan, acts, pl, ger, gpid, b0, d),
                        0,
                    ).0,
                ({
                    let full = spec_day_from(plan, acts, pl, ger, gpid, day_no, bday, 0);
                    let rem = spec_day_from(plan, acts, pl, ger, gpid, day_no, battery, i as int);
                    full.0 == simulation_record.days@[day as int].events@ + rem.0 && full.1
                        == rem.1
                }),
                spec_first_close(
                    plan,
                    acts,
                    pl,
                    ger,
                    gpid,
                    b0,
                    close_precision,
                    max_days as int,
                    0,
                ) == spec_first_close(
                    plan,
                    acts,
                    pl,
                    ger,
                    gpid,
                    b0,
                    close_precision,
                    max_days as int,
                    day as int,
                ),
        {
            let ghost b_in = battery;
            let ghost evs_pre = simulation_record.days@[day as int].events@;
            match trace.get(i) {
                Component::ActivityType(activity) => {
                    if contains_idx(charge_activities, i) {
                        let charge_spec = match activity_charging_planner.get(&activity.act) {
                            Some(s) => s,
                            None => {
                                proof {
                                    let k = choose|k: int|
                                        0 <= k < charge_activities@.len() && (
                                        #[trigger] charge_activities@[k]) as int == i as int;
                                    assert(trace.plan@[charge_activities@[k] as int]
                                        is ActivityType);
                                    crate::charge_plan::lemma_last_charging_none(
                                        activity_charging_planner.specs@,
                                        activity.act@,
                                    );
                                    assert(false);
                                }
                                crate::groups::ActivitySpec::new(None, Vec::new(), 0, None, None)
                            },
                        };
                        let (charge, charge_duration) = battery.charge_for_duration(
                            activity.duration(),
                            charge_spec.charge_rate,
                        );
                        if charge > 0 {
                            let span_end = add_sat_u32(activity.start_time, charge_duration);
                            let e = Event::activity(
                                pid.clone(),
                                charge_spec.name,
                                charge,
                                day as u32 + 1,
                                (activity.start_time, span_end),
                                activity.act.clone(),
                                activity.node,
                            );
                            let ghost e0 = e;
                            simulation_record.add_event(e);
                            proof {
                                assert(spec_step(plan, i as int, acts, pl, ger, gpid, day_no, b_in)
                                    == (seq![e0], battery));
                                assert(simulation_record.days@[day as int].events@ + spec_day_from(
                                    plan,
                                    acts,
                                    pl,
                                    ger,
                                    gpid,
                                    day_no,
                                    battery,
                                    i + 1,
                                ).0 =~= evs_pre + (seq![e0] + spec_day_from(
                                    plan,
                                    acts,
                                    pl,
                                    ger,
                                    gpid,
                                    day_no,
                                    battery,
                                    i + 1,
                                ).0));
                            }
                        } else {
                            proof {
                                assert(spec_step(plan, i as int, acts, pl, ger, gpid, day_no, b_in)
                                    == (Seq::<Event>::empty(), battery));
                                assert(Seq::<Event>::empty() + spec_day_from(
                                    plan,
                                    acts,
                                    pl,
                                    ger,
                                    gpid,
                                    day_no,
                                    battery,
                                    i + 1,
                                ).0 =~= spec_day_from(plan, acts, pl, ger, gpid, day_no, battery, i + 1).0);
                            }
                        }
                    } else {
                        proof {
                            assert(spec_step(plan, i as int, acts, pl, ger, gpid, day_no, b_in)
                                == (Seq::<Event>::empty(), battery));
                            assert(Seq::<Event>::empty() + spec_day_from(
                                plan,
                                acts,
                                pl,
                                ger,
                                gpid,
                                day_no,
                                battery,
                                i + 1,
                            ).0 =~= spec_day_from(plan, acts, pl, ger, gpid, day_no, battery, i + 1).0);
                        }
                    }
                },
                Component::LinkType(link) => {
                    battery.apply_distance(link.distance);
                    if battery.must_charge() {
                        let (charge, duration) = if charge_activities.len() == 0 {
                            battery.charge_to_full(en_route_spec.charge_rate)
                        } else {
                            let needed = plan_ahead(
                                trace,
                                charge_activities,
                                i,
                                battery.consumption_rate,
                            );
                            battery.charge_to_desired(needed, en_route_spec.charge_rate)
                        };
                        let span_end = add_sat_u32(link.start_time, duration);
                        let e = Event::en_route(
                            pid.clone(),
                            crate::groups::clone_opt_string(&en_route_spec.name),
                            charge,
                            day as u32 + 1,
                            (link.start_time, span_end),
                            link.lid.clone(),
                            link.node,
                        );
                        let ghost e0 = e;
                        simulation_record.add_event(e);
                        proof {
                            assert(spec_step(plan, i as int, acts, pl, ger, gpid, day_no, b_in)
                                == (seq![e0], battery));
                            assert(simulation_record.days@[day as int].events@ + spec_day_from(
                                plan,
                                acts,
                                pl,
                                ger,
                                gpid,
                                day_no,
                                battery,
                                i + 1,
                            ).0 =~= evs_pre + (seq![e0] + spec_day_from(
                                plan,
                                acts,
                                pl,
                                ger,
                                gpid,
                                day_no,
                                battery,
                                i + 1,
                            ).0));
                        }
                    } else {
                        proof {
                            assert(spec_step(plan, i as int, acts, pl, ger, gpid, day_no, b_in)
                                == (Seq::<Event>::empty(), battery));
                            assert(Seq::<Event>::empty() + spec_day_from(
                                plan,
                                acts,
                                pl,
                                ger,
                                gpid,
                                day_no,
                                battery,
                                i + 1,
                            ).0 =~= spec_day_from(plan, acts, pl, ger, gpid, day_no, battery, i + 1).0);
                        }
                    }
                },
            }
        }
        proof {
            assert(spec_day_from(plan, acts, pl, ger, gpid, day_no, battery, n as int) == (
            Seq::<Event>::empty(),
            battery,
            ));
            assert(simulation_record.days@[day as int].events@ + Seq::<Event>::empty()
                =~= simulation_record.days@[day as int].events@);
            assert(battery == spec_day_start(plan, acts, pl, ger, gpid, b0, day + 1)) by {
                assert((day + 1) as u32 == day_no);
            }
        }
        proof {
            lemma_close_iff(
                plan,
                acts,
                pl,
                ger,
                gpid,
                b0,
                close_precision,
                day as int,
                simulation_record.history@,
                battery.state,
            );
        }
        if simulation_record.try_to_close(battery.state) {
            proof {
                assert(spec_first_close(
                    plan,
                    acts,
                    pl,
                    ger,
                    gpid,
                    b0,
                    close_precision,
                    max_days as int,
                    day as int,
                ) == Some(day as int));
                assert(spec_first_close(
                    plan,
                    acts,
                    pl,
                    ger,
                    gpid,
                    b0,
                    close_precision,
                    max_days as int,
                    0,
                ) == Some(day as int));
                assert(simulation_record.history@.len() == day + 1);
                assert(forall|d: int|
                    0 <= d < simulation_record.history@.len()
                        ==> simulation_record.history@[d] == spec_day_start(
                        plan,
                        acts,
                        pl,
                        ger,
                        gpid,
                        b0,
                        d,
                    ).state);
                assert forall|d: int|
                    0 <= d < simulation_record.days@.len() implies (
                #[trigger] simulation_record.days@[d]).events@ == spec_day_from(
                    plan,
                    acts,
                    pl,
                    ger,
                    gpid,
                    (d + 1) as u32,
                    spec_day_start(plan, acts, pl, ger, gpid, b0, d),
                    0,
                ).0 by {
                    if d == day {
                        assert((d + 1) as u32 == day_no);
                        assert(spec_day_start(plan, acts, pl, ger, gpid, b0, d) == bday);
                    }
                }
                assert(spec_simulated(
                    simulation_record,
                    plan,
                    acts,
                    pl,
                    ger,
                    gpid,
                    *battery_spec,
                    *trigger_spec,
                    close_precision,
                    max_days as int,
                ));
            }
            return simulation_record;
        }
    }
    proof {
        assert(spec_first_close(
            plan,
            acts,
            pl,
            ger,
            gpid,
            b0,
            close_precision,
            max_days as int,
            0,
        ) is None);
    }
    simulation_record.new_day(battery.state);
    simulation_record.force_close();
    simulation_record
}

} // verus!
