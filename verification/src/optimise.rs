//! The optimiser: enumerate charging subsets by size, simulate each, keep
//! the lexicographically best score, and stop early once a size closes with
//! no en-route charging at all.

use vstd::prelude::*;
use crate::charge_plan::{spec_charges_at, spec_flat_names, ActivityChargingPlanner};
use crate::config::{BatsimConfigError, Config};
use crate::groups::ActivitySpec;
use crate::handler::AgentConfig;
use crate::population::{spec_combs, spec_combination_groups_ok, spec_viable_set_ok, Person};
use crate::arith::clamp_i64;
use crate::record::{abs_int, spec_pair_leak, spec_score_le, AgentSimulationRecord};
use crate::scoring::{lemma_sim_score_unique, score_events, spec_score_lt, spec_score_of, Score};
use crate::sim::{simulate, spec_acts_covered, spec_simulated};

verus! {

/// A name found among the flattened activity names belongs to one of the
/// specs.
proof fn lemma_flat_name_charges(specs: Seq<&ActivitySpec>, i: int, k: int)
    requires
        0 <= i <= specs.len(),
        0 <= k < spec_flat_names(specs, i).len(),
    ensures
        exists|j: int|
            0 <= j < specs.len() && spec_charges_at(
                *(#[trigger] specs[j]),
                spec_flat_names(specs, i)[k]@,
            ),
    decreases i,
{
    let flat = spec_flat_names(specs, i);
    let prev = spec_flat_names(specs, i - 1);
    if k < prev.len() {
        lemma_flat_name_charges(specs, i - 1, k);
        assert(flat[k] == prev[k]);
    } else {
        assert(flat[k] == specs[i - 1].activities@[k - prev.len()]);
        assert(spec_charges_at(*specs[i - 1], flat[k]@));
    }
}

/// Every element of every combination is drawn from the tail of the list.
proof fn lemma_combs_elements(s: Seq<usize>, from: int, k: int, ci: int, ei: int)
    requires
        0 <= from <= s.len(),
        0 <= ci < spec_combs(s, from, k).len(),
        0 <= ei < spec_combs(s, from, k)[ci].len(),
    ensures
        exists|w: int| from <= w < s.len() && s[w] == spec_combs(s, from, k)[ci][ei],
    decreases s.len() - from,
{
    let combs = spec_combs(s, from, k);
    if k <= 0 {
        assert(combs[ci].len() == 0);
    } else if from >= s.len() {
        assert(combs.len() == 0);
    } else {
        let withf = spec_combs(s, from + 1, k - 1).map_values(|c: Seq<usize>| seq![s[from]] + c);
        let rest = spec_combs(s, from + 1, k);
        if ci < withf.len() {
            let base = spec_combs(s, from + 1, k - 1)[ci];
            assert(combs[ci] == seq![s[from]] + base);
            if ei == 0 {
                assert(combs[ci][0] == s[from]);
            } else {
                assert(combs[ci][ei] == base[ei - 1]);
                lemma_combs_elements(s, from + 1, k - 1, ci, ei - 1);
            }
        } else {
            assert(combs[ci] == rest[ci - withf.len()]);
            lemma_combs_elements(s, from + 1, k, ci - withf.len(), ei);
        }
    }
}

/// The smallest subset size tried: zero when there is no viable activity
/// (the single empty subset), one otherwise.
pub open spec fn spec_kmin(viable: Seq<usize>) -> int {
    if viable.len() == 0 {
        0
    } else {
        1
    }
}


/// The whole optimiser guarantee, for a given activity-spec list: there is
/// an enumeration bound under which the record is a best simulation.
pub open spec fn spec_best_result(
    rec: AgentSimulationRecord,
    plan: Seq<crate::trace::Component>,
    specs: Seq<&ActivitySpec>,
    er: crate::groups::EnRouteSpec,
    pid: String,
    bspec: crate::groups::BatterySpec,
    tspec: crate::groups::TriggerSpec,
    precision: i64,
    patience: int,
) -> bool {
    exists|viable: Seq<usize>, kmax: int|
        #![trigger spec_combs(viable.reverse(), 0, kmax)]
        spec_viable_set_ok(plan, spec_names_of_specs(specs), viable) && spec_best_over(
            rec,
            viable,
            kmax,
            plan,
            specs,
            er,
            pid,
            bspec,
            tspec,
            precision,
            patience,
        )
}

/// The activity names of a spec list, as character sequences.
pub open spec fn spec_names_of_specs(specs: Seq<&ActivitySpec>) -> Seq<Seq<char>> {
    Seq::new(
        spec_flat_names(specs, specs.len() as int).len(),
        |k: int| spec_flat_names(specs, specs.len() as int)[k]@,
    )
}

/// The planner's activity names as character sequences.
pub open spec fn spec_planner_names(planner: ActivityChargingPlanner) -> Seq<Seq<char>> {
    spec_names_of_specs(planner.specs@)
}

/// The optimiser's guarantee: the record simulates one of the enumerated
/// charging subsets of size up to `kmax`, no simulation of any enumerated
/// subset scores better, and — since subsets are enumerated smallest size
/// first and, within a size, in combination order over the reversed viable
/// list — everything enumerated strictly before the chosen subset scores
/// strictly worse.  The first subset to attain the best score is kept,
/// which prefers later activities on ties.
pub open spec fn spec_best_over(
    rec: AgentSimulationRecord,
    viable: Seq<usize>,
    kmax: int,
    plan: Seq<crate::trace::Component>,
    planner: Seq<&ActivitySpec>,
    er: crate::groups::EnRouteSpec,
    pid: String,
    bspec: crate::groups::BatterySpec,
    tspec: crate::groups::TriggerSpec,
    precision: i64,
    patience: int,
) -> bool {
    &&& (if viable.len() == 0 {
        kmax == 0
    } else {
        1 <= kmax <= viable.len() && (kmax == viable.len() || spec_score_of(rec).0 == 0)
    })
    &&& (forall|k: int, c: int, r2: AgentSimulationRecord|
        spec_kmin(viable) <= k <= kmax && 0 <= c < spec_combs(viable.reverse(), 0, k).len()
            && #[trigger] spec_simulated(
            r2,
            plan,
            spec_combs(viable.reverse(), 0, k)[c],
            planner,
            er,
            pid,
            bspec,
            tspec,
            precision,
            patience,
        ) ==> !spec_score_lt(spec_score_of(r2), spec_score_of(rec)))
    &&& (exists|k: int, c: int|
        #![trigger spec_combs(viable.reverse(), 0, k)[c]]
        spec_kmin(viable) <= k <= kmax && 0 <= c < spec_combs(viable.reverse(), 0, k).len()
            && spec_simulated(
            rec,
            plan,
            spec_combs(viable.reverse(), 0, k)[c],
            planner,
            er,
            pid,
            bspec,
            tspec,
            precision,
            patience,
        ) && (forall|k2: int, c2: int, r2: AgentSimulationRecord|
            spec_kmin(viable) <= k2 && 0 <= c2 < spec_combs(viable.reverse(), 0, k2).len() && (
            k2 < k || (k2 == k && c2 < c)) && #[trigger] spec_simulated(
                r2,
                plan,
                spec_combs(viable.reverse(), 0, k2)[c2],
                planner,
                er,
                pid,
                bspec,
                tspec,
                precision,
                patience,
            ) ==> spec_score_lt(spec_score_of(rec), spec_score_of(r2))))
}


/// A simulated record's slice spans at least one day.
proof fn lemma_sim_days_pos(
    r: AgentSimulationRecord,
    plan: Seq<crate::trace::Component>,
    acts: Seq<usize>,
    planner: Seq<&ActivitySpec>,
    er: crate::groups::EnRouteSpec,
    pid: String,
    bspec: crate::groups::BatterySpec,
    tspec: crate::groups::TriggerSpec,
    precision: i64,
    patience: int,
)
    requires
        patience >= 1,
        spec_simulated(r, plan, acts, planner, er, pid, bspec, tspec, precision, patience),
    ensures
        spec_score_of(r).3 >= 1,
        r.wf(),
{
}

/// For an agent with a battery: try the charging subsets in order and keep
/// the record whose score is lexicographically least, stopping early after
/// a subset size whose best has no en-route events.  The chosen record
/// simulates one of the enumerated subsets and scores no worse than any
/// simulation of any enumerated subset.
#[verifier::rlimit(100)]
#[verifier::spinoff_prover]
pub fn run_simulations(
    pid: &String,
    person: &Person,
    agent_config: &AgentConfig,
    activity_charging_planner: &ActivityChargingPlanner,
    config: &Config,
) -> (r: Option<AgentSimulationRecord>)
    requires
        config.precision is Some,
        config.patience matches Some(p) && 1 <= p <= u32::MAX - 1,
        agent_config.battery is Some,
        agent_config.battery->0.capacity >= 0,
        agent_config.trigger is Some,
        agent_config.en_route is Some,
    ensures
        r matches Some(rec) && ({
            &&& rec.wf()
            &&& rec.pid@ == pid@
            &&& rec.close_precision == config.precision->0
            &&& rec.days@.len() == rec.history@.len() >= 1
            &&& rec.slice_start < rec.history@.len()
            &&& (match rec.slice_end {
                None => rec.error matches Some(e) && abs_int(e as int) < rec.close_precision,
                Some(j) => ({
                    let h = rec.history@;
                    let i = rec.slice_start as int;
                    &&& (i < j < h.len())
                    &&& rec.error == Some(clamp_i64(h[j as int] - h[i]) as i64)
                    &&& forall|a: int, b: int|
                        0 <= a < b < h.len() ==> spec_score_le(
                            spec_pair_leak(h, i, j as int),
                            j - i,
                            #[trigger] spec_pair_leak(h, a, b),
                            b - a,
                        )
                }),
            })
            &&& spec_best_result(
                rec,
                person.trace.plan@,
                activity_charging_planner.specs@,
                *agent_config.en_route->0,
                *pid,
                *agent_config.battery->0,
                *agent_config.trigger->0,
                config.precision->0,
                config.patience->0 as int,
            )
        }),
{
    let activities = activity_charging_planner.activities();
    let charge_options = person.viable_combinations(&activities);
    let ghost names = activities@.map_values(|s: &String| s@);
    let ghost viable = choose|v: Seq<usize>|
        spec_viable_set_ok(person.trace.plan@, names, v) && spec_combination_groups_ok(
            charge_options@,
            v,
        );
    proof {
        assert(names =~= spec_planner_names(*activity_charging_planner));
    }
    let ghost plan = person.trace.plan@;
    let ghost pl = activity_charging_planner.specs@;
    let ghost ger = *agent_config.en_route->0;
    let ghost gpid = *pid;
    let ghost gb = *agent_config.battery->0;
    let ghost gt = *agent_config.trigger->0;
    let ghost prec = config.precision->0;
    let ghost pat = config.patience->0 as int;
    let ghost kmin = spec_kmin(viable);
    let ghost mut best_k: int = 0;
    let ghost mut best_c: int = 0;
    let mut best: Option<(AgentSimulationRecord, Score)> = None;
    let og = charge_options.len();
    for g in 0..og
        invariant
            og == charge_options@.len(),
            config.precision is Some,
            config.patience matches Some(p) && 1 <= p <= u32::MAX - 1,
            agent_config.battery is Some,
            agent_config.battery->0.capacity >= 0,
            agent_config.trigger is Some,
            agent_config.en_route is Some,
            spec_viable_set_ok(person.trace.plan@, names, viable),
            spec_combination_groups_ok(charge_options@, viable),
            names == activities@.map_values(|s: &String| s@),
            names == spec_planner_names(*activity_charging_planner),
            forall|k: int|
                0 <= k < activities@.len() ==> *(#[trigger] activities@[k]) == spec_flat_names(
                    activity_charging_planner.specs@,
                    activity_charging_planner.specs@.len() as int,
                )[k],
            activities@.len() == spec_flat_names(
                activity_charging_planner.specs@,
                activity_charging_planner.specs@.len() as int,
            ).len(),
            plan == person.trace.plan@,
            pl == activity_charging_planner.specs@,
            ger == *agent_config.en_route->0,
            gpid == *pid,
            gb == *agent_config.battery->0,
            gt == *agent_config.trigger->0,
            prec == config.precision->0,
            pat == config.patience->0 as int,
            kmin == spec_kmin(viable),
            g > 0 ==> best is Some,
            match best {
                Some((rec, sc)) => {
                    &&& sc@ == spec_score_of(rec)
                    &&& sc@.3 > 0
                    &&& rec.wf()
                    &&& rec.pid@ == pid@
                    &&& rec.close_precision == config.precision->0
                    &&& rec.days@.len() == rec.history@.len() >= 1
                    &&& rec.slice_start < rec.history@.len()
                    &&& (match rec.slice_end {
                        None => rec.error matches Some(e) && abs_int(e as int)
                            < rec.close_precision,
                        Some(j) => ({
                            let h = rec.history@;
                            let i = rec.slice_start as int;
                            &&& (i < j < h.len())
                            &&& rec.error == Some(clamp_i64(h[j as int] - h[i]) as i64)
                            &&& forall|a: int, b: int|
                                0 <= a < b < h.len() ==> spec_score_le(
                                    spec_pair_leak(h, i, j as int),
                                    j - i,
                                    #[trigger] spec_pair_leak(h, a, b),
                                    b - a,
                                )
                        }),
                    })
                    &&& (forall|k: int, c: int, r2: AgentSimulationRecord|
                        kmin <= k <= g + kmin - 1 && 0 <= c < spec_combs(
                            viable.reverse(),
                            0,
                            k,
                        ).len() && #[trigger] spec_simulated(
                            r2,
                            plan,
                            spec_combs(viable.reverse(), 0, k)[c],
                            pl,
                            ger,
                            gpid,
                            gb,
                            gt,
                            prec,
                            pat,
                        ) ==> !spec_score_lt(spec_score_of(r2), sc@))
                    &&& kmin <= best_k <= g + kmin - 1
                    &&& 0 <= best_c < spec_combs(viable.reverse(), 0, best_k).len()
                    &&& spec_simulated(
                        rec,
                        plan,
                        spec_combs(viable.reverse(), 0, best_k)[best_c],
                        pl,
                        ger,
                        gpid,
                        gb,
                        gt,
                        prec,
                        pat,
                    )
                    &&& (forall|k2: int, c2: int, r2: AgentSimulationRecord|
                        kmin <= k2 && 0 <= c2 < spec_combs(viable.reverse(), 0, k2).len() && (
                        k2 < best_k || (k2 == best_k && c2 < best_c)) && #[trigger] spec_simulated(
                            r2,
                            plan,
                            spec_combs(viable.reverse(), 0, k2)[c2],
                            pl,
                            ger,
                            gpid,
                            gb,
                            gt,
                            prec,
                            pat,
                        ) ==> spec_score_lt(sc@, spec_score_of(r2)))
                },
                None => g == 0,
            },
    {
        let ghost ksize: int = if viable.len() == 0 {
            0
        } else {
            g + 1
        };
        let oc = charge_options[g].len();
        proof {
            assert(charge_options@[g as int]@.map_values(|cc: Vec<usize>| cc@) == spec_combs(
                viable.reverse(),
                0,
                ksize,
            ));
        }
        for c in 0..oc
            invariant
                og == charge_options@.len(),
                g < og,
                oc == charge_options@[g as int]@.len(),
                config.precision is Some,
                config.patience matches Some(p) && 1 <= p <= u32::MAX - 1,
                agent_config.battery is Some,
                agent_config.battery->0.capacity >= 0,
                agent_config.trigger is Some,
                agent_config.en_route is Some,
                spec_viable_set_ok(person.trace.plan@, names, viable),
                spec_combination_groups_ok(charge_options@, viable),
                names == activities@.map_values(|s: &String| s@),
                forall|k: int|
                    0 <= k < activities@.len() ==> *(#[trigger] activities@[k])
                        == spec_flat_names(
                        activity_charging_planner.specs@,
                        activity_charging_planner.specs@.len() as int,
                    )[k],
                activities@.len() == spec_flat_names(
                    activity_charging_planner.specs@,
                    activity_charging_planner.specs@.len() as int,
                ).len(),
                plan == person.trace.plan@,
                pl == activity_charging_planner.specs@,
                ger == *agent_config.en_route->0,
                gpid == *pid,
                gb == *agent_config.battery->0,
                gt == *agent_config.trigger->0,
                prec == config.precision->0,
                pat == config.patience->0 as int,
                kmin == spec_kmin(viable),
                ksize == (if viable.len() == 0 { 0int } else { g + 1 }),
                charge_options@[g as int]@.map_values(|cc: Vec<usize>| cc@) == spec_combs(
                    viable.reverse(),
                    0,
                    ksize,
                ),
                (g > 0 || c > 0) ==> best is Some,
                match best {
                    Some((rec, sc)) => {
                        &&& sc@ == spec_score_of(rec)
                        &&& sc@.3 > 0
                        &&& rec.wf()
                        &&& rec.pid@ == pid@
                        &&& rec.close_precision == config.precision->0
                        &&& rec.days@.len() == rec.history@.len() >= 1
                        &&& rec.slice_start < rec.history@.len()
                        &&& (match rec.slice_end {
                            None => rec.error matches Some(e) && abs_int(e as int)
                                < rec.close_precision,
                            Some(j) => ({
                                let h = rec.history@;
                                let i = rec.slice_start as int;
                                &&& (i < j < h.len())
                                &&& rec.error == Some(clamp_i64(h[j as int] - h[i]) as i64)
                                &&& forall|a: int, b: int|
                                    0 <= a < b < h.len() ==> spec_score_le(
                                        spec_pair_leak(h, i, j as int),
                                        j - i,
                                        #[trigger] spec_pair_leak(h, a, b),
                                        b - a,
                                    )
                            }),
                        })
                        &&& (forall|k: int, c2: int, r2: AgentSimulationRecord|
                            kmin <= k <= g + kmin - 1 && 0 <= c2 < spec_combs(
                                viable.reverse(),
                                0,
                                k,
                            ).len() && #[trigger] spec_simulated(
                                r2,
                                plan,
                                spec_combs(viable.reverse(), 0, k)[c2],
                                pl,
                                ger,
                                gpid,
                                gb,
                                gt,
                                prec,
                                pat,
                            ) ==> !spec_score_lt(spec_score_of(r2), sc@))
                        &&& (forall|c2: int, r2: AgentSimulationRecord|
                            0 <= c2 < c && #[trigger] spec_simulated(
                                r2,
                                plan,
                                spec_combs(viable.reverse(), 0, ksize)[c2],
                                pl,
                                ger,
                                gpid,
                                gb,
                                gt,
                                prec,
                                pat,
                            ) ==> !spec_score_lt(spec_score_of(r2), sc@))
                        &&& kmin <= best_k <= ksize
                        &&& (best_k < ksize || best_c < c)
                        &&& 0 <= best_c < spec_combs(viable.reverse(), 0, best_k).len()
                        &&& spec_simulated(
                            rec,
                            plan,
                            spec_combs(viable.reverse(), 0, best_k)[best_c],
                            pl,
                            ger,
                            gpid,
                            gb,
                            gt,
                            prec,
                            pat,
                        )
                        &&& (forall|k2: int, c2: int, r2: AgentSimulationRecord|
                            kmin <= k2 && 0 <= c2 < spec_combs(viable.reverse(), 0, k2).len()
                                && (k2 < best_k || (k2 == best_k && c2 < best_c))
                                && #[trigger] spec_simulated(
                                r2,
                                plan,
                                spec_combs(viable.reverse(), 0, k2)[c2],
                                pl,
                                ger,
                                gpid,
                                gb,
                                gt,
                                prec,
                                pat,
                            ) ==> spec_score_lt(sc@, spec_score_of(r2)))
                    },
                    None => g == 0 && c == 0,
                },
        {
            let charge_activities = &charge_options[g][c];
            proof {
                lemma_subset_covered(
                    person.trace.plan@,
                    names,
                    viable,
                    charge_options@,
                    g as int,
                    c as int,
                    *activity_charging_planner,
                    activities@,
                );
                assert(charge_activities@ == spec_combs(viable.reverse(), 0, ksize)[c as int]);
            }
            let simulation_record = simulate(
                pid,
                &person.trace,
                charge_activities,
                agent_config,
                activity_charging_planner,
                config,
            );
            let score = score_events(&simulation_record);
            proof {
                lemma_sim_days_pos(
                    simulation_record,
                    plan,
                    charge_activities@,
                    pl,
                    ger,
                    gpid,
                    gb,
                    gt,
                    prec,
                    pat,
                );
            }
            let replace = match &best {
                None => true,
                Some((_, best_score)) => score.lt(best_score),
            };
            if replace {
                proof {
                    assert forall|k: int, c2: int, r2: AgentSimulationRecord|
                        kmin <= k <= g + kmin - 1 && 0 <= c2 < spec_combs(
                            viable.reverse(),
                            0,
                            k,
                        ).len() && #[trigger] spec_simulated(
                            r2,
                            plan,
                            spec_combs(viable.reverse(), 0, k)[c2],
                            pl,
                            ger,
                            gpid,
                            gb,
                            gt,
                            prec,
                            pat,
                        ) implies !spec_score_lt(spec_score_of(r2), score@) by {
                        match &best {
                            Some((_, sc)) => {
                                lemma_score_order(spec_score_of(r2), sc@, score@);
                            },
                            None => {
                                assert(false);
                            },
                        }
                    }
                    assert forall|k2: int, c2: int, r2: AgentSimulationRecord|
                        kmin <= k2 && 0 <= c2 < spec_combs(viable.reverse(), 0, k2).len() && (
                        k2 < ksize || (k2 == ksize && c2 < c)) && #[trigger] spec_simulated(
                            r2,
                            plan,
                            spec_combs(viable.reverse(), 0, k2)[c2],
                            pl,
                            ger,
                            gpid,
                            gb,
                            gt,
                            prec,
                            pat,
                        ) implies spec_score_lt(score@, spec_score_of(r2)) by {
                        match &best {
                            Some((_, sc)) => {
                                lemma_sim_days_pos(
                                    r2,
                                    plan,
                                    spec_combs(viable.reverse(), 0, k2)[c2],
                                    pl,
                                    ger,
                                    gpid,
                                    gb,
                                    gt,
                                    prec,
                                    pat,
                                );
                                lemma_score_strict(score@, sc@, spec_score_of(r2));
                            },
                            None => {
                                assert(false);
                            },
                        }
                    }
                    best_k = ksize;
                    best_c = c as int;
                    assert forall|c2: int, r2: AgentSimulationRecord|
                        0 <= c2 < c + 1 && #[trigger] spec_simulated(
                            r2,
                            plan,
                            spec_combs(viable.reverse(), 0, ksize)[c2],
                            pl,
                            ger,
                            gpid,
                            gb,
                            gt,
                            prec,
                            pat,
                        ) implies !spec_score_lt(spec_score_of(r2), score@) by {
                        if c2 == c {
                            lemma_sim_score_unique(
                                r2,
                                simulation_record,
                                plan,
                                spec_combs(viable.reverse(), 0, ksize)[c2],
                                pl,
                                ger,
                                gpid,
                                gb,
                                gt,
                                prec,
                                pat,
                            );
                            lemma_score_irrefl(score@);
                        } else {
                            match &best {
                                Some((_, sc)) => {
                                    lemma_score_order(spec_score_of(r2), sc@, score@);
                                },
                                None => {
                                    assert(false);
                                },
                            }
                        }
                    }
                }
                best = Some((simulation_record, score));
            } else {
                proof {
                    match &best {
                        Some((rec, sc)) => {
                            assert forall|c2: int, r2: AgentSimulationRecord|
                                0 <= c2 < c + 1 && #[trigger] spec_simulated(
                                    r2,
                                    plan,
                                    spec_combs(viable.reverse(), 0, ksize)[c2],
                                    pl,
                                    ger,
                                    gpid,
                                    gb,
                                    gt,
                                    prec,
                                    pat,
                                ) implies !spec_score_lt(spec_score_of(r2), sc@) by {
                                if c2 == c {
                                    lemma_sim_score_unique(
                                        r2,
                                        simulation_record,
                                        plan,
                                        spec_combs(viable.reverse(), 0, ksize)[c2],
                                        pl,
                                        ger,
                                        gpid,
                                        gb,
                                        gt,
                                        prec,
                                        pat,
                                    );
                                }
                            }
                        },
                        None => {
                            assert(false);
                        },
                    }
                }
            }
        }
        proof {
            if g == 0 {
                if viable.len() == 0 {
                    assert(charge_options@[0]@.map_values(|cc: Vec<usize>| cc@) == spec_combs(
                        viable.reverse(),
                        0,
                        0,
                    ));
                    assert(spec_combs(viable.reverse(), 0, 0) =~= seq![Seq::<usize>::empty()]);
                    assert(oc == 1);
                } else {
                    lemma_combs_one(viable.reverse(), 0);
                    assert(charge_options@[0]@.map_values(|cc: Vec<usize>| cc@).len()
                        == viable.reverse().len());
                    assert(oc >= 1);
                }
            }
        }
        let finish = match &best {
            Some((_, best_score)) => best_score.en_route_events == 0,
            None => false,
        };
        if finish {
            proof {
                match &best {
                    Some((rec, sc)) => {
                        assert(viable.len() == 0 ==> g as int + kmin == 0);
                        assert(kmin <= best_k <= g as int + kmin && 0 <= best_c < spec_combs(
                            viable.reverse(),
                            0,
                            best_k,
                        ).len() && spec_simulated(
                            *rec,
                            plan,
                            spec_combs(viable.reverse(), 0, best_k)[best_c],
                            pl,
                            ger,
                            gpid,
                            gb,
                            gt,
                            prec,
                            pat,
                        ));
                        assert(spec_best_over(
                            *rec,
                            viable,
                            g as int + kmin,
                            plan,
                            pl,
                            ger,
                            gpid,
                            gb,
                            gt,
                            prec,
                            pat,
                        ));
                        assert(spec_viable_set_ok(plan, spec_names_of_specs(pl), viable));
                        let kx = g as int + kmin;
                        assert(spec_combs(viable.reverse(), 0, kx) == spec_combs(
                            viable.reverse(),
                            0,
                            kx,
                        ));
                        assert(spec_best_result(*rec, plan, pl, ger, gpid, gb, gt, prec, pat));
                    },
                    None => {
                        assert(false);
                    },
                }
            }
            return match best {
                Some((rec, _)) => Some(rec),
                None => None,
            };
        }
    }
    proof {
        if viable.len() == 0 {
            assert(og == 1);
        } else {
            assert(og == viable.len());
        }
        match &best {
            Some((rec, sc)) => {
                assert(kmin <= best_k <= og + kmin - 1 && 0 <= best_c < spec_combs(
                    viable.reverse(),
                    0,
                    best_k,
                ).len() && spec_simulated(
                    *rec,
                    plan,
                    spec_combs(viable.reverse(), 0, best_k)[best_c],
                    pl,
                    ger,
                    gpid,
                    gb,
                    gt,
                    prec,
                    pat,
                ));
                assert(spec_best_over(
                    *rec,
                    viable,
                    og + kmin - 1,
                    plan,
                    pl,
                    ger,
                    gpid,
                    gb,
                    gt,
                    prec,
                    pat,
                ));
                assert(spec_viable_set_ok(plan, spec_names_of_specs(pl), viable));
                let kx = og + kmin - 1;
                assert(spec_combs(viable.reverse(), 0, kx) == spec_combs(viable.reverse(), 0, kx));
                assert(spec_best_result(*rec, plan, pl, ger, gpid, gb, gt, prec, pat));
            },
            None => {
                assert(false);
            },
        }
    }
    match best {
        Some((rec, _)) => Some(rec),
        None => None,
    }
}

/// Choosing one element yields one combination per remaining element.
proof fn lemma_combs_one(s: Seq<usize>, from: int)
    requires
        0 <= from <= s.len(),
    ensures
        spec_combs(s, from, 1).len() == s.len() - from,
    decreases s.len() - from,
{
    if from < s.len() {
        lemma_combs_one(s, from + 1);
        assert(spec_combs(s, from, 1) == spec_combs(s, from + 1, 0).map_values(
            |c: Seq<usize>| seq![s[from]] + c,
        ) + spec_combs(s, from + 1, 1));
        assert(spec_combs(s, from + 1, 0) =~= seq![Seq::<usize>::empty()]);
    }
}

/// The strict score order never relates a score to itself.
proof fn lemma_score_irrefl(a: (int, int, int, int))
    ensures
        !spec_score_lt(a, a),
{
}

/// A score no better than the old best is no better than a new best that
/// improves on the old one.
proof fn lemma_score_order(
    e: (int, int, int, int),
    old_best: (int, int, int, int),
    new_best: (int, int, int, int),
)
    requires
        !spec_score_lt(e, old_best),
        spec_score_lt(new_best, old_best),
        e.3 > 0,
        old_best.3 > 0,
        new_best.3 > 0,
    ensures
        !spec_score_lt(e, new_best),
{
    let (a1, a2, a3, ad) = e;
    let (b1, b2, b3, bd) = old_best;
    let (c1, c2, c3, cd) = new_best;
    if spec_score_lt(e, new_best) {
        lemma_cross_trans(a1, a2, a3, ad, c1, c2, c3, cd, b1, b2, b3, bd);
    }
}

/// A score strictly better than the old best is strictly better than
/// everything the old best was no worse than.
proof fn lemma_score_strict(
    a: (int, int, int, int),
    b: (int, int, int, int),
    c: (int, int, int, int),
)
    requires
        spec_score_lt(a, b),
        !spec_score_lt(c, b),
        a.3 > 0,
        b.3 > 0,
        c.3 > 0,
    ensures
        spec_score_lt(a, c),
{
    let (a1, a2, a3, ad) = a;
    let (b1, b2, b3, bd) = b;
    let (c1, c2, c3, cd) = c;
    lemma_frac_le_trans(a1, ad, b1, bd, c1, cd);
    lemma_frac_le_trans(a2, ad, b2, bd, c2, cd);
    lemma_frac_le_trans(a3, ad, b3, bd, c3, cd);
}

/// Transitivity of the cross-multiplied lexicographic order.
proof fn lemma_cross_trans(
    a1: int,
    a2: int,
    a3: int,
    ad: int,
    b1: int,
    b2: int,
    b3: int,
    bd: int,
    c1: int,
    c2: int,
    c3: int,
    cd: int,
)
    requires
        spec_score_lt((a1, a2, a3, ad), (b1, b2, b3, bd)),
        spec_score_lt((b1, b2, b3, bd), (c1, c2, c3, cd)),
        ad > 0,
        bd > 0,
        cd > 0,
    ensures
        spec_score_lt((a1, a2, a3, ad), (c1, c2, c3, cd)),
{
    lemma_frac_le_trans(a1, ad, b1, bd, c1, cd);
    lemma_frac_le_trans(a2, ad, b2, bd, c2, cd);
    lemma_frac_le_trans(a3, ad, b3, bd, c3, cd);
}

/// For positive denominators, the cross-multiplied comparison of fractions
/// composes: `a/ad R b/bd` and `b/bd R c/cd` give `a/ad R c/cd`, keeping
/// strictness.
proof fn lemma_frac_le_trans(a: int, ad: int, b: int, bd: int, c: int, cd: int)
    requires
        ad > 0,
        bd > 0,
        cd > 0,
    ensures
        a * bd < b * ad && b * cd < c * bd ==> a * cd < c * ad,
        a * bd < b * ad && b * cd == c * bd ==> a * cd < c * ad,
        a * bd == b * ad && b * cd < c * bd ==> a * cd < c * ad,
        a * bd == b * ad && b * cd == c * bd ==> a * cd == c * ad,
{
    assert((a * bd < b * ad && b * cd < c * bd ==> a * cd < c * ad) && (a * bd < b * ad && b * cd
        == c * bd ==> a * cd < c * ad) && (a * bd == b * ad && b * cd < c * bd ==> a * cd < c * ad)
        && (a * bd == b * ad && b * cd == c * bd ==> a * cd == c * ad)) by (nonlinear_arith)
        requires
            ad > 0,
            bd > 0,
            cd > 0,
    ;
}

/// Every index of a subset drawn by the enumeration is a viable activity
/// whose name the planner charges at.
proof fn lemma_subset_covered(
    plan: Seq<crate::trace::Component>,
    names: Seq<Seq<char>>,
    viable: Seq<usize>,
    groups: Seq<Vec<Vec<usize>>>,
    g: int,
    c: int,
    planner: ActivityChargingPlanner,
    activities: Seq<&String>,
)
    requires
        spec_viable_set_ok(plan, names, viable),
        spec_combination_groups_ok(groups, viable),
        0 <= g < groups.len(),
        0 <= c < groups[g]@.len(),
        names == activities.map_values(|s: &String| s@),
        activities.len() == spec_flat_names(planner.specs@, planner.specs@.len() as int).len(),
        forall|k: int|
            0 <= k < activities.len() ==> *(#[trigger] activities[k]) == spec_flat_names(
                planner.specs@,
                planner.specs@.len() as int,
            )[k],
    ensures
        spec_acts_covered(plan, groups[g]@[c]@, planner),
{
    let subset = groups[g]@[c]@;
    let rev = viable.reverse();
    let k_size: int = if viable.len() == 0 {
        0
    } else {
        g + 1
    };
    assert(groups[g]@.map_values(|cc: Vec<usize>| cc@) == spec_combs(rev, 0, k_size));
    assert(groups[g]@.map_values(|cc: Vec<usize>| cc@)[c] == subset);
    assert forall|k: int|
        0 <= k < subset.len() && ((#[trigger] subset[k]) as int) < plan.len() && plan[subset[k] as int]
            is ActivityType implies exists|j: int|
        0 <= j < planner.specs@.len() && spec_charges_at(
            *(#[trigger] planner.specs@[j]),
            plan[subset[k] as int]->ActivityType_0.act@,
        ) by {
        lemma_combs_elements(rev, 0, k_size, c, k);
        let w = choose|w: int| 0 <= w < rev.len() && rev[w] == subset[k];
        assert(rev[w] == viable[viable.len() - 1 - w]);
        let vi = viable.len() - 1 - w;
        assert(viable[vi] == subset[k]);
        assert(Person::spec_is_viable(plan, names, viable[vi] as int));
        assert(names.contains(plan[subset[k] as int]->ActivityType_0.act@));
        let nk = choose|nk: int|
            0 <= nk < names.len() && names[nk] == plan[subset[k] as int]->ActivityType_0.act@;
        assert(names[nk] == activities[nk]@);
        assert(activities[nk]@ == spec_flat_names(planner.specs@, planner.specs@.len() as int)[nk]@);
        lemma_flat_name_charges(planner.specs@, planner.specs@.len() as int, nk);
    }
}

pub struct OptimiseHandler<'a> {
    pub config: &'a Config,
}

impl<'a> OptimiseHandler<'a> {
    pub fn new(config: &Config) -> (r: OptimiseHandler)
        ensures
            r.config == config,
    {
        OptimiseHandler { config }
    }

    /// Optimise one agent: an agent without a battery gets an empty record;
    /// one with a battery but no trigger or en-route spec is an error;
    /// otherwise the best simulation record, finalised.
    pub fn optimise(
        &self,
        config: &Config,
        pid: &String,
        person: &Person,
        agent_config: AgentConfig,
    ) -> (r: Result<AgentSimulationRecord, BatsimConfigError>)
        requires
            config.precision is Some,
            config.patience matches Some(p) && 1 <= p <= u32::MAX - 1,
            config.scale is Some,
            agent_config.battery matches Some(b) ==> b.capacity >= 0,
        ensures
            agent_config.battery is None ==> (r matches Ok(rec) && rec.days@.len() == 0
                && rec.error == Some(0i64) && rec.pid@ == pid@),
            (agent_config.battery is Some && agent_config.trigger is None) ==> r is Err,
            (agent_config.battery is Some && agent_config.en_route is None) ==> r is Err,
            (agent_config.battery is Some && agent_config.trigger is Some
                && agent_config.en_route is Some) ==> (r matches Ok(rec) && rec.wf()
                && rec.pid@ == pid@ && exists|pre: AgentSimulationRecord|
                spec_best_result(
                    pre,
                    person.trace.plan@,
                    agent_config.activities@,
                    *agent_config.en_route->0,
                    *pid,
                    *agent_config.battery->0,
                    *agent_config.trigger->0,
                    config.precision->0,
                    config.patience->0 as int,
                ) && #[trigger] crate::record::spec_finalised_record(
                    pre,
                    rec,
                    config.scale->0 as int,
                )),
    {
        match agent_config.battery {
            Some(_) => {
                if agent_config.trigger.is_none() {
                    return Err(BatsimConfigError::AgentMissingTrigger(pid.clone()));
                }
                if agent_config.en_route.is_none() {
                    return Err(BatsimConfigError::AgentMissingEnRouteCharging(pid.clone()));
                }
                let planner = ActivityChargingPlanner::new(clone_spec_refs(
                    &agent_config.activities,
                ));
                let result = run_simulations(pid, person, &agent_config, &planner, config);
                match result {
                    Some(mut record) => {
                        let ghost pre0 = record;
                        proof {
                            assert(record.error is Some);
                            assert(planner.specs@ == agent_config.activities@);
                        }
                        record.finalise(config);
                        proof {
                            assert(crate::record::spec_finalised_record(
                                pre0,
                                record,
                                config.scale->0 as int,
                            ));
                        }
                        Ok(record)
                    },
                    None => Err(BatsimConfigError::AgentMissingTrigger(pid.clone())),
                }
            },
            None => Ok(AgentSimulationRecord::empty(pid.clone())),
        }
    }
}

/// A copy of a list of spec references.
fn clone_spec_refs<'a>(v: &Vec<&'a ActivitySpec>) -> (r: Vec<&'a ActivitySpec>)
    ensures
        r@ == v@,
{
    let mut out: Vec<&'a ActivitySpec> = Vec::new();
    let n = v.len();
    for i in 0..n
        invariant
            n == v@.len(),
            out@.len() == i,
            forall|j: int| 0 <= j < i ==> out@[j] == v@[j],
    {
        out.push(v[i]);
    }
    proof {
        assert(out@ =~= v@);
    }
    out
}

} // verus!
