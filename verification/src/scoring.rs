//! Scoring a simulation record by its slice: en-route events per day
//! first, en-route energy per day second, activity events per day third,
//! compared lexicographically.  The per-day fractions are compared exactly
//! by cross-multiplication.

use vstd::prelude::*;
use crate::events::ChargeType;
use crate::record::{
    abs_int,
    spec_pair_leak,
    spec_score_le,
    spec_count_events,
    spec_flat_events,
    spec_sum_charge,
    sum_charges,
    count_events,
    AgentSimulationRecord,
};

verus! {

/// A record's score: event counts and en-route energy over the slice, with
/// the slice length as the common denominator.
#[derive(Debug, PartialEq, Clone, Copy)]
pub struct Score {
    pub en_route_events: usize,
    pub en_route_charge: i64,
    pub activity_events: usize,
    pub days: usize,
}

/// The score of a record: counts and saturated en-route charge over the
/// slice, with the number of slice days.
pub open spec fn spec_score_of(r: AgentSimulationRecord) -> (int, int, int, int) {
    let events = spec_flat_events(r.days@, r.slice_start as int, r.spec_slice_hi());
    (
        spec_count_events(events, Some(ChargeType::EnRoute)),
        spec_sum_charge(events, Some(ChargeType::EnRoute)),
        spec_count_events(events, Some(ChargeType::Activity)),
        r.spec_slice_hi() - r.slice_start,
    )
}

/// Lexicographic order on per-day fractions: `a/d` against `b/e` compared
/// as `a*e` against `b*d`.
pub open spec fn spec_score_lt(a: (int, int, int, int), b: (int, int, int, int)) -> bool {
    let (a1, a2, a3, ad) = a;
    let (b1, b2, b3, bd) = b;
    if a1 * bd != b1 * ad {
        a1 * bd < b1 * ad
    } else if a2 * bd != b2 * ad {
        a2 * bd < b2 * ad
    } else {
        a3 * bd < b3 * ad
    }
}

impl Score {
    pub open spec fn view(self) -> (int, int, int, int) {
        (
            self.en_route_events as int,
            self.en_route_charge as int,
            self.activity_events as int,
            self.days as int,
        )
    }

    /// Whether this score is strictly better than the other.
    pub fn lt(&self, other: &Score) -> (r: bool)
        ensures
            r == spec_score_lt(self@, other@),
    {
        proof {
            lemma_umul_fits(self.en_route_events as int, other.days as int);
            lemma_umul_fits(other.en_route_events as int, self.days as int);
            lemma_umul_fits(self.activity_events as int, other.days as int);
            lemma_umul_fits(other.activity_events as int, self.days as int);
        }
        let a1: u128 = self.en_route_events as u128 * other.days as u128;
        let b1: u128 = other.en_route_events as u128 * self.days as u128;
        if a1 != b1 {
            return a1 < b1;
        }
        proof {
            lemma_mul_fits(self.en_route_charge as int, other.days as int);
            lemma_mul_fits(other.en_route_charge as int, self.days as int);
        }
        let a2: i128 = self.en_route_charge as i128 * other.days as i128;
        let b2: i128 = other.en_route_charge as i128 * self.days as i128;
        if a2 != b2 {
            return a2 < b2;
        }
        let a3: u128 = self.activity_events as u128 * other.days as u128;
        let b3: u128 = other.activity_events as u128 * self.days as u128;
        a3 < b3
    }
}

/// The product of two `u64`-ranged values fits in `u128`.
proof fn lemma_umul_fits(a: int, b: int)
    requires
        0 <= a <= u64::MAX,
        0 <= b <= u64::MAX,
    ensures
        0 <= a * b <= u128::MAX,
{
    assert(0 <= a * b <= u128::MAX) by (nonlinear_arith)
        requires
            0 <= a <= u64::MAX,
            0 <= b <= u64::MAX,
    ;
}

/// The product of two `i64`-ranged values fits in `i128`.
proof fn lemma_mul_fits(a: int, b: int)
    requires
        i64::MIN <= a <= i64::MAX,
        0 <= b <= u64::MAX,
    ensures
        i128::MIN < a * b <= i128::MAX,
{
    assert(i128::MIN < a * b <= i128::MAX) by (nonlinear_arith)
        requires
            i64::MIN <= a <= i64::MAX,
            0 <= b <= u64::MAX,
    ;
}

/// Score a record's slice.
pub fn score_events(record: &AgentSimulationRecord) -> (r: Score)
    requires
        record.wf(),
    ensures
        r@ == spec_score_of(*record),
{
    let (lo, hi) = record.slice_bounds();
    let events = record.slice_events();
    let en_route_events = count_events(&events, Some(ChargeType::EnRoute));
    let en_route_charge = sum_charges(&events, Some(ChargeType::EnRoute));
    let activity_events = count_events(&events, Some(ChargeType::Activity));
    Score { en_route_events, en_route_charge, activity_events, days: hi - lo }
}


/// Flattened slices agree when the per-day event lists agree.
proof fn lemma_flat_events_congruent(
    days1: Seq<crate::events::Day>,
    days2: Seq<crate::events::Day>,
    lo: int,
    hi: int,
)
    requires
        forall|d: int| lo <= d < hi ==> (#[trigger] days1[d]).events@ == days2[d].events@,
    ensures
        spec_flat_events(days1, lo, hi) == spec_flat_events(days2, lo, hi),
    decreases hi - lo,
{
    if lo < hi {
        lemma_flat_events_congruent(days1, days2, lo, hi - 1);
    }
}

/// Two records that both satisfy the simulation relation for the same
/// inputs have the same score: the relation pins the history, the events
/// and the chosen cycle.
pub proof fn lemma_sim_score_unique(
    r1: crate::record::AgentSimulationRecord,
    r2: crate::record::AgentSimulationRecord,
    plan: Seq<crate::trace::Component>,
    acts: Seq<usize>,
    planner: Seq<&crate::groups::ActivitySpec>,
    er: crate::groups::EnRouteSpec,
    pid: String,
    bspec: crate::groups::BatterySpec,
    tspec: crate::groups::TriggerSpec,
    precision: i64,
    patience: int,
)
    requires
        crate::sim::spec_simulated(r1, plan, acts, planner, er, pid, bspec, tspec, precision, patience),
        crate::sim::spec_simulated(r2, plan, acts, planner, er, pid, bspec, tspec, precision, patience),
    ensures
        spec_score_of(r1) == spec_score_of(r2),
{
    let b0 = crate::battery::spec_battery_new(bspec, tspec);
    match crate::sim::spec_first_close(plan, acts, planner, er, pid, b0, precision, patience, 0) {
        Some(dc) => {
            assert(r1.history@ =~= r2.history@);
            assert(r1.slice_start == r2.slice_start) by {
                if r1.slice_start < r2.slice_start {
                    assert(abs_int(
                        crate::sim::spec_day_start(plan, acts, planner, er, pid, b0, dc + 1).state
                            - r2.history@[r1.slice_start as int],
                    ) >= precision);
                } else if r2.slice_start < r1.slice_start {
                    assert(abs_int(
                        crate::sim::spec_day_start(plan, acts, planner, er, pid, b0, dc + 1).state
                            - r1.history@[r2.slice_start as int],
                    ) >= precision);
                }
            }
            lemma_flat_events_congruent(
                r1.days@,
                r2.days@,
                r1.slice_start as int,
                r1.spec_slice_hi(),
            );
        },
        None => {
            assert(r1.history@ =~= r2.history@);
            let j1 = r1.slice_end->0 as int;
            let j2 = r2.slice_end->0 as int;
            let i1 = r1.slice_start as int;
            let i2 = r2.slice_start as int;
            assert(i1 == i2 && j1 == j2) by {
                let h = r1.history@;
                assert(spec_score_le(
                    spec_pair_leak(h, i1, j1),
                    j1 - i1,
                    spec_pair_leak(h, i2, j2),
                    j2 - i2,
                ));
                assert(spec_score_le(
                    spec_pair_leak(h, i2, j2),
                    j2 - i2,
                    spec_pair_leak(h, i1, j1),
                    j1 - i1,
                ));
                assert(spec_pair_leak(h, i1, j1) == spec_pair_leak(h, i2, j2) && j1 - i1 == j2
                    - i2);
                assert(i1 < i2 || (i1 == i2 && j1 <= j2));
                assert(i2 < i1 || (i2 == i1 && j2 <= j1));
            }
            lemma_flat_events_congruent(
                r1.days@,
                r2.days@,
                r1.slice_start as int,
                r1.spec_slice_hi(),
            );
        },
    }
}

} // verus!
