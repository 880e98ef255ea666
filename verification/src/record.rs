//! The per-agent simulation record: days of charge events, the battery
//! state history at each day start, and the detected repeating day-cycle.

use vstd::prelude::*;
use crate::arith::{clamp_i64, trunc_div, add_sat, sub_sat};
use crate::events::{ChargeType, Day, Event};

verus! {

/// The absolute value.
pub open spec fn abs_int(a: int) -> int {
    if a >= 0 {
        a
    } else {
        -a
    }
}

/// The score of a candidate cycle `[i, j]` over a state history: the
/// absolute leak first, the cycle length second, compared lexicographically.
pub open spec fn spec_pair_leak(h: Seq<i64>, i: int, j: int) -> int {
    abs_int(h[i] - h[j])
}

/// Lexicographic comparison of `(leak, length)` scores.
pub open spec fn spec_score_le(l1: int, n1: int, l2: int, n2: int) -> bool {
    l1 < l2 || (l1 == l2 && n1 <= n2)
}

#[derive(Debug, PartialEq)]
pub struct AgentSimulationRecord {
    pub pid: String,
    pub days: Vec<Day>,
    pub history: Vec<i64>,
    pub slice_start: usize,
    pub slice_end: Option<usize>,
    pub close_precision: i64,
    pub error: Option<i64>,
}

impl AgentSimulationRecord {
    /// The slice bounds are within the recorded days.
    pub open spec fn wf(self) -> bool {
        &&& self.slice_start <= self.days@.len()
        &&& match self.slice_end {
            Some(e) => self.slice_start <= e <= self.days@.len(),
            None => true,
        }
    }

    /// The end of the canonical slice: `slice_end` or the number of days.
    pub open spec fn spec_slice_hi(self) -> int {
        match self.slice_end {
            Some(e) => e as int,
            None => self.days@.len() as int,
        }
    }

    pub fn new(pid: String, close_precision: i64) -> (r: AgentSimulationRecord)
        ensures
            r == (AgentSimulationRecord {
                pid,
                days: r.days,
                history: r.history,
                slice_start: 0,
                slice_end: None,
                close_precision,
                error: None,
            }),
            r.days@.len() == 0,
            r.history@.len() == 0,
            r.wf(),
    {
        AgentSimulationRecord {
            pid,
            days: Vec::new(),
            history: Vec::new(),
            slice_start: 0,
            slice_end: None,
            close_precision,
            error: None,
        }
    }

    /// The record of an agent with no battery: nothing simulated, no leak.
    pub fn empty(pid: String) -> (r: AgentSimulationRecord)
        ensures
            r.pid == pid,
            r.days@.len() == 0,
            r.history@.len() == 0,
            r.slice_start == 0,
            r.slice_end is None,
            r.close_precision == 0,
            r.error == Some(0i64),
            r.wf(),
    {
        AgentSimulationRecord {
            pid,
            days: Vec::new(),
            history: Vec::new(),
            slice_start: 0,
            slice_end: None,
            close_precision: 0,
            error: Some(0),
        }
    }

    /// Start a new day with the given battery state.
    pub fn new_day(&mut self, battery_state: i64)
        ensures
            final(self).history@ == old(self).history@.push(battery_state),
            final(self).days@.len() == old(self).days@.len() + 1,
            final(self).days@[old(self).days@.len() as int].events@.len() == 0,
            forall|i: int|
                0 <= i < old(self).days@.len() ==> final(self).days@[i] == old(self).days@[i],
            *final(self) == (AgentSimulationRecord {
                days: final(self).days,
                history: final(self).history,
                ..*old(self)
            }),
    {
        self.history.push(battery_state);
        self.days.push(Day::new());
    }

    /// Add an event to the current (last) day.
    pub fn add_event(&mut self, event: Event)
        requires
            old(self).days@.len() > 0,
        ensures
            final(self).days@.len() == old(self).days@.len(),
            final(self).days@[old(self).days@.len() - 1].events@ == old(self).days@[old(
                self,
            ).days@.len() - 1].events@.push(event),
            forall|i: int|
                0 <= i < old(self).days@.len() - 1 ==> final(self).days@[i] == old(self).days@[i],
            *final(self) == (AgentSimulationRecord { days: final(self).days, ..*old(self) }),
    {
        let n = self.days.len();
        let last = &mut self.days[n - 1];
        last.events.push(event);
    }

    /// Scan the history in insertion order for the first state within
    /// `close_precision` of the given one; on a hit, set the cycle start
    /// there and record the leak exactly.
    pub fn try_to_close(&mut self, state: i64) -> (r: bool)
        ensures
            r == (exists|k: int|
                0 <= k < old(self).history@.len() && abs_int(
                    state - old(self).history@[k],
                ) < old(self).close_precision),
            r ==> ({
                let k0 = old(self).slice_min_close(state);
                &&& 0 <= k0 < old(self).history@.len()
                &&& final(self).slice_start == k0
                &&& final(self).error == Some(
                    (state - old(self).history@[k0]) as i64,
                )
                &&& abs_int(state - old(self).history@[k0]) < old(self).close_precision
                &&& (forall|q: int|
                    0 <= q < k0 ==> abs_int(state - #[trigger] old(self).history@[q]) >= old(
                        self,
                    ).close_precision)
                &&& *final(self) == (AgentSimulationRecord {
                    slice_start: final(self).slice_start,
                    error: final(self).error,
                    ..*old(self)
                })
            }),
            !r ==> *final(self) == *old(self),
    {
        let n = self.history.len();
        for k in 0..n
            invariant
                n == self.history@.len(),
                *self == *old(self),
                forall|q: int|
                    0 <= q < k ==> abs_int(state - self.history@[q]) >= self.close_precision,
        {
            let h = self.history[k];
            let diff: i128 = state as i128 - h as i128;
            let a: i128 = if diff >= 0 {
                diff
            } else {
                -diff
            };
            if a < self.close_precision as i128 {
                self.slice_start = k;
                self.error = Some((diff) as i64);
                proof {
                    assert(abs_int(state - old(self).history@[k as int]) < old(
                        self,
                    ).close_precision);
                    assert(old(self).slice_min_close(state) == k as int);
                }
                return true;
            }
        }
        false
    }

    /// The first history index within `close_precision` of `state`.
    pub open spec fn slice_min_close(self, state: i64) -> int {
        choose|k: int|
            0 <= k < self.history@.len() && abs_int(state - self.history@[k])
                < self.close_precision && (forall|q: int|
                0 <= q < k ==> abs_int(state - self.history@[q]) >= self.close_precision)
    }

    /// The leak between the given state and the state at the cycle start.
    pub fn error(&self, state: i64) -> (r: i64)
        requires
            self.slice_start < self.history@.len(),
        ensures
            r as int == clamp_i64(state - self.history@[self.slice_start as int]),
    {
        sub_sat(state, self.history[self.slice_start])
    }

    /// Search all pairs `(i, j)` with `i < j` for the one whose
    /// `(absolute leak, length)` score is lexicographically least, earliest
    /// pair first; set the cycle to it and record the leak.
    pub fn force_close(&mut self)
        requires
            old(self).history@.len() >= 2,
        ensures
            ({
                let h = old(self).history@;
                let i = final(self).slice_start as int;
                let hi = final(self).slice_end;
                &&& hi matches Some(j0) && ({
                    let j = j0 as int;
                    &&& 0 <= i < j < h.len()
                    &&& final(self).error == Some(clamp_i64(h[j] - h[i]) as i64)
                    &&& forall|a: int, b: int|
                        0 <= a < b < h.len() ==> spec_score_le(
                            spec_pair_leak(h, i, j),
                            j - i,
                            #[trigger] spec_pair_leak(h, a, b),
                            b - a,
                        )
                    &&& forall|a: int, b: int|
                        0 <= a < b < h.len() && spec_pair_leak(h, i, j) == (
                        #[trigger] spec_pair_leak(h, a, b)) && j - i == b - a ==> (i < a || (i
                            == a && j <= b))
                })
                &&& *final(self) == (AgentSimulationRecord {
                    slice_start: final(self).slice_start,
                    slice_end: final(self).slice_end,
                    error: final(self).error,
                    ..*old(self)
                })
            }),
    {
        let n = self.history.len();
        let mut best_i: usize = 0;
        let mut best_j: usize = 1;
        let mut best_leak: i128 = {
            let d: i128 = self.history[0] as i128 - self.history[1] as i128;
            if d >= 0 {
                d
            } else {
                -d
            }
        };
        let mut i: usize = 0;
        while i < n - 1
            invariant
                n == self.history@.len(),
                n >= 2,
                *self == *old(self),
                i <= n - 1,
                0 <= best_i < best_j < n,
                best_leak == spec_pair_leak(self.history@, best_i as int, best_j as int),
                forall|a: int, b: int|
                    0 <= a < b < n && a < i ==> spec_score_le(
                        best_leak as int,
                        best_j - best_i,
                        #[trigger] spec_pair_leak(self.history@, a, b),
                        b - a,
                    ),
                forall|a: int, b: int|
                    0 <= a < b < n && a < i && best_leak as int == (
                    #[trigger] spec_pair_leak(self.history@, a, b)) && best_j - best_i == b - a
                        ==> (best_i < a || (best_i == a && best_j <= b)),
                (best_i as int) < i || (best_i == 0 && best_j == 1),
            decreases n - i,
        {
            let mut j: usize = i + 1;
            while j < n
                invariant
                    n == self.history@.len(),
                    n >= 2,
                    *self == *old(self),
                    i < j <= n,
                    i < n - 1,
                    0 <= best_i < best_j < n,
                    best_leak == spec_pair_leak(self.history@, best_i as int, best_j as int),
                    forall|a: int, b: int|
                        0 <= a < b < n && a < i ==> spec_score_le(
                            best_leak as int,
                            best_j - best_i,
                            #[trigger] spec_pair_leak(self.history@, a, b),
                            b - a,
                        ),
                    forall|a: int, b: int|
                        0 <= a < b < n && a < i && best_leak as int == (
                        #[trigger] spec_pair_leak(self.history@, a, b)) && best_j - best_i == b
                            - a ==> (best_i < a || (best_i == a && best_j <= b)),
                    forall|b: int|
                        i < b < j ==> spec_score_le(
                            best_leak as int,
                            best_j - best_i,
                            #[trigger] spec_pair_leak(self.history@, i as int, b),
                            b - i,
                        ),
                    forall|b: int|
                        i < b < j && best_leak as int == (#[trigger] spec_pair_leak(
                            self.history@,
                            i as int,
                            b,
                        )) && best_j - best_i == b - i ==> (best_i < i || (best_i == i && best_j
                            <= b)),
                    (best_i as int) < i || ((best_i as int) == i && (best_j as int) < j) || (i
                        == 0 && best_i == 0 && best_j == 1),
                decreases n - j,
            {
                let d: i128 = self.history[i] as i128 - self.history[j] as i128;
                let leak: i128 = if d >= 0 {
                    d
                } else {
                    -d
                };
                if leak < best_leak || (leak == best_leak && j - i < best_j - best_i) {
                    best_leak = leak;
                    best_i = i;
                    best_j = j;
                }
                j = j + 1;
            }
            i = i + 1;
        }
        self.slice_start = best_i;
        self.slice_end = Some(best_j);
        let e = sub_sat(self.history[best_j], self.history[best_i]);
        self.error = Some(e);
    }

    /// The number of recorded days.
    pub fn len(&self) -> (r: usize)
        ensures
            r == self.days@.len(),
    {
        self.days.len()
    }

    pub fn is_empty(&self) -> (r: bool)
        ensures
            r == (self.days@.len() == 0),
    {
        self.days.is_empty()
    }

    /// The bounds of the canonical slice of days.
    pub fn slice_bounds(&self) -> (r: (usize, usize))
        requires
            self.wf(),
        ensures
            r.0 == self.slice_start,
            r.1 as int == self.spec_slice_hi(),
            r.0 <= r.1 <= self.days@.len(),
    {
        let hi = match self.slice_end {
            Some(e) => e,
            None => self.days.len(),
        };
        (self.slice_start, hi)
    }

    /// All events of the canonical slice, in day order.
    pub fn slice_events(&self) -> (r: Vec<Event>)
        requires
            self.wf(),
        ensures
            r@ == spec_flat_events(self.days@, self.slice_start as int, self.spec_slice_hi()),
    {
        let (lo, hi) = self.slice_bounds();
        let mut out: Vec<Event> = Vec::new();
        let mut d = lo;
        while d < hi
            invariant
                lo <= d <= hi <= self.days@.len(),
                out@ == spec_flat_events(self.days@, lo as int, d as int),
            decreases hi - d,
        {
            let day = &self.days[d];
            let m = day.events.len();
            let ghost pre = out@;
            for e in 0..m
                invariant
                    d < self.days@.len(),
                    m == self.days@[d as int].events@.len(),
                    out@ == pre + self.days@[d as int].events@.subrange(0, e as int),
            {
                out.push(self.days[d].events[e].duplicate());
                proof {
                    assert(out@ =~= pre + self.days@[d as int].events@.subrange(0, e + 1));
                }
            }
            proof {
                assert(self.days@[d as int].events@.subrange(
                    0,
                    self.days@[d as int].events@.len() as int,
                ) =~= self.days@[d as int].events@);
                assert(out@ == spec_flat_events(self.days@, lo as int, d + 1));
            }
            d = d + 1;
        }
        out
    }

    /// The total charge over the slice, in mkWs, saturating on overflow.
    pub fn get_total_charge(&self) -> (r: i64)
        requires
            self.wf(),
        ensures
            r as int == spec_sum_charge(
                spec_flat_events(self.days@, self.slice_start as int, self.spec_slice_hi()),
                None,
            ),
    {
        let events = self.slice_events();
        sum_charges(&events, None)
    }
}


/// A charge scaled by `scale` thousandths, truncated toward zero and
/// clamped to `i64`.
pub open spec fn spec_scaled(c: int, scale: int) -> int {
    clamp_i64(trunc_div(c * scale, 1000))
}

/// Scale a charge by `scale` thousandths.
pub fn apply_scale(c: i64, scale: i64) -> (r: i64)
    ensures
        r as int == spec_scaled(c as int, scale as int),
{
    proof {
        assert(c as int * scale as int <= i128::MAX as int && c as int * scale as int
            > i128::MIN as int) by (nonlinear_arith)
            requires
                i64::MIN as int <= c as int <= i64::MAX as int,
                i64::MIN as int <= scale as int <= i64::MAX as int,
        ;
    }
    let p: i128 = crate::arith::i128_trunc_div(c as i128 * scale as i128, 1000);
    if p > i64::MAX as i128 {
        i64::MAX
    } else if p < i64::MIN as i128 {
        i64::MIN
    } else {
        p as i64
    }
}

/// An event after finalisation: its charge spread over the cycle (when the
/// cycle is longer than a day) and scaled, its day renumbered from the
/// cycle start.
pub open spec fn spec_finalised_event(e: Event, slice_len: int, start: int, scale: int) -> Event {
    if slice_len > 1 {
        Event {
            charge: spec_scaled(trunc_div(e.charge as int, slice_len), scale) as i64,
            day: crate::events::spec_day_from(e.day as int, start) as u32,
            ..e
        }
    } else {
        Event { charge: spec_scaled(e.charge as int, scale) as i64, ..e }
    }
}


/// A record after finalisation: the leak scaled, every slice event
/// normalised and scaled, everything else untouched.
pub open spec fn spec_finalised_record(
    pre: AgentSimulationRecord,
    post: AgentSimulationRecord,
    scale: int,
) -> bool {
    &&& post.error == Some(spec_scaled(pre.error->0 as int, scale) as i64)
    &&& post.days@.len() == pre.days@.len()
    &&& post.history == pre.history
    &&& post.slice_start == pre.slice_start
    &&& post.slice_end == pre.slice_end
    &&& post.close_precision == pre.close_precision
    &&& post.pid == pre.pid
    &&& (forall|d: int|
        0 <= d < pre.days@.len() && !(pre.slice_start <= d < pre.spec_slice_hi()) ==> (
        #[trigger] post.days@[d]) == pre.days@[d])
    &&& (forall|d: int|
        pre.slice_start <= d < pre.spec_slice_hi() ==> (#[trigger] post.days@[d]).events@
            == pre.days@[d].events@.map_values(
            |e: Event|
                spec_finalised_event(
                    e,
                    pre.spec_slice_hi() - pre.slice_start,
                    pre.slice_start as int,
                    scale,
                ),
        ))
}

/// A plain per-agent report row.  Energies are in mkWs.
#[derive(Debug, PartialEq)]
pub struct PlanRecord {
    pub pid: String,
    pub days: usize,
    pub number_enroute: usize,
    pub number_activity: usize,
    pub number_charges: usize,
    pub total_charge: i64,
    pub total_enroute: i64,
    pub total_activity: i64,
    pub leak: Option<i64>,
}

impl AgentSimulationRecord {
    /// Normalise the slice to a single repeating day and apply the output
    /// scale: every event in the slice has its charge spread over the
    /// cycle length (when longer than a day) and scaled, and its day
    /// renumbered; the leak is scaled too.
    pub fn finalise(&mut self, config: &crate::config::Config)
        requires
            old(self).wf(),
            old(self).error is Some,
            config.scale is Some,
        ensures
            final(self).wf(),
            spec_finalised_record(*old(self), *final(self), config.scale->0 as int),
    {
        let scale = match config.scale {
            Some(s) => s,
            None => 1000,
        };
        let e0 = match self.error {
            Some(e) => e,
            None => 0,
        };
        self.error = Some(apply_scale(e0, scale));
        let (start_day, end_day) = self.slice_bounds();
        let slice_length = end_day - start_day;
        let ghost pre_days = self.days@;
        let mut d = start_day;
        while d < end_day
            invariant
                start_day == old(self).slice_start,
                end_day == old(self).spec_slice_hi(),
                start_day <= d <= end_day <= self.days@.len(),
                self.days@.len() == pre_days.len(),
                pre_days == old(self).days@,
                slice_length == end_day - start_day,
                config.scale matches Some(sc) && sc == scale,
                *self == (AgentSimulationRecord { days: self.days, error: self.error, ..*old(self) }),
                self.error == Some(spec_scaled(old(self).error->0 as int, scale as int) as i64),
                forall|w: int| 0 <= w < pre_days.len() && !(start_day <= w < d) ==> self.days@[w] == pre_days[w],
                forall|w: int|
                    start_day <= w < d ==> (#[trigger] self.days@[w]).events@
                        == pre_days[w].events@.map_values(
                        |e: Event|
                            spec_finalised_event(
                                e,
                                slice_length as int,
                                start_day as int,
                                scale as int,
                            ),
                    ),
            decreases end_day - d,
        {
            let m = self.days[d].events.len();
            let ghost pre_events = self.days@[d as int].events@;
            for q in 0..m
                invariant
                    d < self.days@.len(),
                    self.days@.len() == pre_days.len(),
                    start_day <= d < end_day <= pre_days.len(),
                    slice_length == end_day - start_day,
                    slice_length >= 1,
                    m == pre_events.len(),
                    m == self.days@[d as int].events@.len(),
                    pre_events == pre_days[d as int].events@,
                    config.scale matches Some(sc) && sc == scale,
                    *self == (AgentSimulationRecord { days: self.days, error: self.error, ..*old(self) }),
                    self.error == Some(spec_scaled(old(self).error->0 as int, scale as int) as i64),
                    pre_days == old(self).days@,
                    start_day == old(self).slice_start,
                    end_day == old(self).spec_slice_hi(),
                    forall|w: int| 0 <= w < pre_days.len() && w != d && !(start_day <= w < d) ==> self.days@[w] == pre_days[w],
                    forall|w: int|
                        start_day <= w < d ==> (#[trigger] self.days@[w]).events@
                            == pre_days[w].events@.map_values(
                            |e: Event|
                                spec_finalised_event(
                                    e,
                                    slice_length as int,
                                    start_day as int,
                                    scale as int,
                                ),
                        ),
                    forall|w: int|
                        0 <= w < q ==> (#[trigger] self.days@[d as int].events@[w])
                            == spec_finalised_event(
                            pre_events[w],
                            slice_length as int,
                            start_day as int,
                            scale as int,
                        ),
                    forall|w: int|
                        q <= w < m ==> (#[trigger] self.days@[d as int].events@[w])
                            == pre_events[w],
            {
                if slice_length > 1 {
                    self.days[d].events[q].normalise(slice_length, start_day);
                }
                let c = self.days[d].events[q].charge;
                self.days[d].events[q].charge = apply_scale(c, scale);
            }
            proof {
                assert(self.days@[d as int].events@ =~= pre_days[d as int].events@.map_values(
                    |e: Event|
                        spec_finalised_event(
                            e,
                            slice_length as int,
                            start_day as int,
                            scale as int,
                        ),
                ));
            }
            d = d + 1;
        }
    }

    /// The per-agent report row: counts and saturated totals over the
    /// slice, and the scaled leak.
    pub fn to_record(&self) -> (r: PlanRecord)
        requires
            self.wf(),
        ensures
            ({
                let events = spec_flat_events(
                    self.days@,
                    self.slice_start as int,
                    self.spec_slice_hi(),
                );
                &&& r.pid@ == self.pid@
                &&& r.days == self.days@.len()
                &&& r.number_charges as int == spec_count_events(events, None)
                &&& r.number_enroute as int == spec_count_events(events, Some(ChargeType::EnRoute))
                &&& r.number_activity as int == spec_count_events(
                    events,
                    Some(ChargeType::Activity),
                )
                &&& r.total_charge as int == spec_sum_charge(events, None)
                &&& r.total_enroute as int == spec_sum_charge(events, Some(ChargeType::EnRoute))
                &&& r.total_activity as int == spec_sum_charge(events, Some(ChargeType::Activity))
                &&& r.leak == self.error
            }),
    {
        let events = self.slice_events();
        PlanRecord {
            pid: self.pid.clone(),
            days: self.days.len(),
            number_charges: count_events(&events, None),
            number_enroute: count_events(&events, Some(ChargeType::EnRoute)),
            number_activity: count_events(&events, Some(ChargeType::Activity)),
            total_charge: sum_charges(&events, None),
            total_enroute: sum_charges(&events, Some(ChargeType::EnRoute)),
            total_activity: sum_charges(&events, Some(ChargeType::Activity)),
            leak: match self.error {
                Some(e) => Some(e),
                None => None,
            },
        }
    }
}

/// The events of days `lo .. hi` in order.
pub open spec fn spec_flat_events(days: Seq<Day>, lo: int, hi: int) -> Seq<Event>
    decreases hi - lo,
{
    if lo >= hi {
        Seq::empty()
    } else {
        spec_flat_events(days, lo, hi - 1) + days[hi - 1].events@
    }
}

/// The saturating sum of the charges of the events of the given kind
/// (or of all events, when no kind is given).
pub open spec fn spec_sum_charge(events: Seq<Event>, which: Option<ChargeType>) -> int
    decreases events.len(),
{
    if events.len() == 0 {
        0
    } else {
        let rest = spec_sum_charge(events.drop_last(), which);
        if counts(events.last().charge_type, which) {
            clamp_i64(rest + events.last().charge)
        } else {
            rest
        }
    }
}

/// Whether an event of kind `t` counts toward a total over `which`.
pub open spec fn counts(t: ChargeType, which: Option<ChargeType>) -> bool {
    match which {
        None => true,
        Some(w) => t == w,
    }
}

/// The number of events of the given kind.
pub open spec fn spec_count_events(events: Seq<Event>, which: Option<ChargeType>) -> int
    decreases events.len(),
{
    if events.len() == 0 {
        0
    } else {
        spec_count_events(events.drop_last(), which) + if counts(
            events.last().charge_type,
            which,
        ) {
            1int
        } else {
            0int
        }
    }
}

/// Sum the charges of the events of the given kind, saturating on overflow.
pub fn sum_charges(events: &Vec<Event>, which: Option<ChargeType>) -> (r: i64)
    ensures
        r as int == spec_sum_charge(events@, which),
{
    let n = events.len();
    let mut total: i64 = 0;
    for i in 0..n
        invariant
            n == events@.len(),
            total as int == spec_sum_charge(events@.subrange(0, i as int), which),
    {
        let event = &events[i];
        let c = match (&event.charge_type, &which) {
            (_, None) => true,
            (ChargeType::EnRoute, Some(ChargeType::EnRoute)) => true,
            (ChargeType::Activity, Some(ChargeType::Activity)) => true,
            _ => false,
        };
        proof {
            assert(c == counts(events@[i as int].charge_type, which));
            assert(events@.subrange(0, i + 1).drop_last() =~= events@.subrange(0, i as int));
            assert(events@.subrange(0, i + 1).last() == events@[i as int]);
        }
        if c {
            total = add_sat(total, event.charge);
        }
    }
    proof {
        assert(events@.subrange(0, n as int) =~= events@);
    }
    total
}

/// Count the events of the given kind.
pub fn count_events(events: &Vec<Event>, which: Option<ChargeType>) -> (r: usize)
    ensures
        r as int == spec_count_events(events@, which),
{
    let n = events.len();
    let mut total: usize = 0;
    for i in 0..n
        invariant
            n == events@.len(),
            total as int == spec_count_events(events@.subrange(0, i as int), which),
            total <= i,
    {
        let event = &events[i];
        let c = match (&event.charge_type, &which) {
            (_, None) => true,
            (ChargeType::EnRoute, Some(ChargeType::EnRoute)) => true,
            (ChargeType::Activity, Some(ChargeType::Activity)) => true,
            _ => false,
        };
        proof {
            assert(c == counts(events@[i as int].charge_type, which));
            assert(events@.subrange(0, i + 1).drop_last() =~= events@.subrange(0, i as int));
            assert(events@.subrange(0, i + 1).last() == events@[i as int]);
        }
        if c {
            total = total + 1;
        }
    }
    proof {
        assert(events@.subrange(0, n as int) =~= events@);
    }
    total
}

} // verus!
