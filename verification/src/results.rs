//! The population-level summary: totals by charge kind and by activity
//! name, and human-readable energy counts.

use vstd::prelude::*;
use crate::arith::{clamp_i64, add_sat, trunc_div, i128_trunc_div};
use crate::config::Config;
use crate::events::{ChargeType, Event};
use crate::kvmap::KvMap;
use crate::record::{apply_scale, spec_scaled};

verus! {

/// Aggregated totals over every written event.
pub struct SummaryHandler {
    pub en_route_charge: i64,
    pub activity_charge_map: KvMap<i64>,
    pub en_route_events: u64,
    pub activity_events_map: KvMap<u64>,
    pub leak: i64,
}

impl SummaryHandler {
    pub open spec fn wf(self) -> bool {
        &&& self.activity_charge_map.wf()
        &&& self.activity_events_map.wf()
    }

    pub fn new() -> (r: SummaryHandler)
        ensures
            r.wf(),
            r.en_route_charge == 0,
            r.en_route_events == 0,
            r.leak == 0,
            r.activity_charge_map@ == Map::<Seq<char>, i64>::empty(),
            r.activity_events_map@ == Map::<Seq<char>, u64>::empty(),
    {
        SummaryHandler {
            en_route_charge: 0,
            activity_charge_map: KvMap::new(),
            en_route_events: 0,
            activity_events_map: KvMap::new(),
            leak: 0,
        }
    }

    /// Fold one event in: an en-route event adds to the en-route totals, an
    /// activity event to its activity's totals.  An activity event without
    /// an activity name is ignored.
    pub fn add(&mut self, event: &Event)
        requires
            old(self).wf(),
        ensures
            final(self).wf(),
            final(self).leak == old(self).leak,
            match event.charge_type {
                ChargeType::EnRoute => {
                    &&& final(self).en_route_charge as int == clamp_i64(
                        old(self).en_route_charge + event.charge,
                    )
                    &&& final(self).en_route_events as int == (if old(self).en_route_events
                        < u64::MAX {
                        old(self).en_route_events + 1
                    } else {
                        u64::MAX as int
                    })
                    &&& final(self).activity_charge_map == old(self).activity_charge_map
                    &&& final(self).activity_events_map == old(self).activity_events_map
                },
                ChargeType::Activity => {
                    &&& final(self).en_route_charge == old(self).en_route_charge
                    &&& final(self).en_route_events == old(self).en_route_events
                    &&& (match event.activity {
                        Some(act) => {
                            let prev_c: int = if old(self).activity_charge_map@.contains_key(
                                act@,
                            ) {
                                old(self).activity_charge_map@[act@] as int
                            } else {
                                0
                            };
                            let prev_n: int = if old(self).activity_events_map@.contains_key(
                                act@,
                            ) {
                                old(self).activity_events_map@[act@] as int
                            } else {
                                0
                            };
                            &&& final(self).activity_charge_map@ == old(self).activity_charge_map@.insert(
                                act@,
                                clamp_i64(prev_c + event.charge) as i64,
                            )
                            &&& final(self).activity_events_map@ == old(self).activity_events_map@.insert(
                                act@,
                                (if prev_n < u64::MAX {
                                    prev_n + 1
                                } else {
                                    u64::MAX as int
                                }) as u64,
                            )
                        },
                        None => final(self).activity_charge_map == old(self).activity_charge_map
                            && final(self).activity_events_map == old(self).activity_events_map,
                    })
                },
            },
    {
        match event.charge_type {
            ChargeType::EnRoute => {
                self.en_route_charge = add_sat(self.en_route_charge, event.charge);
                if self.en_route_events < u64::MAX {
                    self.en_route_events = self.en_route_events + 1;
                }
            },
            ChargeType::Activity => {
                let act = match &event.activity {
                    Some(a) => a,
                    None => {
                        return ;
                    },
                };
                let prev_c = match self.activity_charge_map.get(act) {
                    Some(v) => *v,
                    None => 0,
                };
                self.activity_charge_map.insert(act.clone(), add_sat(prev_c, event.charge));
                let prev_n = match self.activity_events_map.get(act) {
                    Some(v) => *v,
                    None => 0,
                };
                let next_n = if prev_n < u64::MAX {
                    prev_n + 1
                } else {
                    u64::MAX
                };
                self.activity_events_map.insert(act.clone(), next_n);
            },
        }
    }

    /// Add a record's leak to the total.
    pub fn add_leak(&mut self, leak: i64)
        ensures
            final(self).leak as int == clamp_i64(old(self).leak + leak),
            *final(self) == (SummaryHandler { leak: final(self).leak, ..*old(self) }),
    {
        self.leak = add_sat(self.leak, leak);
    }

    /// Apply the output scale to the leak and the event counts.
    pub fn finalise(&mut self, config: &Config)
        requires
            old(self).wf(),
            config.scale is Some,
        ensures
            final(self).wf(),
            final(self).leak as int == spec_scaled(old(self).leak as int, config.scale->0 as int),
            final(self).en_route_events as int == spec_scaled_count(
                old(self).en_route_events as int,
                config.scale->0 as int,
            ),
            final(self).en_route_charge == old(self).en_route_charge,
            final(self).activity_charge_map == old(self).activity_charge_map,
            final(self).activity_events_map.entries@.len() == old(self).activity_events_map.entries@.len(),
            forall|i: int|
                0 <= i < old(self).activity_events_map.entries@.len() ==> (
                #[trigger] final(self).activity_events_map.entries@[i]).0 == old(self).activity_events_map.entries@[i].0 && final(self).activity_events_map.entries@[i].1 as int == spec_scaled_count(
                    old(self).activity_events_map.entries@[i].1 as int,
                    config.scale->0 as int,
                ),
    {
        let scale = match config.scale {
            Some(s) => s,
            None => 1000,
        };
        self.leak = apply_scale(self.leak, scale);
        self.en_route_events = scale_count(self.en_route_events, scale);
        let n = self.activity_events_map.entries.len();
        let ghost pre = self.activity_events_map.entries@;
        for i in 0..n
            invariant
                n == pre.len(),
                n == self.activity_events_map.entries@.len(),
                self.en_route_charge == old(self).en_route_charge,
                self.activity_charge_map == old(self).activity_charge_map,
                self.leak as int == spec_scaled(old(self).leak as int, scale as int),
                self.en_route_events as int == spec_scaled_count(
                    old(self).en_route_events as int,
                    scale as int,
                ),
                config.scale matches Some(sc) && sc == scale,
                forall|w: int|
                    0 <= w < n ==> (#[trigger] self.activity_events_map.entries@[w]).0
                        == pre[w].0,
                forall|w: int|
                    i <= w < n ==> (#[trigger] self.activity_events_map.entries@[w]).1
                        == pre[w].1,
                forall|w: int|
                    0 <= w < i ==> (#[trigger] self.activity_events_map.entries@[w]).1 as int
                        == spec_scaled_count(pre[w].1 as int, scale as int),
                pre == old(self).activity_events_map.entries@,
        {
            let v = self.activity_events_map.entries[i].1;
            self.activity_events_map.entries[i].1 = scale_count(v, scale);
        }
        proof {
            assert(self.activity_events_map.wf()) by {
                assert forall|a: int, b: int|
                    0 <= a < b < self.activity_events_map.entries@.len() implies (
                #[trigger] self.activity_events_map.entries@[a]).0@ != (
                #[trigger] self.activity_events_map.entries@[b]).0@ by {
                    assert(self.activity_events_map.entries@[a].0 == pre[a].0);
                    assert(self.activity_events_map.entries@[b].0 == pre[b].0);
                    assert(old(self).activity_events_map.wf());
                }
            }
        }
    }
}

/// A count scaled by `scale` thousandths, truncated, floored at zero and
/// capped at the `u64` range.
pub open spec fn spec_scaled_count(n: int, scale: int) -> int {
    let v = trunc_div(n * scale, 1000);
    if v < 0 {
        0
    } else if v > u64::MAX as int {
        u64::MAX as int
    } else {
        v
    }
}

/// Scale an event count by `scale` thousandths.
pub fn scale_count(n: u64, scale: i64) -> (r: u64)
    ensures
        r as int == spec_scaled_count(n as int, scale as int),
{
    proof {
        assert(n as int * scale as int <= i128::MAX as int && n as int * scale as int
            > i128::MIN as int) by (nonlinear_arith)
            requires
                0 <= n as int <= u64::MAX as int,
                i64::MIN as int <= scale as int <= i64::MAX as int,
        ;
    }
    let p: i128 = i128_trunc_div(n as i128 * scale as i128, 1000);
    if p < 0 {
        0
    } else if p > u64::MAX as i128 {
        u64::MAX
    } else {
        p as u64
    }
}

/// The decimal digits of a number.
pub open spec fn spec_decimal(n: int) -> Seq<char>
    decreases n,
{
    if n <= 0 {
        seq!['0']
    } else if n < 10 {
        seq![spec_digit_char(n)]
    } else {
        spec_decimal(n / 10).push(spec_digit_char(n % 10))
    }
}

/// The digit character for a value below ten.
pub open spec fn spec_digit_char(d: int) -> char {
    if d == 0 {
        '0'
    } else if d == 1 {
        '1'
    } else if d == 2 {
        '2'
    } else if d == 3 {
        '3'
    } else if d == 4 {
        '4'
    } else if d == 5 {
        '5'
    } else if d == 6 {
        '6'
    } else if d == 7 {
        '7'
    } else if d == 8 {
        '8'
    } else {
        '9'
    }
}

/// Render a number in decimal.
pub fn u64_string(n: u64) -> (r: String)
    ensures
        r@ == spec_decimal(n as int),
    decreases n,
{
    if n < 10 {
        digit_string(n)
    } else {
        let mut s = u64_string(n / 10);
        let d = digit_string(n % 10);
        s.append(d.as_str());
        proof {
            assert(s@ =~= spec_decimal(n as int));
        }
        s
    }
}

/// One digit as text.
fn digit_string(d: u64) -> (r: String)
    requires
        d < 10,
    ensures
        r@ == seq![spec_digit_char(d as int)],
        r@.len() == 1,
{
    let s = if d == 0 {
        String::from_str("0")
    } else if d == 1 {
        String::from_str("1")
    } else if d == 2 {
        String::from_str("2")
    } else if d == 3 {
        String::from_str("3")
    } else if d == 4 {
        String::from_str("4")
    } else if d == 5 {
        String::from_str("5")
    } else if d == 6 {
        String::from_str("6")
    } else if d == 7 {
        String::from_str("7")
    } else if d == 8 {
        String::from_str("8")
    } else {
        String::from_str("9")
    };
    proof {
        reveal_strlit("0");
        reveal_strlit("1");
        reveal_strlit("2");
        reveal_strlit("3");
        reveal_strlit("4");
        reveal_strlit("5");
        reveal_strlit("6");
        reveal_strlit("7");
        reveal_strlit("8");
        reveal_strlit("9");
        assert(s@ =~= seq![spec_digit_char(d as int)]);
    }
    s
}

/// A human-readable energy amount in mkWs.
#[derive(Debug, PartialEq, Clone, Copy)]
pub struct HumanEnergyCount {
    pub value: i64,
}

/// The unit thresholds in mkWs, largest first, as (size, name index).
/// Index 0 is tWh down to index 4 for kWs.
pub open spec fn spec_unit_size(i: int) -> int {
    if i == 0 {
        3_600_000_000_000_000
    } else if i == 1 {
        3_600_000_000_000
    } else if i == 2 {
        3_600_000_000
    } else if i == 3 {
        3_600_000
    } else {
        1000
    }
}

/// The chosen unit: the first index, from the largest unit down, where the
/// value plus half the next unit reaches one and a half of the current.
pub open spec fn spec_unit_index(v: int) -> int {
    if v + spec_unit_size(1) / 2 >= spec_unit_size(0) + spec_unit_size(0) / 2 {
        0
    } else if v + spec_unit_size(2) / 2 >= spec_unit_size(1) + spec_unit_size(1) / 2 {
        1
    } else if v + spec_unit_size(3) / 2 >= spec_unit_size(2) + spec_unit_size(2) / 2 {
        2
    } else if v + spec_unit_size(4) / 2 >= spec_unit_size(3) + spec_unit_size(3) / 2 {
        3
    } else {
        4
    }
}

/// The amount in the chosen unit, rounded to the nearest whole number and
/// floored at zero.
pub open spec fn spec_unit_amount(v: int, unit: int) -> int {
    if v <= 0 {
        0
    } else {
        (v + unit / 2) / unit
    }
}

impl HumanEnergyCount {
    /// The amount and the unit name, as text: "2 kWh".
    pub fn render(&self) -> (r: String)
        ensures
            ({
                let unit = spec_unit_size(spec_unit_index(self.value as int));
                let amount = spec_unit_amount(self.value as int, unit);
                r@ == spec_decimal(amount) + spec_unit_name(spec_unit_index(self.value as int))
            }),
    {
        let v = self.value;
        let idx: usize = if v >= 5_400_000_000_000_000 - 1_800_000_000_000 {
            0
        } else if v >= 5_400_000_000_000 - 1_800_000_000 {
            1
        } else if v >= 5_400_000_000 - 1_800_000 {
            2
        } else if v >= 5_400_000 - 500 {
            3
        } else {
            4
        };
        let unit: i64 = if idx == 0 {
            3_600_000_000_000_000
        } else if idx == 1 {
            3_600_000_000_000
        } else if idx == 2 {
            3_600_000_000
        } else if idx == 3 {
            3_600_000
        } else {
            1000
        };
        let amount: u64 = if v <= 0 {
            0
        } else {
            ((v as u64) + (unit as u64) / 2) / (unit as u64)
        };
        let mut s = u64_string(amount);
        let name = if idx == 0 {
            String::from_str(" TWh")
        } else if idx == 1 {
            String::from_str(" GWh")
        } else if idx == 2 {
            String::from_str(" MWh")
        } else if idx == 3 {
            String::from_str(" kWh")
        } else {
            String::from_str(" kWs")
        };
        s.append(name.as_str());
        proof {
            assert(idx as int == spec_unit_index(v as int));
            assert(unit as int == spec_unit_size(idx as int));
            assert(amount as int == spec_unit_amount(v as int, unit as int));
        }
        s
    }
}

/// The unit's display name, with its leading space.
pub open spec fn spec_unit_name(i: int) -> Seq<char> {
    if i == 0 {
        " TWh"@
    } else if i == 1 {
        " GWh"@
    } else if i == 2 {
        " MWh"@
    } else if i == 3 {
        " kWh"@
    } else {
        " kWs"@
    }
}

} // verus!
