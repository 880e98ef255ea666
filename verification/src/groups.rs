//! The four filterable specification kinds.
//!
//! Energies are milli-kilowatt-seconds (mkWs), charge rates milli-kilowatts
//! (mkW, which is mkWs per second), consumption rates mkWs per metre, and
//! probabilities and trigger fractions parts per billion.

use vstd::prelude::*;
use crate::filter::Filters;

verus! {

/// A specification with optional attribute filters and an optional
/// probability gate.
pub trait FilterableSpec: Sized {
    spec fn spec_filters(&self) -> Option<Filters>;

    spec fn spec_p(&self) -> Option<u32>;

    fn get_filters(&self) -> (r: &Option<Filters>)
        ensures
            *r == self.spec_filters(),
    ;

    fn get_p(&self) -> (r: Option<u32>)
        ensures
            r == self.spec_p(),
    ;
}

/// A battery: capacity and initial state in mkWs, consumption in mkWs per metre.
#[derive(Debug, PartialEq, Clone)]
pub struct BatterySpec {
    pub name: Option<String>,
    pub capacity: i64,
    pub initial: i64,
    pub consumption_rate: i64,
    pub p: Option<u32>,
    pub filters: Option<Filters>,
}

impl FilterableSpec for BatterySpec {
    open spec fn spec_filters(&self) -> Option<Filters> {
        self.filters
    }

    open spec fn spec_p(&self) -> Option<u32> {
        self.p
    }

    fn get_filters(&self) -> (r: &Option<Filters>) {
        &self.filters
    }

    fn get_p(&self) -> (r: Option<u32>) {
        self.p
    }
}

impl BatterySpec {
    /// A one-kWs battery draining one kWs per metre, for exercising the model.
    pub fn unit() -> (r: BatterySpec)
        ensures
            r.capacity == 1000,
            r.initial == 1000,
            r.consumption_rate == 1000,
            r.p is None,
            r.filters is None,
    {
        BatterySpec {
            name: Some(String::from_str("unit")),
            capacity: 1000,
            initial: 1000,
            consumption_rate: 1000,
            p: None,
            filters: None,
        }
    }
}

impl Default for BatterySpec {
    /// A 100 kWh battery, full, using 0.15 kWh per km.
    fn default() -> (r: BatterySpec)
        ensures
            r.capacity == 360_000_000,
            r.initial == 360_000_000,
            r.consumption_rate == 540,
            r.p is None,
            r.filters is None,
            r.name matches Some(n) && n@ == "default"@,
    {
        BatterySpec {
            name: Some(String::from_str("default")),
            capacity: 360_000_000,
            initial: 360_000_000,
            consumption_rate: 540,
            p: None,
            filters: None,
        }
    }
}

/// Builder for a [`BatterySpec`].
pub struct BatterySpecBuilder {
    pub battery: BatterySpec,
}

impl BatterySpecBuilder {
    pub fn new() -> (r: BatterySpecBuilder)
        ensures
            r.battery.capacity == 360_000_000,
            r.battery.initial == 360_000_000,
            r.battery.consumption_rate == 540,
            r.battery.p is None,
            r.battery.filters is None,
            r.battery.name matches Some(n) && n@ == "default"@,
    {
        BatterySpecBuilder { battery: BatterySpec::default() }
    }

    pub fn name(self, name: String) -> (r: BatterySpecBuilder)
        ensures
            r.battery == (BatterySpec { name: Some(name), ..self.battery }),
    {
        let mut b = self;
        b.battery.name = Some(name);
        b
    }

    /// Capacity in mkWs.
    pub fn capacity(self, capacity: i64) -> (r: BatterySpecBuilder)
        ensures
            r.battery == (BatterySpec { capacity, ..self.battery }),
    {
        let mut b = self;
        b.battery.capacity = capacity;
        b
    }

    /// Initial state in mkWs.
    pub fn initial(self, initial: i64) -> (r: BatterySpecBuilder)
        ensures
            r.battery == (BatterySpec { initial, ..self.battery }),
    {
        let mut b = self;
        b.battery.initial = initial;
        b
    }

    /// Full initial state, from the capacity.
    pub fn full(self) -> (r: BatterySpecBuilder)
        ensures
            r.battery == (BatterySpec { initial: self.battery.capacity, ..self.battery }),
    {
        let mut b = self;
        b.battery.initial = b.battery.capacity;
        b
    }

    /// Consumption rate in mkWs per metre.
    pub fn consumption_rate(self, consumption_rate: i64) -> (r: BatterySpecBuilder)
        ensures
            r.battery == (BatterySpec { consumption_rate, ..self.battery }),
    {
        let mut b = self;
        b.battery.consumption_rate = consumption_rate;
        b
    }

    pub fn build(self) -> (r: BatterySpec)
        ensures
            r == self.battery,
    {
        self.battery
    }
}

/// The battery fraction at or below which en-route charging is forced,
/// in parts per billion.
#[derive(Debug, PartialEq, Clone)]
pub struct TriggerSpec {
    pub name: Option<String>,
    pub trigger: u32,
    pub p: Option<u32>,
    pub filters: Option<Filters>,
}

impl FilterableSpec for TriggerSpec {
    open spec fn spec_filters(&self) -> Option<Filters> {
        self.filters
    }

    open spec fn spec_p(&self) -> Option<u32> {
        self.p
    }

    fn get_filters(&self) -> (r: &Option<Filters>) {
        &self.filters
    }

    fn get_p(&self) -> (r: Option<u32>) {
        self.p
    }
}

impl TriggerSpec {
    /// A trigger at zero: charging is forced only at or below an empty battery.
    pub fn empty() -> (r: TriggerSpec)
        ensures
            r.trigger == 0,
            r.p is None,
            r.filters is None,
    {
        TriggerSpec {
            name: Some(String::from_str("empty")),
            trigger: 0,
            p: None,
            filters: None,
        }
    }
}

impl Default for TriggerSpec {
    /// A trigger at a fifth of capacity.
    fn default() -> (r: TriggerSpec)
        ensures
            r.trigger == 200_000_000,
            r.p is None,
            r.filters is None,
            r.name matches Some(n) && n@ == "default"@,
    {
        TriggerSpec {
            name: Some(String::from_str("default")),
            trigger: 200_000_000,
            p: None,
            filters: None,
        }
    }
}

/// En-route charging at the given rate in mkW.
#[derive(Debug, PartialEq, Clone)]
pub struct EnRouteSpec {
    pub name: Option<String>,
    pub charge_rate: i64,
    pub p: Option<u32>,
    pub filters: Option<Filters>,
}

impl FilterableSpec for EnRouteSpec {
    open spec fn spec_filters(&self) -> Option<Filters> {
        self.filters
    }

    open spec fn spec_p(&self) -> Option<u32> {
        self.p
    }

    fn get_filters(&self) -> (r: &Option<Filters>) {
        &self.filters
    }

    fn get_p(&self) -> (r: Option<u32>) {
        self.p
    }
}

impl EnRouteSpec {
    pub fn new(name: Option<String>, rate: i64, p: Option<u32>, filters: Option<Filters>) -> (r:
        EnRouteSpec)
        ensures
            r == (EnRouteSpec { name, charge_rate: rate, p, filters }),
    {
        EnRouteSpec { name, charge_rate: rate, p, filters }
    }
}

impl Default for EnRouteSpec {
    /// En-route charging at 10 kW.
    fn default() -> (r: EnRouteSpec)
        ensures
            r.charge_rate == 10_000,
            r.p is None,
            r.filters is None,
            r.name matches Some(n) && n@ == "default"@,
    {
        EnRouteSpec {
            name: Some(String::from_str("default")),
            charge_rate: 10_000,
            p: None,
            filters: None,
        }
    }
}

/// Charging during the named activities at the given rate in mkW.
#[derive(Debug, PartialEq, Clone)]
pub struct ActivitySpec {
    pub name: Option<String>,
    pub activities: Vec<String>,
    pub charge_rate: i64,
    pub p: Option<u32>,
    pub filters: Option<Filters>,
}

impl FilterableSpec for ActivitySpec {
    open spec fn spec_filters(&self) -> Option<Filters> {
        self.filters
    }

    open spec fn spec_p(&self) -> Option<u32> {
        self.p
    }

    fn get_filters(&self) -> (r: &Option<Filters>) {
        &self.filters
    }

    fn get_p(&self) -> (r: Option<u32>) {
        self.p
    }
}

impl ActivitySpec {
    pub fn new(
        name: Option<String>,
        activities: Vec<String>,
        charge_rate: i64,
        p: Option<u32>,
        filters: Option<Filters>,
    ) -> (r: ActivitySpec)
        ensures
            r == (ActivitySpec { name, activities, charge_rate, p, filters }),
    {
        ActivitySpec { name, activities, charge_rate, p, filters }
    }

    /// The same charging terms without the gating fields.
    pub fn spec(&self) -> (r: ActivitySpec)
        ensures
            r.name == self.name,
            r.activities@ == self.activities@,
            r.charge_rate == self.charge_rate,
            r.p is None,
            r.filters is None,
    {
        ActivitySpec {
            name: clone_opt_string(&self.name),
            activities: clone_string_vec(&self.activities),
            charge_rate: self.charge_rate,
            p: None,
            filters: None,
        }
    }
}

impl Default for ActivitySpec {
    /// Charging at home at 3 kW.
    fn default() -> (r: ActivitySpec)
        ensures
            r.activities@.len() == 1,
            r.activities@[0]@ == "home"@,
            r.charge_rate == 3_000,
            r.p is None,
            r.filters is None,
            r.name matches Some(n) && n@ == "default"@,
    {
        let mut activities: Vec<String> = Vec::new();
        activities.push(String::from_str("home"));
        ActivitySpec {
            name: Some(String::from_str("default")),
            activities,
            charge_rate: 3_000,
            p: None,
            filters: None,
        }
    }
}

/// A clone of an optional string.
pub fn clone_opt_string(s: &Option<String>) -> (r: Option<String>)
    ensures
        r == *s,
{
    match s {
        None => None,
        Some(v) => Some(v.clone()),
    }
}

/// A clone of a string vector, preserving every view.
pub fn clone_string_vec(v: &Vec<String>) -> (r: Vec<String>)
    ensures
        r@ == v@,
{
    let mut out: Vec<String> = Vec::new();
    let n = v.len();
    for i in 0..n
        invariant
            n == v@.len(),
            out@.len() == i,
            forall|j: int| 0 <= j < i ==> out@[j] == v@[j],
    {
        out.push(v[i].clone());
    }
    proof {
        assert(out@ =~= v@);
    }
    out
}

} // verus!
