//! The typed configuration: global knobs and the four spec groups.
//!
//! The scale is held in thousandths (1000 is neutral), the closing
//! precision in mkWs.

use vstd::prelude::*;
use crate::group::ConfigGroup;
use crate::groups::{ActivitySpec, BatterySpec, EnRouteSpec, TriggerSpec};

verus! {

#[derive(Debug, PartialEq)]
pub enum BatsimConfigError {
    InvalidScale,
    AgentMissingEnRouteCharging(String),
    AgentMissingTrigger(String),
}

#[derive(Debug, PartialEq)]
pub struct Config {
    pub name: Option<String>,
    /// Output scale in thousandths; 1000 leaves outputs unscaled.
    pub scale: Option<i64>,
    /// Loop-closing precision in mkWs.
    pub precision: Option<i64>,
    /// The largest number of days simulated before a forced closure.
    pub patience: Option<usize>,
    pub seed: Option<u64>,
    pub battery_group: ConfigGroup<BatterySpec>,
    pub trigger_group: ConfigGroup<TriggerSpec>,
    pub enroute_group: ConfigGroup<EnRouteSpec>,
    pub activity_group: ConfigGroup<ActivitySpec>,
}

impl Default for Config {
    /// Neutral scale, one-kWs precision, a hundred days of patience, the
    /// default battery, trigger and en-route specs, and no activity specs.
    fn default() -> (r: Config)
        ensures
            r.name is None,
            r.scale == Some(1000i64),
            r.precision == Some(1000i64),
            r.patience == Some(100usize),
            r.seed is None,
            r.battery_group.specs@.len() == 1,
            r.battery_group.specs@[0].capacity == 360_000_000,
            r.battery_group.specs@[0].initial == 360_000_000,
            r.battery_group.specs@[0].consumption_rate == 540,
            r.battery_group.specs@[0].p is None,
            r.battery_group.specs@[0].filters is None,
            r.trigger_group.specs@.len() == 1,
            r.trigger_group.specs@[0].trigger == 200_000_000,
            r.trigger_group.specs@[0].p is None,
            r.trigger_group.specs@[0].filters is None,
            r.enroute_group.specs@.len() == 1,
            r.enroute_group.specs@[0].charge_rate == 10_000,
            r.enroute_group.specs@[0].p is None,
            r.enroute_group.specs@[0].filters is None,
            r.activity_group.specs@.len() == 0,
    {
        let mut batteries: Vec<BatterySpec> = Vec::new();
        batteries.push(BatterySpec::default());
        let mut triggers: Vec<TriggerSpec> = Vec::new();
        triggers.push(TriggerSpec::default());
        let mut enroutes: Vec<EnRouteSpec> = Vec::new();
        enroutes.push(EnRouteSpec::default());
        let r = Config {
            name: None,
            scale: Some(1000),
            precision: Some(1000),
            patience: Some(100),
            seed: None,
            battery_group: ConfigGroup::from_vec(batteries),
            trigger_group: ConfigGroup::from_vec(triggers),
            enroute_group: ConfigGroup::from_vec(enroutes),
            activity_group: ConfigGroup::from_vec(Vec::new()),
        };
        r
    }
}

impl Config {
    /// A negative scale is rejected; anything else is accepted.
    pub fn valid(&self) -> (r: Result<(), BatsimConfigError>)
        requires
            self.scale is Some,
        ensures
            r is Ok <==> self.scale->0 >= 0,
            r is Err ==> r->Err_0 == BatsimConfigError::InvalidScale,
    {
        match self.scale {
            Some(s) if s < 0 => Err(BatsimConfigError::InvalidScale),
            _ => Ok(()),
        }
    }
}

} // verus!
