//! Per-agent configuration: one battery, trigger and en-route spec found in
//! their groups, and the list of matching activity specs.

use vstd::prelude::*;
use rand::rngs::SmallRng;
use crate::config::{BatsimConfigError, Config};
use crate::filter::PersonAttributes;
use crate::group::{spec_filter_ok, spec_found_ok, spec_none_found_ok};
use crate::groups::{ActivitySpec, BatterySpec, EnRouteSpec, TriggerSpec};
use crate::population::Person;

verus! {

pub struct AgentConfig<'a> {
    pub pid: String,
    pub battery: Option<&'a BatterySpec>,
    pub trigger: Option<&'a TriggerSpec>,
    pub en_route: Option<&'a EnRouteSpec>,
    pub activities: Vec<&'a ActivitySpec>,
}

/// The spec names that the specs row carries: the spec's name, or "None"
/// for an absent spec.
pub open spec fn spec_name_or_none<T>(o: Option<&T>, name: Option<String>) -> Seq<char> {
    match o {
        None => "None"@,
        Some(_) => match name {
            Some(n) => n@,
            None => "None"@,
        },
    }
}

/// A plain row describing an agent's resolved configuration.
pub struct AgentConfigRecord {
    pub pid: String,
    pub battery: String,
    pub trigger: String,
    pub en_route: String,
    pub activities: String,
}

/// The names of the activity specs that carry one, in order.
pub open spec fn spec_names_of(specs: Seq<&ActivitySpec>, i: int) -> Seq<String>
    decreases i,
{
    if i <= 0 {
        Seq::empty()
    } else {
        match specs[i - 1].name {
            Some(n) => spec_names_of(specs, i - 1).push(n),
            None => spec_names_of(specs, i - 1),
        }
    }
}

/// The names joined with `+`.
pub open spec fn spec_join_plus(names: Seq<String>) -> Seq<char>
    decreases names.len(),
{
    if names.len() == 0 {
        Seq::empty()
    } else if names.len() == 1 {
        names[0]@
    } else {
        spec_join_plus(names.drop_last()) + "+"@ + names.last()@
    }
}

impl<'a> AgentConfig<'a> {
    /// Resolve one battery, trigger and en-route spec, and every matching
    /// activity spec, from the person's attributes, in that order.
    pub fn build(
        config: &'a Config,
        pid: String,
        person: &Person,
        rng: &mut SmallRng,
    ) -> (r: AgentConfig<'a>)
        requires
            person.attributes.wf(),
        ensures
            r.pid == pid,
            match r.battery {
                Some(s) => spec_found_ok(config.battery_group.specs@, person.attributes@, *s),
                None => spec_none_found_ok(config.battery_group.specs@, person.attributes@),
            },
            match r.trigger {
                Some(s) => spec_found_ok(config.trigger_group.specs@, person.attributes@, *s),
                None => spec_none_found_ok(config.trigger_group.specs@, person.attributes@),
            },
            match r.en_route {
                Some(s) => spec_found_ok(config.enroute_group.specs@, person.attributes@, *s),
                None => spec_none_found_ok(config.enroute_group.specs@, person.attributes@),
            },
            spec_filter_ok(
                config.activity_group.specs@,
                person.attributes@,
                r.activities@.map_values(|x: &ActivitySpec| *x),
            ),
    {
        let attributes = &person.attributes;
        AgentConfig {
            pid,
            battery: config.battery_group.find(attributes, rng),
            trigger: config.trigger_group.find(attributes, rng),
            en_route: config.enroute_group.find(attributes, rng),
            activities: config.activity_group.filter(attributes, rng),
        }
    }

    /// A battery without en-route charging, or without a trigger, is
    /// rejected; anything else is accepted.
    pub fn validate(&self) -> (r: Result<(), BatsimConfigError>)
        ensures
            r is Ok <==> (self.battery is Some ==> (self.trigger is Some && self.en_route
                is Some)),
            (self.battery is Some && self.en_route is None) ==> (r matches Err(e) && e
                == BatsimConfigError::AgentMissingEnRouteCharging(self.pid)),
            (self.battery is Some && self.en_route is Some && self.trigger is None) ==> (r matches
                Err(e) && e == BatsimConfigError::AgentMissingTrigger(self.pid)),
    {
        if self.battery.is_some() && self.en_route.is_none() {
            Err(BatsimConfigError::AgentMissingEnRouteCharging(self.pid.clone()))
        } else if self.battery.is_some() && self.trigger.is_none() {
            Err(BatsimConfigError::AgentMissingTrigger(self.pid.clone()))
        } else {
            Ok(())
        }
    }

    /// The specs row: each found spec's name (or "None"), and the names of
    /// the activity specs joined with `+`.
    pub fn to_record(&self) -> (r: AgentConfigRecord)
        ensures
            r.pid@ == self.pid@,
            r.battery@ == spec_name_or_none(
                self.battery,
                match self.battery {
                    Some(s) => s.name,
                    None => None,
                },
            ),
            r.trigger@ == spec_name_or_none(
                self.trigger,
                match self.trigger {
                    Some(s) => s.name,
                    None => None,
                },
            ),
            r.en_route@ == spec_name_or_none(
                self.en_route,
                match self.en_route {
                    Some(s) => s.name,
                    None => None,
                },
            ),
            r.activities@ == spec_join_plus(
                spec_names_of(self.activities@, self.activities@.len() as int),
            ),
    {
        let battery = name_or_none_battery(&self.battery);
        let trigger = name_or_none_trigger(&self.trigger);
        let en_route = name_or_none_enroute(&self.en_route);
        let mut names: Vec<String> = Vec::new();
        let n = self.activities.len();
        for i in 0..n
            invariant
                n == self.activities@.len(),
                names@ == spec_names_of(self.activities@, i as int),
        {
            match &self.activities[i].name {
                Some(name) => {
                    names.push(name.clone());
                },
                None => {},
            }
            proof {
                assert(names@ =~= spec_names_of(self.activities@, i + 1));
            }
        }
        let mut activities = String::new();
        let m = names.len();
        for i in 0..m
            invariant
                m == names@.len(),
                activities@ == spec_join_plus(names@.subrange(0, i as int)),
        {
            if i > 0 {
                activities.append("+");
            }
            activities.append(names[i].as_str());
            proof {
                assert(names@.subrange(0, i + 1).drop_last() =~= names@.subrange(0, i as int));
                assert(names@.subrange(0, i + 1).last() == names@[i as int]);
                if i == 0 {
                    assert(names@.subrange(0, 1).len() == 1);
                }
            }
        }
        proof {
            assert(names@.subrange(0, m as int) =~= names@);
        }
        AgentConfigRecord {
            pid: self.pid.clone(),
            battery,
            trigger,
            en_route,
            activities,
        }
    }
}

/// The battery spec's name, or "None".
fn name_or_none_battery(o: &Option<&BatterySpec>) -> (r: String)
    ensures
        r@ == spec_name_or_none(
            *o,
            match *o {
                Some(s) => s.name,
                None => None,
            },
        ),
{
    match o {
        None => String::from_str("None"),
        Some(s) => match &s.name {
            Some(n) => n.clone(),
            None => String::from_str("None"),
        },
    }
}

/// The trigger spec's name, or "None".
fn name_or_none_trigger(o: &Option<&TriggerSpec>) -> (r: String)
    ensures
        r@ == spec_name_or_none(
            *o,
            match *o {
                Some(s) => s.name,
                None => None,
            },
        ),
{
    match o {
        None => String::from_str("None"),
        Some(s) => match &s.name {
            Some(n) => n.clone(),
            None => String::from_str("None"),
        },
    }
}

/// The en-route spec's name, or "None".
fn name_or_none_enroute(o: &Option<&EnRouteSpec>) -> (r: String)
    ensures
        r@ == spec_name_or_none(
            *o,
            match *o {
                Some(s) => s.name,
                None => None,
            },
        ),
{
    match o {
        None => String::from_str("None"),
        Some(s) => match &s.name {
            Some(n) => n.clone(),
            None => String::from_str("None"),
        },
    }
}

} // verus!
