//! Charge events and the per-day event lists that a simulation record holds.

use vstd::prelude::*;
use crate::arith::{trunc_div, i128_trunc_div};

verus! {

#[derive(Debug, PartialEq, Eq, Structural, Clone, Copy)]
pub enum ChargeType {
    EnRoute,
    Activity,
}

/// A charge event.  Charge is in mkWs, times in seconds, the location in
/// milli-units of the native coordinates.
#[derive(Debug, PartialEq)]
pub struct Event {
    pub charge_type: ChargeType,
    pub pid: String,
    pub spec: Option<String>,
    pub charge: i64,
    pub day: u32,
    pub start_time: u32,
    pub end_time: u32,
    pub activity: Option<String>,
    pub link_id: Option<String>,
    pub x: i64,
    pub y: i64,
}

impl Event {
    pub fn en_route(
        pid: String,
        spec: Option<String>,
        charge: i64,
        day: u32,
        time: (u32, u32),
        link_id: String,
        loc: (i64, i64),
    ) -> (r: Event)
        ensures
            r == (Event {
                charge_type: ChargeType::EnRoute,
                pid,
                spec,
                charge,
                day,
                start_time: time.0,
                end_time: time.1,
                activity: None,
                link_id: Some(link_id),
                x: loc.0,
                y: loc.1,
            }),
    {
        Event {
            charge_type: ChargeType::EnRoute,
            pid,
            spec,
            charge,
            day,
            start_time: time.0,
            end_time: time.1,
            activity: None,
            link_id: Some(link_id),
            x: loc.0,
            y: loc.1,
        }
    }

    pub fn activity(
        pid: String,
        spec: Option<String>,
        charge: i64,
        day: u32,
        time: (u32, u32),
        activity: String,
        loc: (i64, i64),
    ) -> (r: Event)
        ensures
            r == (Event {
                charge_type: ChargeType::Activity,
                pid,
                spec,
                charge,
                day,
                start_time: time.0,
                end_time: time.1,
                activity: Some(activity),
                link_id: None,
                x: loc.0,
                y: loc.1,
            }),
    {
        Event {
            charge_type: ChargeType::Activity,
            pid,
            spec,
            charge,
            day,
            start_time: time.0,
            end_time: time.1,
            activity: Some(activity),
            link_id: None,
            x: loc.0,
            y: loc.1,
        }
    }

    /// Spread the charge over the cycle length and renumber the day relative
    /// to the cycle start.  The charge is divided with truncation toward
    /// zero; a day before the cycle start renumbers to zero.
    pub fn normalise(&mut self, days: usize, start_day: usize)
        requires
            days >= 1,
        ensures
            *final(self) == (Event {
                charge: trunc_div(old(self).charge as int, days as int) as i64,
                day: spec_day_from(old(self).day as int, start_day as int) as u32,
                ..*old(self)
            }),
    {
        let q: i128 = i128_trunc_div(self.charge as i128, days as i128);
        self.charge = q as i64;
        if start_day <= u32::MAX as usize && self.day >= start_day as u32 {
            self.day = self.day - start_day as u32;
        } else {
            self.day = 0;
        }
    }

    /// An identical event.
    pub fn duplicate(&self) -> (r: Event)
        ensures
            r == *self,
    {
        Event {
            charge_type: self.charge_type,
            pid: self.pid.clone(),
            spec: crate::groups::clone_opt_string(&self.spec),
            charge: self.charge,
            day: self.day,
            start_time: self.start_time,
            end_time: self.end_time,
            activity: crate::groups::clone_opt_string(&self.activity),
            link_id: crate::groups::clone_opt_string(&self.link_id),
            x: self.x,
            y: self.y,
        }
    }
}


/// The day number relative to the cycle start, floored at zero.
pub open spec fn spec_day_from(day: int, start_day: int) -> int {
    if day >= start_day {
        day - start_day
    } else {
        0
    }
}

/// One simulated day's charge events.
#[derive(Debug, PartialEq)]
pub struct Day {
    pub events: Vec<Event>,
}

impl Day {
    pub fn new() -> (r: Day)
        ensures
            r.events@.len() == 0,
    {
        Day { events: Vec::new() }
    }

    pub fn push(&mut self, event: Event)
        ensures
            final(self).events@ == old(self).events@.push(event),
    {
        self.events.push(event);
    }

    pub fn len(&self) -> (r: usize)
        ensures
            r == self.events@.len(),
    {
        self.events.len()
    }

    pub fn get(&self, i: usize) -> (r: &Event)
        requires
            i < self.events@.len(),
        ensures
            *r == self.events@[i as int],
    {
        &self.events[i]
    }
}

} // verus!
