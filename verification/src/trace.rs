//! Traces: the ordered activities and links of one person's repeating day.

use vstd::prelude::*;

verus! {

/// A node location in milli-units of the native coordinates.
pub type Node = (i64, i64);

/// A stationary engagement.  Times are seconds from day start.
#[derive(Debug, PartialEq)]
pub struct Activity {
    pub start_time: u32,
    pub end_time: u32,
    pub act: String,
    pub node: Node,
}

impl Activity {
    /// The activity's length in seconds; an end before the start counts as
    /// no time at all.
    pub open spec fn spec_duration(self) -> int {
        if self.end_time >= self.start_time {
            self.end_time - self.start_time
        } else {
            0
        }
    }

    pub fn duration(&self) -> (r: u32)
        ensures
            r as int == self.spec_duration(),
    {
        if self.end_time >= self.start_time {
            self.end_time - self.start_time
        } else {
            0
        }
    }
}

/// A traversed road segment.  The distance is in millimetres.
#[derive(Debug, PartialEq)]
pub struct Link {
    pub start_time: u32,
    pub end_time: u32,
    pub lid: String,
    pub distance: i64,
    pub node: Node,
}

impl Link {
    pub open spec fn spec_duration(self) -> int {
        if self.end_time >= self.start_time {
            self.end_time - self.start_time
        } else {
            0
        }
    }

    pub fn duration(&self) -> (r: u32)
        ensures
            r as int == self.spec_duration(),
    {
        if self.end_time >= self.start_time {
            self.end_time - self.start_time
        } else {
            0
        }
    }
}

#[derive(Debug, PartialEq)]
pub enum Component {
    ActivityType(Activity),
    LinkType(Link),
}

/// The day-wrap was asked of a trace whose ends are not both activities.
#[derive(Debug, PartialEq, Eq, Structural, Clone, Copy)]
pub struct WrapError;

#[derive(Debug, PartialEq)]
pub struct Trace {
    pub plan: Vec<Component>,
}

impl Trace {
    pub fn new() -> (r: Trace)
        ensures
            r.plan@.len() == 0,
    {
        Trace { plan: Vec::new() }
    }

    pub fn add(&mut self, component: Component)
        ensures
            final(self).plan@ == old(self).plan@.push(component),
    {
        self.plan.push(component);
    }

    pub fn len(&self) -> (r: usize)
        ensures
            r == self.plan@.len(),
    {
        self.plan.len()
    }

    pub fn get(&self, i: usize) -> (r: &Component)
        requires
            i < self.plan@.len(),
        ensures
            *r == self.plan@[i as int],
    {
        &self.plan[i]
    }

    /// Whether any component is a link.
    pub open spec fn spec_contains_link(self) -> bool {
        exists|i: int| 0 <= i < self.plan@.len() && self.plan@[i] is LinkType
    }

    pub fn contains_link(&self) -> (r: bool)
        ensures
            r == self.spec_contains_link(),
    {
        let n = self.plan.len();
        for i in 0..n
            invariant
                n == self.plan@.len(),
                forall|j: int| 0 <= j < i ==> !(self.plan@[j] is LinkType),
        {
            if let Component::LinkType(_) = &self.plan[i] {
                proof {
                    assert(self.plan@[i as int] is LinkType);
                }
                return true;
            }
        }
        false
    }

    /// The trace can be day-wrapped: at least two components, and the first
    /// and last are activities of the same name.
    pub open spec fn spec_is_wrappable(self) -> bool {
        &&& self.plan@.len() > 1
        &&& self.plan@.first() is ActivityType
        &&& self.plan@.last() is ActivityType
        &&& self.plan@.first()->ActivityType_0.act@ == self.plan@.last()->ActivityType_0.act@
    }

    pub fn is_wrappable(&self) -> (r: bool)
        ensures
            r == self.spec_is_wrappable(),
    {
        if self.plan.len() <= 1 {
            return false;
        }
        let first_act = match &self.plan[0] {
            Component::ActivityType(activity) => &activity.act,
            _ => {
                return false;
            },
        };
        let last_act = match &self.plan[self.plan.len() - 1] {
            Component::ActivityType(activity) => &activity.act,
            _ => {
                return false;
            },
        };
        *first_act == *last_act
    }

    /// The wrap applies: at least two components, both ends activities,
    /// and the grown end time still representable.
    pub open spec fn spec_wrap_ok(self) -> bool {
        &&& self.plan@.len() > 1
        &&& self.plan@.first() is ActivityType
        &&& self.plan@.last() is ActivityType
        &&& self.plan@.last()->ActivityType_0.end_time
            + self.plan@.first()->ActivityType_0.spec_duration() <= u32::MAX
    }

    /// The trace after a successful wrap: the first component dropped, and
    /// the last activity's end time grown by the first activity's length.
    pub open spec fn spec_wrapped(self) -> Seq<Component> {
        let first = self.plan@.first()->ActivityType_0;
        let last = self.plan@.last()->ActivityType_0;
        self.plan@.subrange(1, self.plan@.len() - 1).push(
            Component::ActivityType(
                Activity {
                    end_time: (last.end_time + first.spec_duration()) as u32,
                    ..last
                },
            ),
        )
    }

    /// Fold the first activity into the last: the last activity's end time
    /// grows by the first's length and the first component is dropped, so
    /// the wrapped trace starts and ends with a link.  Fails when the ends
    /// are not both activities.
    pub fn wrap(&mut self) -> (r: Result<(), WrapError>)
        ensures
            r is Ok <==> old(self).spec_wrap_ok(),
            r is Ok ==> final(self).plan@ == old(self).spec_wrapped(),
            r is Err ==> *final(self) == *old(self),
    {
        let n = self.plan.len();
        if n <= 1 {
            return Err(WrapError);
        }
        let start_duration: u32 = match &self.plan[0] {
            Component::ActivityType(activity) => activity.duration(),
            Component::LinkType(_) => {
                return Err(WrapError);
            },
        };
        match &self.plan[n - 1] {
            Component::ActivityType(activity) => {
                if activity.end_time > u32::MAX - start_duration {
                    return Err(WrapError);
                }
            },
            Component::LinkType(_) => {
                return Err(WrapError);
            },
        }
        let last = match self.plan.pop() {
            Some(Component::ActivityType(activity)) => activity,
            _ => {
                return Err(WrapError);
            },
        };
        self.plan.push(
            Component::ActivityType(
                Activity {
                    start_time: last.start_time,
                    end_time: last.end_time + start_duration,
                    act: last.act,
                    node: last.node,
                },
            ),
        );
        self.plan.remove(0);
        proof {
            assert(final(self).plan@ =~= old(self).spec_wrapped());
        }
        Ok(())
    }
}


/// The component's end does not precede its start.
pub open spec fn comp_times_ok(c: Component) -> bool {
    match c {
        Component::ActivityType(a) => a.end_time >= a.start_time,
        Component::LinkType(l) => l.end_time >= l.start_time,
    }
}

/// Every component's end is at or after its start.
pub open spec fn strict_times_ok(plan: Seq<Component>) -> bool {
    forall|i: int| 0 <= i < plan.len() ==> comp_times_ok(#[trigger] plan[i])
}

/// Every component's end is at or after its start, except that the final
/// component may be an activity closed at or beyond the day's end.
pub open spec fn final_times_ok(plan: Seq<Component>) -> bool {
    forall|i: int|
        0 <= i < plan.len() ==> comp_times_ok(#[trigger] plan[i]) || (i == plan.len() - 1
            && plan[i] is ActivityType && plan[i]->ActivityType_0.end_time >= 86400)
}

} // verus!
