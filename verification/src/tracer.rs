//! The trace builder: folds MATSim events and the network into per-person
//! traces, then finalises open activities, drops non-travellers and wraps
//! the day.

use vstd::prelude::*;
use crate::arith::trunc_div;
use crate::kvmap::KvMap;
use crate::matsim::MATSimEvent;
use crate::network::Network;
use crate::population::{lex_lt, Person, Population};
use crate::trace::{
    comp_times_ok,
    final_times_ok,
    strict_times_ok,
    Activity,
    Component,
    Link,
    Node,
};

verus! {

/// An event referenced a link that the network does not hold.
#[derive(Debug, PartialEq)]
pub enum TracerError {
    MissingLink(String),
}

/// Per-person open activity starts and link entries.
pub struct TraceHandler {
    pub activity_starts: KvMap<(u32, Option<String>, Option<String>)>,
    pub link_entries: KvMap<u32>,
}

/// Every open activity start and link entry is at or before `t`.
pub open spec fn pending_le(h: TraceHandler, t: int) -> bool {
    &&& (forall|k: Seq<char>|
        h.activity_starts@.contains_key(k) ==> (#[trigger] h.activity_starts@[k]).0 <= t)
    &&& (forall|k: Seq<char>|
        h.link_entries@.contains_key(k) ==> (#[trigger] h.link_entries@[k]) <= t)
}

/// Every person's trace has no end before its start.
pub open spec fn pop_strict(p: Population) -> bool {
    forall|i: int|
        0 <= i < p.people@.len() ==> strict_times_ok((#[trigger] p.people@[i]).1.trace.plan@)
}

/// Every person's trace is ordered up to a final day-closing activity.
pub open spec fn pop_final_ok(p: Population) -> bool {
    forall|i: int|
        0 <= i < p.people@.len() ==> final_times_ok((#[trigger] p.people@[i]).1.trace.plan@)
}

/// The population after one component was appended to one person: that
/// person's plan grew by the component, everything else is unchanged.
pub open spec fn spec_pushed(
    pre: Population,
    post: Population,
    pid: Seq<char>,
    c: Component,
) -> bool {
    &&& post.people@.len() == pre.people@.len()
    &&& (forall|q: int|
        #![auto]
        0 <= q < pre.people@.len() && pre.people@[q].0@ != pid ==> post.people@[q]
            == pre.people@[q])
    &&& (forall|q: int|
        #![auto]
        0 <= q < pre.people@.len() && pre.people@[q].0@ == pid ==> post.people@[q].0
            == pre.people@[q].0 && post.people@[q].1.attributes == pre.people@[q].1.attributes
            && post.people@[q].1.trace.plan@ == pre.people@[q].1.trace.plan@.push(c))
}

impl TraceHandler {
    pub fn new() -> (r: TraceHandler)
        ensures
            r.activity_starts.wf(),
            r.link_entries.wf(),
            r.activity_starts@ == Map::<Seq<char>, (u32, Option<String>, Option<String>)>::empty(),
            r.link_entries@ == Map::<Seq<char>, u32>::empty(),
    {
        TraceHandler { activity_starts: KvMap::new(), link_entries: KvMap::new() }
    }

    /// Fold one event into the population's traces.  An activity start or a
    /// link entry is recorded; an activity end or a link exit appends a
    /// component, looked up in the network; leaving traffic appends a link
    /// at half distance.  An unknown link is an error.  People not in the
    /// population are ignored.
    pub fn process(
        &mut self,
        population: &mut Population,
        event: &MATSimEvent,
        network: &Network,
    ) -> (r: Result<(), TracerError>)
        requires
            old(population).wf(),
            old(population).attrs_wf(),
            old(self).activity_starts.wf(),
            old(self).link_entries.wf(),
            network.links.wf(),
        ensures
            final(population).wf(),
            final(population).attrs_wf(),
            final(self).activity_starts.wf(),
            final(self).link_entries.wf(),
            ({
                match event {
                    MATSimEvent::ActStart(e) => {
                        &&& *final(population) == *old(population)
                        &&& final(self).link_entries == old(self).link_entries
                        &&& r is Ok
                        &&& (if old(population).spec_contains(e.person@) {
                            exists|act: String, lid: String|
                                act@ == e.act_type@ && lid@ == e.lid@ && final(self).activity_starts@ == old(self).activity_starts@.insert(
                                    e.person@,
                                    (e.time, Some(act), Some(lid)),
                                )
                        } else {
                            final(self).activity_starts == old(self).activity_starts
                        })
                    },
                    MATSimEvent::ActEnd(e) => {
                        &&& final(self).link_entries == old(self).link_entries
                        &&& (if !old(population).spec_contains(e.person@) {
                            r is Ok && *final(population) == *old(population) && final(self).activity_starts == old(self).activity_starts
                        } else {
                            let had = old(self).activity_starts@.contains_key(e.person@);
                            let start: int = if had {
                                old(self).activity_starts@[e.person@].0 as int
                            } else {
                                0
                            };
                            let act_view = if had && old(self).activity_starts@[e.person@].1 is Some {
                                old(self).activity_starts@[e.person@].1->0@
                            } else {
                                e.act_type@
                            };
                            let lid_view = if had && old(self).activity_starts@[e.person@].2 is Some {
                                old(self).activity_starts@[e.person@].2->0@
                            } else {
                                e.lid@
                            };
                            &&& final(self).activity_starts@ == old(self).activity_starts@.remove(e.person@)
                            &&& (if network.links@.contains_key(lid_view) {
                                &&& r is Ok
                                &&& exists|a: Activity|
                                    a.start_time as int == start && a.end_time == e.time && a.act@
                                        == act_view && a.node == network.links@[lid_view].1
                                        && spec_pushed(
                                        *old(population),
                                        *final(population),
                                        e.person@,
                                        Component::ActivityType(a),
                                    )
                            } else {
                                r is Err && *final(population) == *old(population)
                            })
                        })
                    },
                    MATSimEvent::EnteredLink(e) => {
                        &&& *final(population) == *old(population)
                        &&& final(self).activity_starts == old(self).activity_starts
                        &&& r is Ok
                        &&& (if old(population).spec_contains(e.vehicle@) {
                            final(self).link_entries@ == old(self).link_entries@.insert(
                                e.vehicle@,
                                e.time,
                            )
                        } else {
                            final(self).link_entries == old(self).link_entries
                        })
                    },
                    MATSimEvent::LeftLink(e) => {
                        &&& final(self).activity_starts == old(self).activity_starts
                        &&& (if old(population).spec_contains(e.vehicle@) && old(self).link_entries@.contains_key(e.vehicle@) {
                            &&& final(self).link_entries@ == old(self).link_entries@.remove(
                                e.vehicle@,
                            )
                            &&& (if network.links@.contains_key(e.link@) {
                                &&& r is Ok
                                &&& exists|l: Link|
                                    l.start_time == old(self).link_entries@[e.vehicle@]
                                        && l.end_time == e.time && l.lid@ == e.link@ && l.distance
                                        == network.links@[e.link@].0 && l.node
                                        == network.links@[e.link@].1 && spec_pushed(
                                        *old(population),
                                        *final(population),
                                        e.vehicle@,
                                        Component::LinkType(l),
                                    )
                            } else {
                                r is Err && *final(population) == *old(population)
                            })
                        } else {
                            r is Ok && *final(population) == *old(population) && final(self).link_entries@ == old(self).link_entries@
                        })
                    },
                    MATSimEvent::VehicleLeavesTraffic(e) => {
                        &&& final(self).activity_starts == old(self).activity_starts
                        &&& (if old(population).spec_contains(e.vehicle@) && old(self).link_entries@.contains_key(e.vehicle@) {
                            &&& final(self).link_entries@ == old(self).link_entries@.remove(
                                e.vehicle@,
                            )
                            &&& (if network.links@.contains_key(e.link@) {
                                &&& r is Ok
                                &&& exists|l: Link|
                                    l.start_time == old(self).link_entries@[e.vehicle@]
                                        && l.end_time == e.time && l.lid@ == e.link@ && l.distance
                                        as int == trunc_div(network.links@[e.link@].0 as int, 2)
                                        && l.node
                                        == network.links@[e.link@].1 && spec_pushed(
                                        *old(population),
                                        *final(population),
                                        e.vehicle@,
                                        Component::LinkType(l),
                                    )
                            } else {
                                r is Err && *final(population) == *old(population)
                            })
                        } else {
                            r is Ok && *final(population) == *old(population) && final(self).link_entries@ == old(self).link_entries@
                        })
                    },
                    _ => {
                        &&& r is Ok
                        &&& *final(population) == *old(population)
                        &&& final(self).activity_starts == old(self).activity_starts
                        &&& final(self).link_entries == old(self).link_entries
                    },
                }
            }),
            ({
                let t = spec_event_time(*event);
                (pending_le(*old(self), t) && pop_strict(*old(population))) ==> (pending_le(
                    *final(self),
                    t,
                ) && pop_strict(*final(population)))
            }),
    {
        match event {
            MATSimEvent::ActStart(e) => {
                if population.contains_key(&e.person) {
                    let act_c = e.act_type.clone();
                    let lid_c = e.lid.clone();
                    let ghost gact = act_c;
                    let ghost glid = lid_c;
                    self.activity_starts.insert(e.person.clone(), (e.time, Some(act_c), Some(lid_c)));
                    proof {
                        assert(gact@ == e.act_type@ && glid@ == e.lid@ && self.activity_starts@
                            == old(self).activity_starts@.insert(
                            e.person@,
                            (e.time, Some(gact), Some(glid)),
                        ));
                        assert(exists|act: String, lid: String|
                            act@ == e.act_type@ && lid@ == e.lid@ && self.activity_starts@ == old(self).activity_starts@.insert(
                                e.person@,
                                (e.time, Some(act), Some(lid)),
                            ));
                        let t = spec_event_time(*event);
                        if pending_le(*old(self), t) {
                            assert forall|k: Seq<char>|
                                self.activity_starts@.contains_key(k) implies (
                            #[trigger] self.activity_starts@[k]).0 <= t by {
                                if k != e.person@ {
                                    assert(old(self).activity_starts@.contains_key(k));
                                }
                            }
                        }
                    }
                }
                Ok(())
            },
            MATSimEvent::ActEnd(e) => {
                if !population.contains_key(&e.person) {
                    return Ok(());
                }
                let (start_time, act_opt, lid_opt) = match self.activity_starts.remove(&e.person) {
                    Some(v) => v,
                    None => (0u32, None, None),
                };
                let act = match act_opt {
                    Some(a) => a,
                    None => e.act_type.clone(),
                };
                let lid = match lid_opt {
                    Some(l) => l,
                    None => e.lid.clone(),
                };
                let node: Node = match network.get_link(&lid) {
                    Some(v) => v.1,
                    None => {
                        proof {
                            let t = spec_event_time(*event);
                            if pending_le(*old(self), t) {
                                lemma_pending_after_remove_start(*old(self), *self, e.person@, t);
                            }
                        }
                        return Err(TracerError::MissingLink(lid));
                    },
                };
                let a = Activity { start_time, end_time: e.time, act, node };
                let ghost a0 = a;
                population.push_component(&e.person, Component::ActivityType(a));
                proof {
                    assert(a0.act@ == (if old(self).activity_starts@.contains_key(e.person@)
                        && old(self).activity_starts@[e.person@].1 is Some {
                        old(self).activity_starts@[e.person@].1->0@
                    } else {
                        e.act_type@
                    }));
                    assert(spec_pushed(
                        *old(population),
                        *population,
                        e.person@,
                        Component::ActivityType(a0),
                    ));
                    assert(exists|aa: Activity|
                        aa.start_time == a0.start_time && aa.end_time == e.time && aa.act@
                            == a0.act@ && aa.node == a0.node && spec_pushed(
                            *old(population),
                            *population,
                            e.person@,
                            Component::ActivityType(aa),
                        ));
                    let t = spec_event_time(*event);
                    if pending_le(*old(self), t) && pop_strict(*old(population)) {
                        assert(comp_times_ok(Component::ActivityType(a0)));
                        lemma_pushed_strict(
                            *old(population),
                            *population,
                            e.person@,
                            Component::ActivityType(a0),
                        );
                        lemma_pending_after_remove_start(*old(self), *self, e.person@, t);
                    }
                }
                Ok(())
            },
            MATSimEvent::EnteredLink(e) => {
                if population.contains_key(&e.vehicle) {
                    self.link_entries.insert(e.vehicle.clone(), e.time);
                    proof {
                        let t = spec_event_time(*event);
                        if pending_le(*old(self), t) {
                            assert forall|k: Seq<char>|
                                self.link_entries@.contains_key(k) implies (
                            #[trigger] self.link_entries@[k]) <= t by {
                                if k != e.vehicle@ {
                                    assert(old(self).link_entries@.contains_key(k));
                                }
                            }
                        }
                    }
                }
                Ok(())
            },
            MATSimEvent::LeftLink(e) => {
                if !population.contains_key(&e.vehicle) {
                    return Ok(());
                }
                let start_time = match self.link_entries.remove(&e.vehicle) {
                    Some(t) => t,
                    None => {
                        return Ok(());
                    },
                };
                let (distance, node) = match network.get_link(&e.link) {
                    Some(v) => (v.0, v.1),
                    None => {
                        proof {
                            let t = spec_event_time(*event);
                            if pending_le(*old(self), t) {
                                lemma_pending_after_remove(*old(self), *self, e.vehicle@, t);
                            }
                        }
                        return Err(TracerError::MissingLink(e.link.clone()));
                    },
                };
                let l = Link {
                    start_time,
                    end_time: e.time,
                    lid: e.link.clone(),
                    distance,
                    node,
                };
                let ghost l0 = l;
                population.push_component(&e.vehicle, Component::LinkType(l));
                proof {
                    assert(spec_pushed(
                        *old(population),
                        *population,
                        e.vehicle@,
                        Component::LinkType(l0),
                    ));
                    assert(l0.start_time == old(self).link_entries@[e.vehicle@]);
                    assert(l0.end_time == e.time);
                    assert(l0.lid@ == e.link@);
                    assert(l0.node == network.links@[e.link@].1);
                    assert(l0.distance == network.links@[e.link@].0);
                    assert(exists|ll: Link|
                        ll.start_time == old(self).link_entries@[e.vehicle@] && ll.end_time
                            == e.time && ll.lid@ == e.link@ && ll.distance
                            == network.links@[e.link@].0 && ll.node == network.links@[e.link@].1
                            && spec_pushed(
                            *old(population),
                            *population,
                            e.vehicle@,
                            Component::LinkType(ll),
                        ));
                    let t = spec_event_time(*event);
                    if pending_le(*old(self), t) && pop_strict(*old(population)) {
                        lemma_pushed_strict(
                            *old(population),
                            *population,
                            e.vehicle@,
                            Component::LinkType(l0),
                        );
                        lemma_pending_after_remove(*old(self), *self, e.vehicle@, t);
                    }
                }
                Ok(())
            },
            MATSimEvent::VehicleLeavesTraffic(e) => {
                if !population.contains_key(&e.vehicle) {
                    return Ok(());
                }
                let start_time = match self.link_entries.remove(&e.vehicle) {
                    Some(t) => t,
                    None => {
                        return Ok(());
                    },
                };
                let (distance, node) = match network.get_link(&e.link) {
                    Some(v) => (v.0, v.1),
                    None => {
                        proof {
                            let t = spec_event_time(*event);
                            if pending_le(*old(self), t) {
                                lemma_pending_after_remove(*old(self), *self, e.vehicle@, t);
                            }
                        }
                        return Err(TracerError::MissingLink(e.link.clone()));
                    },
                };
                let half = {
                    let q: i128 = crate::arith::i128_trunc_div(distance as i128, 2);
                    q as i64
                };
                proof {
                    assert(half as int == trunc_div(distance as int, 2));
                }
                let l = Link {
                    start_time,
                    end_time: e.time,
                    lid: e.link.clone(),
                    distance: half,
                    node,
                };
                let ghost l0 = l;
                population.push_component(&e.vehicle, Component::LinkType(l));
                proof {
                    assert(spec_pushed(
                        *old(population),
                        *population,
                        e.vehicle@,
                        Component::LinkType(l0),
                    ));
                    assert(l0.start_time == old(self).link_entries@[e.vehicle@]);
                    assert(l0.end_time == e.time);
                    assert(l0.lid@ == e.link@);
                    assert(l0.node == network.links@[e.link@].1);
                    assert(l0.distance as int == trunc_div(network.links@[e.link@].0 as int, 2));
                    assert(exists|ll: Link|
                        ll.start_time == old(self).link_entries@[e.vehicle@] && ll.end_time
                            == e.time && ll.lid@ == e.link@ && ll.distance as int == trunc_div(
                            network.links@[e.link@].0 as int,
                            2,
                        ) && ll.node == network.links@[e.link@].1 && spec_pushed(
                            *old(population),
                            *population,
                            e.vehicle@,
                            Component::LinkType(ll),
                        ));
                    let t = spec_event_time(*event);
                    if pending_le(*old(self), t) && pop_strict(*old(population)) {
                        lemma_pushed_strict(
                            *old(population),
                            *population,
                            e.vehicle@,
                            Component::LinkType(l0),
                        );
                        lemma_pending_after_remove(*old(self), *self, e.vehicle@, t);
                    }
                }
                Ok(())
            },
            _ => Ok(()),
        }
    }
}

/// The event's time, where it has one.
pub open spec fn spec_event_time(e: MATSimEvent) -> int {
    match e {
        MATSimEvent::ActStart(a) => a.time as int,
        MATSimEvent::ActEnd(a) => a.time as int,
        MATSimEvent::EnteredLink(a) => a.time as int,
        MATSimEvent::LeftLink(a) => a.time as int,
        MATSimEvent::VehicleLeavesTraffic(a) => a.time as int,
        _ => 0,
    }
}


/// Appending one well-timed component keeps every trace well timed.
proof fn lemma_pushed_strict(pre: Population, post: Population, pid: Seq<char>, c: Component)
    requires
        spec_pushed(pre, post, pid, c),
        pop_strict(pre),
        comp_times_ok(c),
    ensures
        pop_strict(post),
{
    assert forall|q: int|
        0 <= q < post.people@.len() implies strict_times_ok(
        (#[trigger] post.people@[q]).1.trace.plan@,
    ) by {
        if pre.people@[q].0@ == pid {
            let plan = pre.people@[q].1.trace.plan@;
            assert forall|i: int|
                0 <= i < plan.push(c).len() implies comp_times_ok(#[trigger] plan.push(c)[i]) by {
                if i < plan.len() {
                    assert(plan.push(c)[i] == plan[i]);
                } else {
                    assert(plan.push(c)[i] == c);
                }
            }
        } else {
            assert(post.people@[q] == pre.people@[q]);
        }
    }
}

/// Removing a link entry keeps the pending bound.
proof fn lemma_pending_after_remove(pre: TraceHandler, post: TraceHandler, pid: Seq<char>, t: int)
    requires
        pending_le(pre, t),
        post.activity_starts == pre.activity_starts,
        post.link_entries@ == pre.link_entries@.remove(pid),
    ensures
        pending_le(post, t),
{
    assert forall|k: Seq<char>|
        post.link_entries@.contains_key(k) implies (#[trigger] post.link_entries@[k]) <= t by {
        assert(pre.link_entries@.contains_key(k));
    }
}

/// Removing an activity start keeps the pending bound.
proof fn lemma_pending_after_remove_start(
    pre: TraceHandler,
    post: TraceHandler,
    pid: Seq<char>,
    t: int,
)
    requires
        pending_le(pre, t),
        post.link_entries == pre.link_entries,
        post.activity_starts@ == pre.activity_starts@.remove(pid),
    ensures
        pending_le(post, t),
{
    assert forall|k: Seq<char>|
        post.activity_starts@.contains_key(k) implies (#[trigger] post.activity_starts@[k]).0
        <= t by {
        assert(pre.activity_starts@.contains_key(k));
    }
}




/// Partial finalisation preserves which ids the population holds.
proof fn lemma_contains_preserved(pre: Population, post: Population, pid: Seq<char>)
    requires
        post.people@.len() == pre.people@.len(),
        forall|q: int|
            #![trigger pre.people@[q], post.people@[q]]
            0 <= q < pre.people@.len() ==> post.people@[q].0@ == pre.people@[q].0@,
        post.spec_contains(pid),
    ensures
        pre.spec_contains(pid),
{
    let w = choose|w: int| 0 <= w < post.people@.len() && post.people@[w].0@ == pid;
    assert(pre.people@[w].0@ == pid);
}

/// Every pending activity start for a person in the population carries a
/// link id that the network holds.
pub open spec fn spec_pending_resolvable(h: TraceHandler, p: Population, network: Network) -> bool {
    forall|k: Seq<char>|
        h.activity_starts@.contains_key(k) && p.spec_contains(k) ==> ((
        #[trigger] h.activity_starts@[k]).2 matches Some(lid) && network.links@.contains_key(
            lid@,
        ))
}

/// The population mid-finalisation: persons pending in the first `j`
/// handler entries are closed out, the rest untouched.
pub open spec fn spec_partially_finalised(
    h: TraceHandler,
    pre: Population,
    post: Population,
    network: Network,
    j: int,
) -> bool {
    &&& post.people@.len() == pre.people@.len()
    &&& forall|q: int|
        #![trigger pre.people@[q]]
        0 <= q < pre.people@.len() ==> {
            let pid = pre.people@[q].0@;
            if exists|w: int| 0 <= w < j && h.activity_starts.entries@[w].0@ == pid {
                spec_finalised_entry(
                    pre.people@[q],
                    post.people@[q],
                    h.activity_starts@[pid],
                    network,
                )
            } else {
                post.people@[q] == pre.people@[q]
            }
        }
}

/// What the final activity appended for a pending start must hold: the
/// recorded start, an end at the day's close, the recorded name (or
/// "home"), and the recorded link's end node.
pub open spec fn spec_final_activity_ok(
    a: Activity,
    v: (u32, Option<String>, Option<String>),
    network: Network,
) -> bool {
    &&& a.start_time == v.0
    &&& a.end_time == 86400
    &&& a.act@ == (match v.1 {
        Some(s) => s@,
        None => "home"@,
    })
    &&& (v.2 matches Some(lid) && network.links@.contains_key(lid@) && a.node
        == network.links@[lid@].1)
}

/// One person closed out: the same id and attributes, and the plan grown
/// by a final activity for the pending start `v`.
pub open spec fn spec_finalised_entry(
    pre: (String, Person),
    post: (String, Person),
    v: (u32, Option<String>, Option<String>),
    network: Network,
) -> bool {
    &&& post.0 == pre.0
    &&& post.1.attributes == pre.1.attributes
    &&& exists|a: Activity|
        spec_final_activity_ok(a, v, network) && post.1.trace.plan@ == pre.1.trace.plan@.push(
            Component::ActivityType(a),
        )
}

/// One person's trace wrapped, or left as it was.
pub open spec fn spec_wrapped_entry(pre: (String, Person), post: (String, Person)) -> bool {
    &&& post.0 == pre.0
    &&& post.1.attributes == pre.1.attributes
    &&& (if pre.1.trace.spec_wrap_ok() {
        post.1.trace.plan@ == pre.1.trace.spec_wrapped()
    } else {
        post.1.trace == pre.1.trace
    })
}

impl TraceHandler {
    /// Close every open activity at the day's end (86 400 s).  An unknown
    /// activity name defaults to "home".  A pending start without a link,
    /// or with a link the network does not hold, is an error.
    pub fn finalise(&self, population: &mut Population, network: &Network) -> (r: Result<
        (),
        TracerError,
    >)
        requires
            old(population).wf(),
            old(population).attrs_wf(),
            self.activity_starts.wf(),
            network.links.wf(),
        ensures
            final(population).wf(),
            final(population).attrs_wf(),
            r is Ok ==> ({
                &&& final(population).people@.len() == old(population).people@.len()
                &&& forall|q: int|
                    #![trigger old(population).people@[q]]
                    0 <= q < old(population).people@.len() ==> {
                        let pid = old(population).people@[q].0@;
                        if self.activity_starts@.contains_key(pid) {
                            spec_finalised_entry(
                                old(population).people@[q],
                                final(population).people@[q],
                                self.activity_starts@[pid],
                                *network,
                            )
                        } else {
                            final(population).people@[q] == old(population).people@[q]
                        }
                    }
            }),
            r is Ok && pop_strict(*old(population)) ==> pop_final_ok(*final(population)),
            r is Ok <==> spec_pending_resolvable(*self, *old(population), *network),
            r is Err ==> exists|j: int|
                0 <= j <= self.activity_starts.entries@.len() && #[trigger] spec_partially_finalised(
                    *self,
                    *old(population),
                    *final(population),
                    *network,
                    j,
                ),
    {
        let n = self.activity_starts.len();
        let ghost entries = self.activity_starts.entries@;
        for j in 0..n
            invariant
                n == entries.len(),
                entries == self.activity_starts.entries@,
                self.activity_starts.wf(),
                network.links.wf(),
                population.wf(),
                population.attrs_wf(),
                population.people@.len() == old(population).people@.len(),
                forall|q: int|
                    #![trigger old(population).people@[q]]
                    0 <= q < old(population).people@.len() ==> {
                        let pid = old(population).people@[q].0@;
                        if exists|w: int| 0 <= w < j && entries[w].0@ == pid {
                            spec_finalised_entry(
                                old(population).people@[q],
                                population.people@[q],
                                self.activity_starts@[pid],
                                *network,
                            )
                        } else {
                            population.people@[q] == old(population).people@[q]
                        }
                    },
                pop_strict(*old(population)) ==> pop_final_ok(*population),
                forall|w: int|
                    0 <= w < j && old(population).spec_contains((#[trigger] entries[w]).0@) ==> (
                    entries[w].1.2 matches Some(lid) && network.links@.contains_key(lid@)),
        {
            let pid = self.activity_starts.key_at(j);
            let v = self.activity_starts.val_at(j);
            proof {
                self.activity_starts.lemma_entry_view(j as int);
            }
            if population.contains_key(pid) {
                let start_time = v.0;
                let act = match &v.1 {
                    Some(a) => a.clone(),
                    None => String::from_str("home"),
                };
                let lid = match &v.2 {
                    Some(l) => l,
                    None => {
                        proof {
                            lemma_contains_preserved(*old(population), *population, entries[j as int].0@);
                            assert(!spec_pending_resolvable(*self, *old(population), *network));
                            assert(spec_partially_finalised(
                                *self,
                                *old(population),
                                *population,
                                *network,
                                j as int,
                            ));
                        }
                        return Err(TracerError::MissingLink(pid.clone()));
                    },
                };
                let node: Node = match network.get_link(lid) {
                    Some(link_info) => link_info.1,
                    None => {
                        proof {
                            lemma_contains_preserved(*old(population), *population, entries[j as int].0@);
                            assert(!spec_pending_resolvable(*self, *old(population), *network));
                            assert(spec_partially_finalised(
                                *self,
                                *old(population),
                                *population,
                                *network,
                                j as int,
                            ));
                        }
                        return Err(TracerError::MissingLink(lid.clone()));
                    },
                };
                let a = Activity { start_time, end_time: 86400, act, node };
                let ghost a0 = a;
                let ghost before = *population;
                population.push_component(pid, Component::ActivityType(a));
                proof {
                    assert(spec_final_activity_ok(a0, self.activity_starts@[entries[j as int].0@], *network));
                    lemma_finalise_step(
                        *old(population),
                        before,
                        *population,
                        entries,
                        j as int,
                        a0,
                        *self,
                        *network,
                    );
                    if pop_strict(*old(population)) {
                        assert forall|q: int|
                            0 <= q < population.people@.len() implies final_times_ok(
                            (#[trigger] population.people@[q]).1.trace.plan@,
                        ) by {
                            if before.people@[q].0@ == entries[j as int].0@ {
                                assert(!(exists|w: int|
                                    0 <= w < j && entries[w].0@ == old(
                                        population,
                                    ).people@[q].0@));
                                assert(before.people@[q] == old(population).people@[q]);
                                let plan = before.people@[q].1.trace.plan@;
                                assert(strict_times_ok(plan));
                                let newplan = plan.push(Component::ActivityType(a0));
                                assert(population.people@[q].1.trace.plan@ == newplan);
                                assert forall|w: int|
                                    0 <= w < newplan.len() implies comp_times_ok(
                                    #[trigger] newplan[w],
                                ) || (w == newplan.len() - 1 && newplan[w] is ActivityType
                                    && newplan[w]->ActivityType_0.end_time >= 86400) by {
                                    if w < plan.len() {
                                        assert(newplan[w] == plan[w]);
                                    } else {
                                        assert(newplan[w] == Component::ActivityType(a0));
                                    }
                                }
                            } else {
                                assert(population.people@[q] == before.people@[q]);
                            }
                        }
                    }
                }
            } else {
                proof {
                    lemma_finalise_step_absent(
                        *old(population),
                        *population,
                        entries,
                        j as int,
                        *self,
                        *network,
                    );
                }
            }
        }
        proof {
            assert forall|k: Seq<char>|
                self.activity_starts@.contains_key(k) && old(population).spec_contains(
                    k,
                ) implies ((#[trigger] self.activity_starts@[k]).2 matches Some(lid)
                && network.links@.contains_key(lid@)) by {
                let w = choose|w: int|
                    0 <= w < self.activity_starts.entries@.len()
                        && self.activity_starts.entries@[w].0@ == k;
                self.activity_starts.lemma_entry_view(w);
                assert(entries[w].1 == self.activity_starts@[k]);
            }
        }
        Ok(())
    }

    /// Wrap every wrappable trace; return the ids whose wrap failed even
    /// though the trace looked wrappable.
    pub fn wrap(&self, population: &mut Population) -> (failed: Vec<String>)
        requires
            old(population).wf(),
            old(population).attrs_wf(),
        ensures
            final(population).wf(),
            final(population).attrs_wf(),
            final(population).people@.len() == old(population).people@.len(),
            forall|q: int|
                #![auto]
                0 <= q < old(population).people@.len() ==> (if old(
                    population,
                ).people@[q].1.trace.spec_is_wrappable() {
                    spec_wrapped_entry(old(population).people@[q], final(population).people@[q])
                } else {
                    final(population).people@[q] == old(population).people@[q]
                }),
            pop_final_ok(*old(population)) ==> pop_final_ok(*final(population)),
    {
        let mut failed: Vec<String> = Vec::new();
        let n = population.len();
        for i in 0..n
            invariant
                n == population.people@.len(),
                n == old(population).people@.len(),
                population.wf(),
                population.attrs_wf(),
                forall|q: int|
                    #![auto]
                    i <= q < n ==> population.people@[q] == old(population).people@[q],
                forall|q: int|
                    #![auto]
                    0 <= q < i ==> (if old(population).people@[q].1.trace.spec_is_wrappable() {
                        spec_wrapped_entry(old(population).people@[q], population.people@[q])
                    } else {
                        population.people@[q] == old(population).people@[q]
                    }),
                pop_final_ok(*old(population)) ==> pop_final_ok(*population),
        {
            if population.people[i].1.trace.is_wrappable() {
                let ghost before = *population;
                let outcome = population.people[i].1.trace.wrap();
                proof {
                    assert forall|a: int, b: int|
                        #![trigger population.people@[a], population.people@[b]]
                        0 <= a < b < population.people@.len() implies lex_lt(
                        population.people@[a].0@,
                        population.people@[b].0@,
                    ) by {
                        assert(population.people@[a].0 == before.people@[a].0);
                        assert(population.people@[b].0 == before.people@[b].0);
                    }
                    if pop_final_ok(*old(population)) {
                        assert forall|q: int|
                            0 <= q < population.people@.len() implies final_times_ok(
                            (#[trigger] population.people@[q]).1.trace.plan@,
                        ) by {
                            if q == i {
                                if before.people@[q].1.trace.spec_wrap_ok() {
                                    lemma_wrap_final_ok(before.people@[q].1.trace);
                                }
                            } else {
                                assert(population.people@[q] == before.people@[q]);
                            }
                        }
                    }
                }
                if outcome.is_err() {
                    failed.push(population.people[i].0.clone());
                }
            }
        }
        failed
    }
}

/// A wrapped trace keeps its times in order up to the final activity.
proof fn lemma_wrap_final_ok(t: crate::trace::Trace)
    requires
        final_times_ok(t.plan@),
        t.spec_wrap_ok(),
    ensures
        final_times_ok(t.spec_wrapped()),
{
    let plan = t.plan@;
    let wrapped = t.spec_wrapped();
    assert forall|i: int| 0 <= i < wrapped.len() implies comp_times_ok(#[trigger] wrapped[i]) || (
    i == wrapped.len() - 1 && wrapped[i] is ActivityType && wrapped[i]->ActivityType_0.end_time
        >= 86400) by {
        if i < wrapped.len() - 1 {
            assert(wrapped[i] == plan[i + 1]);
            assert(comp_times_ok(plan[i + 1]) || (i + 1 == plan.len() - 1 && plan[i + 1]
                is ActivityType && plan[i + 1]->ActivityType_0.end_time >= 86400));
        } else {
            let last = plan.last()->ActivityType_0;
            let first = plan.first()->ActivityType_0;
            assert(wrapped[i] == Component::ActivityType(
                Activity { end_time: (last.end_time + first.spec_duration()) as u32, ..last },
            ));
            assert(comp_times_ok(plan[plan.len() - 1]) || (plan[plan.len() - 1] is ActivityType
                && plan[plan.len() - 1]->ActivityType_0.end_time >= 86400));
        }
    }
}

/// One finalisation step for a person that is present: the invariant moves
/// from prefix `j` to `j + 1`.
proof fn lemma_finalise_step(
    orig: Population,
    before: Population,
    after: Population,
    entries: Seq<(String, (u32, Option<String>, Option<String>))>,
    j: int,
    a: Activity,
    h: TraceHandler,
    network: Network,
)
    requires
        h.activity_starts.wf(),
        entries == h.activity_starts.entries@,
        0 <= j < entries.len(),
        orig.people@.len() == before.people@.len(),
        spec_pushed(before, after, entries[j].0@, Component::ActivityType(a)),
        spec_final_activity_ok(a, h.activity_starts@[entries[j].0@], network),
        forall|q: int|
            #![trigger orig.people@[q]]
            0 <= q < orig.people@.len() ==> {
                let pid = orig.people@[q].0@;
                if exists|w: int| 0 <= w < j && entries[w].0@ == pid {
                    spec_finalised_entry(
                        orig.people@[q],
                        before.people@[q],
                        h.activity_starts@[pid],
                        network,
                    )
                } else {
                    before.people@[q] == orig.people@[q]
                }
            },
    ensures
        after.people@.len() == orig.people@.len(),
        forall|q: int|
            #![trigger orig.people@[q]]
            0 <= q < orig.people@.len() ==> {
                let pid = orig.people@[q].0@;
                if exists|w: int| 0 <= w < j + 1 && entries[w].0@ == pid {
                    spec_finalised_entry(
                        orig.people@[q],
                        after.people@[q],
                        h.activity_starts@[pid],
                        network,
                    )
                } else {
                    after.people@[q] == orig.people@[q]
                }
            },
{
    assert forall|q: int| #![trigger orig.people@[q]] 0 <= q < orig.people@.len() implies {
        let pid = orig.people@[q].0@;
        if exists|w: int| 0 <= w < j + 1 && entries[w].0@ == pid {
            spec_finalised_entry(
                orig.people@[q],
                after.people@[q],
                h.activity_starts@[pid],
                network,
            )
        } else {
            after.people@[q] == orig.people@[q]
        }
    } by {
        let pid = orig.people@[q].0@;
        if exists|w: int| 0 <= w < j + 1 && entries[w].0@ == pid {
            let w = choose|w: int| 0 <= w < j + 1 && entries[w].0@ == pid;
            if w < j {
                // already finalised before this step; untouched now
                assert(spec_finalised_entry(
                    orig.people@[q],
                    before.people@[q],
                    h.activity_starts@[pid],
                    network,
                ));
                assert(before.people@[q].0@ == orig.people@[q].0@);
                if pid == entries[j].0@ {
                    assert(entries[w].0@ == entries[j].0@);
                    assert(false);
                }
                assert(after.people@[q] == before.people@[q]);
            } else {
                assert(entries[j].0@ == pid);
                assert(!(exists|w2: int| 0 <= w2 < j && entries[w2].0@ == pid));
                assert(before.people@[q] == orig.people@[q]);
                assert(before.people@[q].0@ == pid);
                assert(after.people@[q].1.trace.plan@ == before.people@[q].1.trace.plan@.push(
                    Component::ActivityType(a),
                ));
                assert(spec_finalised_entry(
                    orig.people@[q],
                    after.people@[q],
                    h.activity_starts@[pid],
                    network,
                ));
            }
        } else {
            assert(before.people@[q] == orig.people@[q]);
            assert(before.people@[q].0@ != entries[j].0@);
            assert(after.people@[q] == before.people@[q]);
        }
    }
}

/// One finalisation step for a person that is absent from the population:
/// nothing changes.
proof fn lemma_finalise_step_absent(
    orig: Population,
    now: Population,
    entries: Seq<(String, (u32, Option<String>, Option<String>))>,
    j: int,
    h: TraceHandler,
    network: Network,
)
    requires
        h.activity_starts.wf(),
        entries == h.activity_starts.entries@,
        0 <= j < entries.len(),
        orig.people@.len() == now.people@.len(),
        !now.spec_contains(entries[j].0@),
        now.wf(),
        forall|q: int|
            #![trigger orig.people@[q]]
            0 <= q < orig.people@.len() ==> {
                let pid = orig.people@[q].0@;
                if exists|w: int| 0 <= w < j && entries[w].0@ == pid {
                    spec_finalised_entry(
                        orig.people@[q],
                        now.people@[q],
                        h.activity_starts@[pid],
                        network,
                    )
                } else {
                    now.people@[q] == orig.people@[q]
                }
            },
    ensures
        forall|q: int|
            #![trigger orig.people@[q]]
            0 <= q < orig.people@.len() ==> {
                let pid = orig.people@[q].0@;
                if exists|w: int| 0 <= w < j + 1 && entries[w].0@ == pid {
                    spec_finalised_entry(
                        orig.people@[q],
                        now.people@[q],
                        h.activity_starts@[pid],
                        network,
                    )
                } else {
                    now.people@[q] == orig.people@[q]
                }
            },
{
    assert forall|q: int| #![trigger orig.people@[q]] 0 <= q < orig.people@.len() implies {
        let pid = orig.people@[q].0@;
        if exists|w: int| 0 <= w < j + 1 && entries[w].0@ == pid {
            spec_finalised_entry(
                orig.people@[q],
                now.people@[q],
                h.activity_starts@[pid],
                network,
            )
        } else {
            now.people@[q] == orig.people@[q]
        }
    } by {
        let pid = orig.people@[q].0@;
        if exists|w: int| 0 <= w < j + 1 && entries[w].0@ == pid {
            let w = choose|w: int| 0 <= w < j + 1 && entries[w].0@ == pid;
            if w == j {
                if !(exists|w2: int| 0 <= w2 < j && entries[w2].0@ == pid) {
                    assert(now.people@[q] == orig.people@[q]);
                    assert(now.people@[q].0@ == pid);
                    assert(now.spec_contains(pid));
                    assert(false);
                }
            }
        }
    }
}


impl TraceHandler {
    /// Drop every person whose trace has no link: what remains is exactly
    /// the old entries with a link, in order, ids, attributes and traces
    /// unchanged.
    pub fn clean(&self, population: &mut Population)
        requires
            old(population).wf(),
            old(population).attrs_wf(),
        ensures
            final(population).wf(),
            final(population).attrs_wf(),
            exists|picks: Seq<int>|
                #![trigger picks.len()]
                {
                    &&& picks.len() == final(population).people@.len()
                    &&& (forall|k: int|
                        0 <= k < picks.len() ==> 0 <= #[trigger] picks[k] < old(
                            population,
                        ).people@.len() && Population::entry_like(
                            final(population).people@[k],
                            old(population).people@[picks[k]],
                        ) && old(population).people@[picks[k]].1.trace.spec_contains_link())
                    &&& (forall|k1: int, k2: int|
                        0 <= k1 < k2 < picks.len() ==> picks[k1] < picks[k2])
                    &&& (forall|q: int|
                        0 <= q < old(population).people@.len() && (
                        #[trigger] old(population).people@[q]).1.trace.spec_contains_link()
                            ==> picks.contains(q))
                },
    {
        population.clean();
    }
}

} // verus!
