//! The population: an ordered map from person id to attributes and trace,
//! the attribute parser that fills it from plan tokens, and the charging
//! combinations of a person's trace.
//!
//! People are kept sorted by person id so that iteration is reproducible;
//! that order is the strict lexicographic order on the id's characters.

use vstd::prelude::*;
use crate::filter::PersonAttributes;
use crate::kvmap::KvMap;
use crate::trace::{Component, Trace};
use crate::xml::{XmlEvent, get_attribute};

verus! {

/// Strict lexicographic order on character sequences.
pub open spec fn lex_lt(a: Seq<char>, b: Seq<char>) -> bool
    decreases a.len(),
{
    if b.len() == 0 {
        false
    } else if a.len() == 0 {
        true
    } else if (a[0] as u32) < (b[0] as u32) {
        true
    } else if (a[0] as u32) > (b[0] as u32) {
        false
    } else {
        lex_lt(a.drop_first(), b.drop_first())
    }
}

/// Compare two strings in lexicographic character order.
pub fn str_lt(a: &String, b: &String) -> (r: bool)
    ensures
        r == lex_lt(a@, b@),
{
    let sa = a.as_str();
    let sb = b.as_str();
    let na = sa.unicode_len();
    let nb = sb.unicode_len();
    let mut i: usize = 0;
    proof {
        assert(a@.skip(0) =~= a@);
        assert(b@.skip(0) =~= b@);
    }
    loop
        invariant
            na == a@.len(),
            nb == b@.len(),
            sa@ == a@,
            sb@ == b@,
            i <= na,
            i <= nb,
            lex_lt(a@, b@) == lex_lt(a@.skip(i as int), b@.skip(i as int)),
        decreases na - i,
    {
        if i >= nb {
            proof {
                assert(b@.skip(i as int).len() == 0);
            }
            return false;
        }
        if i >= na {
            proof {
                assert(a@.skip(i as int).len() == 0 && b@.skip(i as int).len() > 0);
            }
            return true;
        }
        let ca = sa.get_char(i);
        let cb = sb.get_char(i);
        proof {
            assert(a@.skip(i as int)[0] == a@[i as int]);
            assert(b@.skip(i as int)[0] == b@[i as int]);
            assert(a@.skip(i as int).drop_first() =~= a@.skip(i + 1));
            assert(b@.skip(i as int).drop_first() =~= b@.skip(i + 1));
        }
        if (ca as u32) < (cb as u32) {
            return true;
        }
        if (ca as u32) > (cb as u32) {
            return false;
        }
        i = i + 1;
    }
}

/// One agent: attributes and trace.
#[derive(Debug)]
pub struct Person {
    pub attributes: PersonAttributes,
    pub trace: Trace,
}

impl Person {
    pub fn new() -> (r: Person)
        ensures
            r.attributes.wf(),
            r.attributes@ == Map::<Seq<char>, String>::empty(),
            r.trace.plan@.len() == 0,
    {
        Person { attributes: KvMap::new(), trace: Trace::new() }
    }

    /// Whether index `i` is a viable charging slot: an activity whose name
    /// is one of the given ones.
    pub open spec fn spec_is_viable(plan: Seq<Component>, names: Seq<Seq<char>>, i: int) -> bool {
        &&& 0 <= i < plan.len()
        &&& plan[i] is ActivityType
        &&& names.contains(plan[i]->ActivityType_0.act@)
    }

    /// The indices of the activities whose name is one of the given ones,
    /// in trace order.
    pub fn viable_charge_activities(&self, activities: &Vec<&String>) -> (r: Vec<usize>)
        ensures
            ({
                let names = activities@.map_values(|s: &String| s@);
                &&& (forall|k: int|
                    0 <= k < r@.len() ==> Person::spec_is_viable(
                        self.trace.plan@,
                        names,
                        #[trigger] r@[k] as int,
                    ))
                &&& (forall|k1: int, k2: int| 0 <= k1 < k2 < r@.len() ==> r@[k1] < r@[k2])
                &&& (forall|i: int|
                    Person::spec_is_viable(self.trace.plan@, names, i) ==> exists|k: int|
                        0 <= k < r@.len() && (#[trigger] r@[k]) as int == i)
            }),
    {
        let ghost names = activities@.map_values(|s: &String| s@);
        let mut out: Vec<usize> = Vec::new();
        let n = self.trace.len();
        for i in 0..n
            invariant
                n == self.trace.plan@.len(),
                forall|k: int|
                    0 <= k < out@.len() ==> Person::spec_is_viable(
                        self.trace.plan@,
                        names,
                        #[trigger] out@[k] as int,
                    ),
                forall|k1: int, k2: int| 0 <= k1 < k2 < out@.len() ==> out@[k1] < out@[k2],
                forall|k: int| 0 <= k < out@.len() ==> out@[k] < i,
                forall|q: int|
                    0 <= q < i && Person::spec_is_viable(self.trace.plan@, names, q)
                        ==> exists|k: int| 0 <= k < out@.len() && (#[trigger] out@[k]) as int == q,
                names == activities@.map_values(|s: &String| s@),
        {
            let viable = match self.trace.get(i) {
                Component::ActivityType(activity) => {
                    let m = activities.len();
                    let mut hit = false;
                    for q in 0..m
                        invariant
                            m == activities@.len(),
                            i < self.trace.plan@.len(),
                            self.trace.plan@[i as int] is ActivityType,
                            names == activities@.map_values(|s: &String| s@),
                            *activity == self.trace.plan@[i as int]->ActivityType_0,
                            hit ==> names.contains(activity.act@),
                            !hit ==> forall|w: int| 0 <= w < q ==> names[w] != activity.act@,
                    {
                        if *activities[q] == activity.act {
                            proof {
                                assert(names[q as int] == activity.act@);
                            }
                            hit = true;
                        }
                    }
                    hit
                },
                Component::LinkType(_) => false,
            };
            let ghost pre = out@;
            if viable {
                out.push(i);
            }
            proof {
                assert forall|q: int|
                    0 <= q < i + 1 && Person::spec_is_viable(
                        self.trace.plan@,
                        names,
                        q,
                    ) implies exists|k: int|
                    0 <= k < out@.len() && (#[trigger] out@[k]) as int == q by {
                    if q < i {
                        let w = choose|w: int| 0 <= w < pre.len() && (pre[w]) as int == q;
                        assert(out@[w] as int == q);
                    } else {
                        assert(viable);
                        assert(out@[pre.len() as int] as int == q);
                    }
                }
            }
        }
        out
    }
}

/// The population: person id to person, sorted by id.
#[derive(Debug)]
pub struct Population {
    pub people: Vec<(String, Person)>,
}

impl Population {
    /// Ids are in strictly ascending lexicographic order, so iteration is
    /// reproducible and every id occurs once.
    pub open spec fn wf(self) -> bool {
        forall|i: int, j: int|
            #![trigger self.people@[i], self.people@[j]]
            0 <= i < j < self.people@.len() ==> lex_lt(self.people@[i].0@, self.people@[j].0@)
    }

    pub open spec fn spec_contains(self, pid: Seq<char>) -> bool {
        exists|i: int| 0 <= i < self.people@.len() && self.people@[i].0@ == pid
    }

    pub open spec fn spec_index_of(self, pid: Seq<char>) -> int {
        choose|i: int| 0 <= i < self.people@.len() && self.people@[i].0@ == pid
    }

    pub fn new() -> (r: Population)
        ensures
            r.wf(),
            r.people@.len() == 0,
    {
        Population { people: Vec::new() }
    }

    pub fn len(&self) -> (r: usize)
        ensures
            r == self.people@.len(),
    {
        self.people.len()
    }

    pub fn is_empty(&self) -> (r: bool)
        ensures
            r == (self.people@.len() == 0),
    {
        self.people.is_empty()
    }

    /// The position of `pid`, or of the first id above it.
    fn lower_bound(&self, pid: &String) -> (r: usize)
        requires
            self.wf(),
        ensures
            r <= self.people@.len(),
            forall|j: int| 0 <= j < r ==> lex_lt(#[trigger] self.people@[j].0@, pid@),
            forall|j: int| r <= j < self.people@.len() ==> !lex_lt(#[trigger] self.people@[j].0@, pid@),
    {
        let n = self.people.len();
        for i in 0..n
            invariant
                n == self.people@.len(),
                self.wf(),
                forall|j: int| 0 <= j < i ==> lex_lt(#[trigger] self.people@[j].0@, pid@),
        {
            if !str_lt(&self.people[i].0, pid) {
                proof {
                    assert forall|j: int|
                        i <= j < self.people@.len() implies !lex_lt(
                        #[trigger] self.people@[j].0@,
                        pid@,
                    ) by {
                        if j > i && lex_lt(self.people@[j].0@, pid@) {
                            lemma_lex_lt_trans(
                                self.people@[i as int].0@,
                                self.people@[j].0@,
                                pid@,
                            );
                        }
                    }
                }
                return i;
            }
        }
        n
    }

    pub fn contains_key(&self, pid: &String) -> (r: bool)
        requires
            self.wf(),
        ensures
            r == self.spec_contains(pid@),
    {
        let i = self.lower_bound(pid);
        if i < self.people.len() && self.people[i].0 == *pid {
            proof {
                assert(self.people@[i as int].0@ == pid@);
            }
            true
        } else {
            proof {
                assert forall|j: int|
                    0 <= j < self.people@.len() implies self.people@[j].0@ != pid@ by {
                    if j < i {
                        lemma_lex_lt_irrefl(self.people@[j].0@, pid@);
                    } else if i < self.people@.len() && j > i {
                        lemma_lex_lt_connected(self.people@[i as int].0@, pid@);
                        lemma_lex_lt_trans(pid@, self.people@[i as int].0@, self.people@[j].0@);
                        lemma_lex_lt_irrefl(pid@, self.people@[j].0@);
                    } else if i < self.people@.len() && j == i {
                    } else {
                        lemma_lex_lt_irrefl(self.people@[j].0@, pid@);
                    }
                }
            }
            false
        }
    }

    /// Insert a person under an id, replacing any person already there and
    /// keeping the order.
    pub fn insert(&mut self, pid: String, person: Person)
        requires
            old(self).wf(),
        ensures
            final(self).wf(),
            final(self).spec_contains(pid@),
            final(self).people@[final(self).spec_index_of(pid@)].1 == person,
            forall|q: int|
                #![auto]
                0 <= q < old(self).people@.len() && old(self).people@[q].0@ != pid@ ==> exists|w:
                    int|
                    0 <= w < final(self).people@.len() && final(self).people@[w] == old(self).people@[q],
            forall|w: int|
                #![auto]
                0 <= w < final(self).people@.len() ==> final(self).people@[w].1 == person
                    || exists|q: int|
                    0 <= q < old(self).people@.len() && final(self).people@[w] == old(self).people@[q],
            if old(self).spec_contains(pid@) {
                exists|w: int|
                    #![auto]
                    0 <= w < old(self).people@.len() && old(self).people@[w].0@ == pid@ && final(self).people@ == old(self).people@.update(w, (pid, person))
            } else {
                exists|w: int|
                    #![auto]
                    0 <= w <= old(self).people@.len() && final(self).people@ == old(self).people@.subrange(0, w) + seq![(pid, person)] + old(self).people@.subrange(
                        w,
                        old(self).people@.len() as int,
                    )
            },
    {
        let i = self.lower_bound(&pid);
        if i < self.people.len() && self.people[i].0 == *(&pid) {
            proof {
                assert(self.people@[i as int].0@ == pid@);
            }
            self.people[i] = (pid, person);
            proof {
                assert(self.people@ =~= old(self).people@.update(i as int, (pid, person)));
                lemma_sorted_unchanged_keys(*old(self), *self, i as int);
                let u = self.spec_index_of(pid@);
                assert(self.people@[i as int].0@ == pid@);
                lemma_sorted_unique(*self, u, i as int);
                assert forall|q: int|
                    #![auto]
                    0 <= q < old(self).people@.len() && old(self).people@[q].0@
                        != pid@ implies exists|w: int|
                    0 <= w < self.people@.len() && self.people@[w] == old(self).people@[q] by {
                    assert(self.people@[q] == old(self).people@[q]);
                }
                assert forall|w: int|
                    #![auto]
                    0 <= w < self.people@.len() implies self.people@[w].1 == person || exists|q:
                    int|
                    0 <= q < old(self).people@.len() && self.people@[w] == old(self).people@[q] by {
                    if w != i {
                        assert(self.people@[w] == old(self).people@[w]);
                    }
                }
            }
        } else {
            proof {
                if i < self.people@.len() {
                    assert(self.people@[i as int].0@ != pid@);
                    lemma_lex_lt_connected(self.people@[i as int].0@, pid@);
                }
                assert forall|j: int|
                    0 <= j < self.people@.len() implies self.people@[j].0@ != pid@ by {
                    if j < i {
                        lemma_lex_lt_irrefl(self.people@[j].0@, pid@);
                    } else if i < self.people@.len() && j > i {
                        lemma_lex_lt_connected(self.people@[i as int].0@, pid@);
                        lemma_lex_lt_trans(pid@, self.people@[i as int].0@, self.people@[j].0@);
                        lemma_lex_lt_irrefl(pid@, self.people@[j].0@);
                    } else if i < self.people@.len() && j == i {
                    } else {
                        lemma_lex_lt_irrefl(self.people@[j].0@, pid@);
                    }
                }
                assert(!old(self).spec_contains(pid@));
            }
            self.people.insert(i, (pid, person));
            proof {
                assert(self.people@ =~= old(self).people@.subrange(0, i as int) + seq![
                    (pid, person),
                ] + old(self).people@.subrange(i as int, old(self).people@.len() as int));
                let pre = old(self).people@;
                assert forall|a: int, b: int|
                    #![trigger self.people@[a], self.people@[b]]
                    0 <= a < b < self.people@.len() implies lex_lt(
                    self.people@[a].0@,
                    self.people@[b].0@,
                ) by {
                    if a < i && b == i {
                    } else if a == i && b > i {
                        assert(self.people@[b] == pre[b - 1]);
                        if b - 1 == i {
                        } else {
                            lemma_lex_lt_trans2(pid@, pre[i as int].0@, pre[b - 1].0@);
                        }
                    } else if a < i && b > i {
                        assert(self.people@[a] == pre[a]);
                        assert(self.people@[b] == pre[b - 1]);
                        if a < b - 1 {
                        } else {
                            assert(a == b - 1);
                            lemma_lex_lt_trans(pre[a].0@, pid@, pre[a].0@);
                        }
                    } else if a > i && b > i {
                        assert(self.people@[a] == pre[a - 1]);
                        assert(self.people@[b] == pre[b - 1]);
                    } else if a < i && b < i {
                    } else {
                    }
                }
                assert(self.people@[i as int].0@ == pid@);
                let u = self.spec_index_of(pid@);
                lemma_sorted_unique(*self, u, i as int);
                assert forall|q: int|
                    #![auto]
                    0 <= q < old(self).people@.len() && old(self).people@[q].0@
                        != pid@ implies exists|w: int|
                    0 <= w < self.people@.len() && self.people@[w] == old(self).people@[q] by {
                    if q < i {
                        assert(self.people@[q] == old(self).people@[q]);
                    } else {
                        assert(self.people@[q + 1] == old(self).people@[q]);
                    }
                }
                assert forall|w: int|
                    #![auto]
                    0 <= w < self.people@.len() implies self.people@[w].1 == person || exists|q:
                    int|
                    0 <= q < old(self).people@.len() && self.people@[w] == old(self).people@[q] by {
                    if w < i {
                        assert(self.people@[w] == old(self).people@[w]);
                    } else if w > i {
                        assert(self.people@[w] == old(self).people@[w - 1]);
                    }
                }
            }
        }
    }

    /// The position of `pid`, if present.
    pub fn index_of(&self, pid: &String) -> (r: Option<usize>)
        requires
            self.wf(),
        ensures
            match r {
                Some(i) => i < self.people@.len() && self.people@[i as int].0@ == pid@,
                None => !self.spec_contains(pid@),
            },
    {
        let i = self.lower_bound(pid);
        if i < self.people.len() && self.people[i].0 == *pid {
            proof {
                assert(self.people@[i as int].0@ == pid@);
            }
            Some(i)
        } else {
            proof {
                assert forall|j: int|
                    0 <= j < self.people@.len() implies self.people@[j].0@ != pid@ by {
                    if j < i {
                        lemma_lex_lt_irrefl(self.people@[j].0@, pid@);
                    } else if i < self.people@.len() && j > i {
                        lemma_lex_lt_connected(self.people@[i as int].0@, pid@);
                        lemma_lex_lt_trans(pid@, self.people@[i as int].0@, self.people@[j].0@);
                        lemma_lex_lt_irrefl(pid@, self.people@[j].0@);
                    } else if i < self.people@.len() && j == i {
                    } else {
                        lemma_lex_lt_irrefl(self.people@[j].0@, pid@);
                    }
                }
            }
            None
        }
    }

    pub fn key_at(&self, i: usize) -> (r: &String)
        requires
            i < self.people@.len(),
        ensures
            r@ == self.people@[i as int].0@,
    {
        &self.people[i].0
    }

    pub fn person_at(&self, i: usize) -> (r: &Person)
        requires
            i < self.people@.len(),
        ensures
            *r == self.people@[i as int].1,
    {
        &self.people[i].1
    }
}

/// The order is irreflexive.
pub proof fn lemma_lex_lt_irrefl(a: Seq<char>, b: Seq<char>)
    requires
        lex_lt(a, b),
    ensures
        a != b,
    decreases a.len(),
{
    if b.len() == 0 {
    } else if a.len() == 0 {
    } else if (a[0] as u32) < (b[0] as u32) {
    } else {
        lemma_lex_lt_irrefl(a.drop_first(), b.drop_first());
        if a == b {
            assert(a.drop_first() =~= b.drop_first());
        }
    }
}

/// The order is transitive.
pub proof fn lemma_lex_lt_trans(a: Seq<char>, b: Seq<char>, c: Seq<char>)
    requires
        lex_lt(a, b),
        lex_lt(b, c),
    ensures
        lex_lt(a, c),
    decreases a.len() + b.len() + c.len(),
{
    if b.len() == 0 {
    } else if a.len() == 0 {
    } else if c.len() == 0 {
    } else {
        if (a[0] as u32) < (b[0] as u32) {
        } else {
            if (b[0] as u32) < (c[0] as u32) {
            } else {
                lemma_lex_lt_trans(a.drop_first(), b.drop_first(), c.drop_first());
            }
        }
    }
}

/// Transitivity through equality on the left pair being strict.
proof fn lemma_lex_lt_trans2(a: Seq<char>, b: Seq<char>, c: Seq<char>)
    requires
        !lex_lt(b, a),
        a != b,
        lex_lt(b, c) || b == c,
    ensures
        lex_lt(a, c),
    decreases a.len() + b.len() + c.len(),
{
    lemma_lex_lt_connected(b, a);
    if b == c {
    } else {
        lemma_lex_lt_trans(a, b, c);
    }
}

/// Two different sequences are ordered one way or the other.
pub proof fn lemma_lex_lt_connected(a: Seq<char>, b: Seq<char>)
    ensures
        a == b || lex_lt(a, b) || lex_lt(b, a),
    decreases a.len(),
{
    if b.len() == 0 {
        if a.len() == 0 {
            assert(a =~= b);
        }
    } else if a.len() == 0 {
    } else if (a[0] as u32) < (b[0] as u32) {
    } else if (a[0] as u32) > (b[0] as u32) {
    } else {
        lemma_lex_lt_connected(a.drop_first(), b.drop_first());
        if a.drop_first() == b.drop_first() {
            assert(a.drop_first().len() == b.drop_first().len());
            assert(a.len() == b.len());
            assert forall|k: int| 0 <= k < a.len() implies a[k] == b[k] by {
                if k > 0 {
                    assert(a.drop_first()[k - 1] == a[k]);
                    assert(b.drop_first()[k - 1] == b[k]);
                } else {
                    vstd::utf8::char_u32_cast(a[0], a[0] as u32);
                    vstd::utf8::char_u32_cast(b[0], b[0] as u32);
                }
            }
            assert(a =~= b);
        }
    }
}

/// A sorted population has each key at one index only.
proof fn lemma_sorted_unique(p: Population, u: int, i: int)
    requires
        p.wf(),
        0 <= u < p.people@.len(),
        0 <= i < p.people@.len(),
        p.people@[u].0@ == p.people@[i].0@,
    ensures
        u == i,
{
    if u < i {
        lemma_lex_lt_irrefl(p.people@[u].0@, p.people@[i].0@);
    } else if i < u {
        lemma_lex_lt_irrefl(p.people@[i].0@, p.people@[u].0@);
    }
}

/// Replacing one entry under the same key keeps the order.
proof fn lemma_sorted_unchanged_keys(pre: Population, post: Population, i: int)
    requires
        pre.wf(),
        0 <= i < pre.people@.len(),
        post.people@.len() == pre.people@.len(),
        post.people@[i].0@ == pre.people@[i].0@,
        forall|j: int| 0 <= j < pre.people@.len() && j != i ==> post.people@[j] == pre.people@[j],
    ensures
        post.wf(),
{
    assert forall|a: int, b: int|
        #![trigger post.people@[a], post.people@[b]]
        0 <= a < b < post.people@.len() implies lex_lt(
        post.people@[a].0@,
        post.people@[b].0@,
    ) by {
        assert(post.people@[a].0@ == pre.people@[a].0@);
        assert(post.people@[b].0@ == pre.people@[b].0@);
    }
}


impl Population {
    /// Every person's attribute map is well formed.
    pub open spec fn attrs_wf(self) -> bool {
        forall|i: int|
            0 <= i < self.people@.len() ==> (#[trigger] self.people@[i]).1.attributes.wf()
    }

    /// Record an attribute on the person with the given id, replacing any
    /// value already there.  Nothing changes when the id is unknown.
    pub fn set_attr(&mut self, pid: &String, key: String, value: String) -> (r: bool)
        requires
            old(self).wf(),
            old(self).attrs_wf(),
        ensures
            final(self).wf(),
            final(self).attrs_wf(),
            r == old(self).spec_contains(pid@),
            final(self).people@.len() == old(self).people@.len(),
            forall|q: int|
                #![auto]
                0 <= q < old(self).people@.len() && old(self).people@[q].0@ != pid@ ==> final(self).people@[q] == old(self).people@[q],
            forall|q: int|
                #![auto]
                0 <= q < old(self).people@.len() && old(self).people@[q].0@ == pid@ ==> final(self).people@[q].0 == old(self).people@[q].0 && final(self).people@[q].1.trace == old(self).people@[q].1.trace && final(self).people@[q].1.attributes@ == old(self).people@[q].1.attributes@.insert(key@, value),
    {
        let i = match self.index_of(pid) {
            Some(i) => i,
            None => {
                return false;
            },
        };
        self.people[i].1.attributes.insert(key, value);
        proof {
            assert forall|a: int, b: int|
                #![trigger self.people@[a], self.people@[b]]
                0 <= a < b < self.people@.len() implies lex_lt(
                self.people@[a].0@,
                self.people@[b].0@,
            ) by {
                assert(self.people@[a].0 == old(self).people@[a].0);
                assert(self.people@[b].0 == old(self).people@[b].0);
            }
            assert forall|q: int|
                #![auto]
                0 <= q < old(self).people@.len() && old(self).people@[q].0@ == pid@ implies q
                == i as int by {
                lemma_sorted_unique(*old(self), q, i as int);
            }
        }
        true
    }

    /// Append a trace component to the person with the given id.  Nothing
    /// changes when the id is unknown.
    pub fn push_component(&mut self, pid: &String, component: Component) -> (r: bool)
        requires
            old(self).wf(),
            old(self).attrs_wf(),
        ensures
            final(self).wf(),
            final(self).attrs_wf(),
            r == old(self).spec_contains(pid@),
            final(self).people@.len() == old(self).people@.len(),
            forall|q: int|
                #![auto]
                0 <= q < old(self).people@.len() && old(self).people@[q].0@ != pid@ ==> final(self).people@[q] == old(self).people@[q],
            forall|q: int|
                #![auto]
                0 <= q < old(self).people@.len() && old(self).people@[q].0@ == pid@ ==> final(self).people@[q].0 == old(self).people@[q].0 && final(self).people@[q].1.attributes
                == old(self).people@[q].1.attributes && final(self).people@[q].1.trace.plan@ == old(self).people@[q].1.trace.plan@.push(component),
    {
        let i = match self.index_of(pid) {
            Some(i) => i,
            None => {
                return false;
            },
        };
        self.people[i].1.trace.add(component);
        proof {
            assert forall|a: int, b: int|
                #![trigger self.people@[a], self.people@[b]]
                0 <= a < b < self.people@.len() implies lex_lt(
                self.people@[a].0@,
                self.people@[b].0@,
            ) by {
                assert(self.people@[a].0 == old(self).people@[a].0);
                assert(self.people@[b].0 == old(self).people@[b].0);
            }
            assert forall|q: int|
                #![auto]
                0 <= q < old(self).people@.len() && old(self).people@[q].0@ == pid@ implies q
                == i as int by {
                lemma_sorted_unique(*old(self), q, i as int);
            }
        }
        true
    }

    /// The same id, attributes and trace.
    pub open spec fn entry_like(a: (String, Person), b: (String, Person)) -> bool {
        &&& a.0 == b.0
        &&& a.1.attributes.entries@ == b.1.attributes.entries@
        &&& a.1.trace.plan@ == b.1.trace.plan@
    }

    /// Drop every person whose trace has no link.
    pub fn clean(&mut self)
        requires
            old(self).wf(),
            old(self).attrs_wf(),
        ensures
            final(self).wf(),
            final(self).attrs_wf(),
            exists|picks: Seq<int>|
                #![trigger picks.len()]
                {
                    &&& picks.len() == final(self).people@.len()
                    &&& (forall|k: int|
                        0 <= k < picks.len() ==> 0 <= #[trigger] picks[k] < old(self).people@.len() && Population::entry_like(
                            final(self).people@[k],
                            old(self).people@[picks[k]],
                        ) && old(self).people@[picks[k]].1.trace.spec_contains_link())
                    &&& (forall|k1: int, k2: int|
                        0 <= k1 < k2 < picks.len() ==> picks[k1] < picks[k2])
                    &&& (forall|q: int|
                        0 <= q < old(self).people@.len() && (
                        #[trigger] old(self).people@[q]).1.trace.spec_contains_link()
                            ==> picks.contains(q))
                },
    {
        let n = self.people.len();
        let mut kept: Vec<(String, Person)> = Vec::new();
        let ghost mut keeps: Seq<int> = Seq::empty();
        let ghost pre = self.people@;
        for i in 0..n
            invariant
                n == pre.len(),
                self.people@ == pre,
                self.wf(),
                self.attrs_wf(),
                keeps.len() == kept@.len(),
                forall|k: int|
                    0 <= k < keeps.len() ==> 0 <= #[trigger] keeps[k] < i
                        && Population::entry_like(kept@[k], pre[keeps[k]]),
                forall|k1: int, k2: int| 0 <= k1 < k2 < keeps.len() ==> keeps[k1] < keeps[k2],
                forall|k: int|
                    0 <= k < kept@.len() ==> (#[trigger] kept@[k]).1.attributes.wf(),
                forall|k: int|
                    0 <= k < kept@.len() ==> (#[trigger] kept@[k]).1.trace.spec_contains_link(),
                forall|q: int|
                    0 <= q < i && (#[trigger] pre[q]).1.trace.spec_contains_link()
                        ==> keeps.contains(q),
        {
            if self.people[i].1.trace.contains_link() {
                let pid = self.people[i].0.clone();
                let attributes = kv_duplicate(&self.people[i].1.attributes);
                let trace = trace_duplicate(&self.people[i].1.trace);
                let ghost before = kept@;
                kept.push((pid, Person { attributes, trace }));
                proof {
                    let keeps0 = keeps;
                    keeps = keeps.push(i as int);
                    assert(Population::entry_like(kept@[before.len() as int], pre[i as int]));
                    assert(keeps[keeps.len() - 1] == i as int);
                    assert forall|q: int|
                        0 <= q < i + 1 && (#[trigger] pre[q]).1.trace.spec_contains_link()
                            implies keeps.contains(q) by {
                        if q < i {
                            let w = choose|w: int| 0 <= w < keeps0.len() && keeps0[w] == q;
                            assert(keeps[w] == q);
                        } else {
                            assert(keeps[keeps.len() - 1] == q);
                        }
                    }
                }
            }
        }
        self.people = kept;
        proof {
            assert forall|a: int, b: int|
                #![trigger self.people@[a], self.people@[b]]
                0 <= a < b < self.people@.len() implies lex_lt(
                self.people@[a].0@,
                self.people@[b].0@,
            ) by {
                assert(Population::entry_like(self.people@[a], pre[keeps[a]]));
                assert(Population::entry_like(self.people@[b], pre[keeps[b]]));
            }
        }
    }
}

/// An attribute map with the same entries.
pub fn kv_duplicate(m: &KvMap<String>) -> (r: KvMap<String>)
    ensures
        r.entries@ == m.entries@,
{
    let mut entries: Vec<(String, String)> = Vec::new();
    let n = m.entries.len();
    for i in 0..n
        invariant
            n == m.entries@.len(),
            entries@.len() == i,
            forall|j: int| 0 <= j < i ==> entries@[j] == m.entries@[j],
    {
        entries.push((m.entries[i].0.clone(), m.entries[i].1.clone()));
    }
    proof {
        assert(entries@ =~= m.entries@);
    }
    KvMap { entries }
}

/// A trace with the same plan.
pub fn trace_duplicate(t: &Trace) -> (r: Trace)
    ensures
        r.plan@ == t.plan@,
{
    let mut plan: Vec<Component> = Vec::new();
    let n = t.plan.len();
    for i in 0..n
        invariant
            n == t.plan@.len(),
            plan@.len() == i,
            forall|j: int| 0 <= j < i ==> plan@[j] == t.plan@[j],
    {
        let c = match &t.plan[i] {
            Component::ActivityType(a) => Component::ActivityType(
                crate::trace::Activity {
                    start_time: a.start_time,
                    end_time: a.end_time,
                    act: a.act.clone(),
                    node: a.node,
                },
            ),
            Component::LinkType(l) => Component::LinkType(
                crate::trace::Link {
                    start_time: l.start_time,
                    end_time: l.end_time,
                    lid: l.lid.clone(),
                    distance: l.distance,
                    node: l.node,
                },
            ),
        };
        plan.push(c);
    }
    proof {
        assert(plan@ =~= t.plan@);
    }
    Trace { plan }
}

/// The state of the attribute parser.
#[derive(Debug, PartialEq)]
pub enum AttributesParserState {
    Population,
    Person { pid: String },
    Plan { pid: String },
    Attributes { pid: String },
    Attribute { pid: String, name: String },
}

/// Walks plan tokens, recording each person and the attributes seen in the
/// first attribute block after the person opens.  With the plan guard on,
/// an attribute block inside a plan is never consumed; without it, the
/// parser relies on person-level attributes preceding the plan, as older
/// files laid them out.
#[derive(Debug)]
pub struct AttributesParser {
    pub state: AttributesParserState,
    pub guard_plans: bool,
}

impl AttributesParser {
    pub fn new() -> (r: AttributesParser)
        ensures
            r.state == AttributesParserState::Population,
            r.guard_plans,
    {
        AttributesParser { state: AttributesParserState::Population, guard_plans: true }
    }

    /// The legacy reading: no plan guard, so a plan that precedes the
    /// person-level attributes can leak its attributes onto the person.
    pub fn unguarded() -> (r: AttributesParser)
        ensures
            r.state == AttributesParserState::Population,
            !r.guard_plans,
    {
        AttributesParser { state: AttributesParserState::Population, guard_plans: false }
    }

    /// The tokens the parser can take in its current state: a `person`
    /// start must carry an id, and an `attribute` start a name.
    pub open spec fn spec_event_ok(self, event: XmlEvent) -> bool {
        match event {
            XmlEvent::Start { name, attributes } => {
                if self.state is Population && name@ == "person"@ {
                    crate::xml::spec_attr_of(attributes@, "id"@) is Some
                } else if self.state is Attributes && name@ == "attribute"@ {
                    crate::xml::spec_attr_of(attributes@, "name"@) is Some
                } else {
                    true
                }
            },
            _ => true,
        }
    }

    /// Feed one token: move the state machine and record people and
    /// attributes in the population.
    pub fn process(&mut self, event: &XmlEvent, people: &mut Population)
        requires
            old(people).wf(),
            old(people).attrs_wf(),
            old(self).spec_event_ok(*event),
        ensures
            final(people).wf(),
            final(people).attrs_wf(),
            final(self).guard_plans == old(self).guard_plans,
            ({
                match old(self).state {
                    AttributesParserState::Population => {
                        match event {
                            XmlEvent::Start { name, attributes } => {
                                if name@ == "person"@ {
                                    &&& final(self).state matches AttributesParserState::Person {
                                        pid,
                                    } && Some(pid@) == spec_attr_view(attributes@, "id"@)
                                    &&& final(people).spec_contains(
                                        spec_attr_view(attributes@, "id"@)->0,
                                    )
                                } else {
                                    final(self).state is Population && *final(people) == *old(people)
                                }
                            },
                            _ => final(self).state is Population && *final(people) == *old(people),
                        }
                    },
                    AttributesParserState::Person { pid } => {
                        &&& *final(people) == *old(people)
                        &&& match event {
                            XmlEvent::End { name } => {
                                if name@ == "person"@ {
                                    final(self).state is Population
                                } else {
                                    final(self).state matches AttributesParserState::Person {
                                        pid: p,
                                    } && p@ == pid@
                                }
                            },
                            XmlEvent::Start { name, attributes } => {
                                if name@ == "attributes"@ {
                                    final(self).state matches AttributesParserState::Attributes {
                                        pid: p,
                                    } && p@ == pid@
                                } else if name@ == "plan"@ && old(self).guard_plans {
                                    final(self).state matches AttributesParserState::Plan {
                                        pid: p,
                                    } && p@ == pid@
                                } else {
                                    final(self).state matches AttributesParserState::Person {
                                        pid: p,
                                    } && p@ == pid@
                                }
                            },
                            _ => final(self).state matches AttributesParserState::Person {
                                pid: p,
                            } && p@ == pid@,
                        }
                    },
                    AttributesParserState::Plan { pid } => {
                        &&& *final(people) == *old(people)
                        &&& match event {
                            XmlEvent::End { name } => {
                                if name@ == "plan"@ {
                                    final(self).state matches AttributesParserState::Person {
                                        pid: p,
                                    } && p@ == pid@
                                } else {
                                    final(self).state matches AttributesParserState::Plan {
                                        pid: p,
                                    } && p@ == pid@
                                }
                            },
                            _ => final(self).state matches AttributesParserState::Plan {
                                pid: p,
                            } && p@ == pid@,
                        }
                    },
                    AttributesParserState::Attributes { pid } => {
                        &&& *final(people) == *old(people)
                        &&& match event {
                            XmlEvent::End { name } => {
                                if name@ == "attributes"@ {
                                    final(self).state is Population
                                } else {
                                    final(self).state matches AttributesParserState::Attributes {
                                        pid: p,
                                    } && p@ == pid@
                                }
                            },
                            XmlEvent::Start { name, attributes } => {
                                if name@ == "attribute"@ {
                                    final(self).state matches AttributesParserState::Attribute {
                                        pid: p,
                                        name: k,
                                    } && p@ == pid@ && Some(k@) == spec_attr_view(
                                        attributes@,
                                        "name"@,
                                    )
                                } else {
                                    final(self).state matches AttributesParserState::Attributes {
                                        pid: p,
                                    } && p@ == pid@
                                }
                            },
                            _ => final(self).state matches AttributesParserState::Attributes {
                                pid: p,
                            } && p@ == pid@,
                        }
                    },
                    AttributesParserState::Attribute { pid, name: key } => {
                        match event {
                            XmlEvent::Text { content } => {
                                &&& final(self).state matches AttributesParserState::Attributes {
                                    pid: p,
                                } && p@ == pid@
                                &&& spec_attr_recorded(
                                    *old(people),
                                    *final(people),
                                    pid@,
                                    key@,
                                    *content,
                                )
                            },
                            _ => final(self).state matches AttributesParserState::Attributes {
                                pid: p,
                            } && p@ == pid@ && *final(people) == *old(people),
                        }
                    },
                }
            }),
    {
        let next = match &self.state {
            AttributesParserState::Population => {
                match event {
                    XmlEvent::Start { name, attributes } => {
                        if *name == String::from_str("person") {
                            let pid = match get_attribute(attributes, &String::from_str("id")) {
                                Some(v) => v.clone(),
                                None => String::new(),
                            };
                            let fresh = Person::new();
                            let ghost fresh0 = fresh;
                            people.insert(pid.clone(), fresh);
                            proof {
                                assert forall|w: int|
                                    0 <= w < people.people@.len() implies (
                                #[trigger] people.people@[w]).1.attributes.wf() by {
                                    if people.people@[w].1 == fresh0 {
                                    } else {
                                        let q = choose|q: int|
                                            0 <= q < old(people).people@.len()
                                                && people.people@[w] == old(people).people@[q];
                                        assert(old(people).people@[q].1.attributes.wf());
                                    }
                                }
                            }
                            AttributesParserState::Person { pid }
                        } else {
                            AttributesParserState::Population
                        }
                    },
                    _ => AttributesParserState::Population,
                }
            },
            AttributesParserState::Person { pid } => {
                match event {
                    XmlEvent::End { name } => {
                        if *name == String::from_str("person") {
                            AttributesParserState::Population
                        } else {
                            AttributesParserState::Person { pid: pid.clone() }
                        }
                    },
                    XmlEvent::Start { name, attributes: _ } => {
                        if *name == String::from_str("attributes") {
                            AttributesParserState::Attributes { pid: pid.clone() }
                        } else if self.guard_plans && *name == String::from_str("plan") {
                            AttributesParserState::Plan { pid: pid.clone() }
                        } else {
                            AttributesParserState::Person { pid: pid.clone() }
                        }
                    },
                    _ => AttributesParserState::Person { pid: pid.clone() },
                }
            },
            AttributesParserState::Plan { pid } => {
                match event {
                    XmlEvent::End { name } => {
                        if *name == String::from_str("plan") {
                            AttributesParserState::Person { pid: pid.clone() }
                        } else {
                            AttributesParserState::Plan { pid: pid.clone() }
                        }
                    },
                    _ => AttributesParserState::Plan { pid: pid.clone() },
                }
            },
            AttributesParserState::Attributes { pid } => {
                match event {
                    XmlEvent::End { name } => {
                        if *name == String::from_str("attributes") {
                            AttributesParserState::Population
                        } else {
                            AttributesParserState::Attributes { pid: pid.clone() }
                        }
                    },
                    XmlEvent::Start { name, attributes } => {
                        if *name == String::from_str("attribute") {
                            let key = match get_attribute(attributes, &String::from_str("name")) {
                                Some(v) => v.clone(),
                                None => String::new(),
                            };
                            AttributesParserState::Attribute { pid: pid.clone(), name: key }
                        } else {
                            AttributesParserState::Attributes { pid: pid.clone() }
                        }
                    },
                    _ => AttributesParserState::Attributes { pid: pid.clone() },
                }
            },
            AttributesParserState::Attribute { pid, name: key } => {
                match event {
                    XmlEvent::Text { content } => {
                        people.set_attr(pid, key.clone(), content.clone());
                        AttributesParserState::Attributes { pid: pid.clone() }
                    },
                    _ => AttributesParserState::Attributes { pid: pid.clone() },
                }
            },
        };
        self.state = next;
    }
}

/// The view of an attribute value, when present.
pub open spec fn spec_attr_view(attrs: Seq<(String, String)>, key: Seq<char>) -> Option<Seq<char>> {
    match crate::xml::spec_attr_of(attrs, key) {
        Some(v) => Some(v@),
        None => None,
    }
}

/// The attribute was recorded on the person when present, and the rest of
/// the population untouched.
pub open spec fn spec_attr_recorded(
    pre: Population,
    post: Population,
    pid: Seq<char>,
    key: Seq<char>,
    value: String,
) -> bool {
    &&& post.people@.len() == pre.people@.len()
    &&& (forall|q: int|
        #![auto]
        0 <= q < pre.people@.len() && pre.people@[q].0@ != pid ==> post.people@[q]
            == pre.people@[q])
    &&& (forall|q: int|
        #![auto]
        0 <= q < pre.people@.len() && pre.people@[q].0@ == pid ==> post.people@[q].0
            == pre.people@[q].0 && post.people@[q].1.trace == pre.people@[q].1.trace
            && post.people@[q].1.attributes@ == pre.people@[q].1.attributes@.insert(key, value))
}


/// All ways to choose `k` of the elements of `s[from ..]`, in order: the
/// subsets containing the first element come first.
pub open spec fn spec_combs(s: Seq<usize>, from: int, k: int) -> Seq<Seq<usize>>
    decreases s.len() - from,
    when 0 <= from <= s.len()
{
    if k <= 0 {
        seq![Seq::empty()]
    } else if from >= s.len() {
        Seq::empty()
    } else {
        spec_combs(s, from + 1, k - 1).map_values(|c: Seq<usize>| seq![s[from]] + c)
            + spec_combs(s, from + 1, k)
    }
}

/// All ways to choose `k` of the elements of `v[from ..]`.
pub fn combinations_from(v: &Vec<usize>, from: usize, k: usize) -> (r: Vec<Vec<usize>>)
    requires
        from <= v@.len(),
    ensures
        r@.map_values(|c: Vec<usize>| c@) == spec_combs(v@, from as int, k as int),
    decreases v@.len() - from,
{
    if k == 0 {
        let mut out: Vec<Vec<usize>> = Vec::new();
        out.push(Vec::new());
        proof {
            assert(out@.map_values(|c: Vec<usize>| c@) =~= seq![Seq::<usize>::empty()]);
        }
        out
    } else if from >= v.len() {
        let out: Vec<Vec<usize>> = Vec::new();
        proof {
            assert(out@.map_values(|c: Vec<usize>| c@) =~= Seq::<Seq<usize>>::empty());
        }
        out
    } else {
        let first = v[from];
        let with_first = combinations_from(v, from + 1, k - 1);
        let rest = combinations_from(v, from + 1, k);
        let mut out: Vec<Vec<usize>> = Vec::new();
        let n1 = with_first.len();
        for i in 0..n1
            invariant
                n1 == with_first@.len(),
                first == v@[from as int],
                out@.len() == i,
                forall|j: int|
                    0 <= j < i ==> (#[trigger] out@[j])@ == seq![v@[from as int]]
                        + with_first@[j]@,
        {
            let mut c: Vec<usize> = Vec::new();
            c.push(first);
            let m = with_first[i].len();
            for q in 0..m
                invariant
                    i < with_first@.len(),
                    m == with_first@[i as int]@.len(),
                    c@.len() == q + 1,
                    c@[0] == first,
                    forall|w: int| 0 <= w < q ==> c@[w + 1] == with_first@[i as int]@[w],
            {
                c.push(with_first[i][q]);
            }
            proof {
                assert(c@ =~= seq![first] + with_first@[i as int]@);
            }
            out.push(c);
        }
        let n2 = rest.len();
        for i in 0..n2
            invariant
                n2 == rest@.len(),
                out@.len() == n1 + i,
                first == v@[from as int],
                n1 == with_first@.len(),
                forall|j: int|
                    0 <= j < n1 ==> (#[trigger] out@[j])@ == seq![v@[from as int]]
                        + with_first@[j]@,
                forall|j: int| 0 <= j < i ==> (#[trigger] out@[n1 + j])@ == rest@[j]@,
        {
            let m = rest[i].len();
            let mut c: Vec<usize> = Vec::new();
            for q in 0..m
                invariant
                    i < rest@.len(),
                    m == rest@[i as int]@.len(),
                    c@.len() == q,
                    forall|w: int| 0 <= w < q ==> c@[w] == rest@[i as int]@[w],
            {
                c.push(rest[i][q]);
            }
            proof {
                assert(c@ =~= rest@[i as int]@);
            }
            out.push(c);
        }
        proof {
            let f = |c: Vec<usize>| c@;
            let g = |c: Seq<usize>| seq![v@[from as int]] + c;
            assert forall|j: int| 0 <= j < out@.len() implies #[trigger] out@.map_values(f)[j]
                == (spec_combs(v@, from as int + 1, k as int - 1).map_values(g) + spec_combs(
                v@,
                from as int + 1,
                k as int,
            ))[j] by {
                if j < n1 {
                    assert(with_first@.map_values(f)[j] == with_first@[j]@);
                } else {
                    assert(out@[n1 + (j - n1)]@ == rest@[j - n1]@);
                    assert(rest@.map_values(f)[j - n1] == rest@[j - n1]@);
                }
            }
            assert(out@.map_values(f) =~= spec_combs(v@, from as int, k as int));
        }
        out
    }
}

impl Person {
    /// The charging subsets to try, grouped by size: for each size from one
    /// up to the number of viable activities, all combinations of that many
    /// viable indices, drawn over the reversed index list so that later
    /// activities come first.  With no viable activity at all, one empty
    /// subset.
    pub fn viable_combinations(&self, activities: &Vec<&String>) -> (r: Vec<Vec<Vec<usize>>>)
        ensures
            ({
                let names = activities@.map_values(|s: &String| s@);
                exists|viable: Seq<usize>|
                    {
                        &&& #[trigger] spec_viable_set_ok(self.trace.plan@, names, viable)
                        &&& spec_combination_groups_ok(r@, viable)
                    }
            }),
    {
        let viable = self.viable_charge_activities(activities);
        let n = viable.len();
        let mut reversed: Vec<usize> = Vec::new();
        let mut i = n;
        while i > 0
            invariant
                i <= n,
                n == viable@.len(),
                reversed@.len() == n - i,
                forall|j: int| 0 <= j < n - i ==> reversed@[j] == viable@[n - 1 - j],
            decreases i,
        {
            i = i - 1;
            reversed.push(viable[i]);
        }
        let mut out: Vec<Vec<Vec<usize>>> = Vec::new();
        if n == 0 {
            let mut sizes: Vec<Vec<usize>> = Vec::new();
            sizes.push(Vec::new());
            out.push(sizes);
            proof {
                let names = activities@.map_values(|s: &String| s@);
                assert(spec_viable_set_ok(self.trace.plan@, names, viable@));
                assert(out@[0]@.map_values(|c: Vec<usize>| c@) =~= seq![Seq::<usize>::empty()]);
                assert(out@[0]@.map_values(|c: Vec<usize>| c@) == spec_combs(
                    reversed@,
                    0,
                    0,
                ));
                assert(reversed@ =~= viable@.reverse());
                assert(spec_combination_groups_ok(out@, viable@));
            }
            return out;
        }
        for w in 0..n
            invariant
                n == viable@.len(),
                n >= 1,
                reversed@.len() == n,
                forall|j: int| 0 <= j < n ==> reversed@[j] == viable@[n - 1 - j],
                out@.len() == w,
                forall|q: int|
                    0 <= q < w ==> (#[trigger] out@[q])@.map_values(|c: Vec<usize>| c@)
                        == spec_combs(reversed@, 0, q + 1),
        {
            let combs = combinations_from(&reversed, 0, w + 1);
            out.push(combs);
        }
        proof {
            let names = activities@.map_values(|s: &String| s@);
            assert(spec_viable_set_ok(self.trace.plan@, names, viable@));
            assert(reversed@ =~= viable@.reverse());
            assert(spec_combination_groups_ok(out@, viable@));
        }
        out
    }
}

/// The viable index list: exactly the activity indices whose name is one of
/// the given ones, in ascending trace order.
pub open spec fn spec_viable_set_ok(
    plan: Seq<Component>,
    names: Seq<Seq<char>>,
    viable: Seq<usize>,
) -> bool {
    &&& (forall|k: int|
        0 <= k < viable.len() ==> Person::spec_is_viable(plan, names, #[trigger] viable[k] as int))
    &&& (forall|k1: int, k2: int| 0 <= k1 < k2 < viable.len() ==> viable[k1] < viable[k2])
    &&& (forall|i: int|
        Person::spec_is_viable(plan, names, i) ==> exists|k: int|
            0 <= k < viable.len() && (#[trigger] viable[k]) as int == i)
}

/// The subset groups to try: with no viable index, a single empty subset;
/// otherwise, for each size `w + 1`, all combinations of that size over the
/// reversed viable list.
pub open spec fn spec_combination_groups_ok(groups: Seq<Vec<Vec<usize>>>, viable: Seq<usize>) -> bool {
    if viable.len() == 0 {
        groups.len() == 1 && groups[0]@.map_values(|c: Vec<usize>| c@) == spec_combs(
            viable.reverse(),
            0,
            0,
        )
    } else {
        groups.len() == viable.len() && (forall|w: int|
            0 <= w < groups.len() ==> (#[trigger] groups[w])@.map_values(|c: Vec<usize>| c@)
                == spec_combs(viable.reverse(), 0, w + 1))
    }
}

} // verus!
