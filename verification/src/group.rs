//! An ordered group of filterable specifications.
//!
//! `find` walks the group in reverse declaration order and returns the last
//! spec whose filters match and whose probability gate passes; `filter`
//! returns every passing spec in declaration order.  A draw is taken exactly
//! when a spec's filters match and it carries a probability, so the
//! selection is a pure function of the group, the attributes and the draw
//! sequence; `find_given` exposes that function.

use vstd::prelude::*;
use rand::rngs::SmallRng;
use crate::filter::{spec_filters_pass, filters_pass, PersonAttributes};
use crate::groups::FilterableSpec;
use crate::sampler::sample_p;

verus! {


/// What `find` guarantees of a returned spec: its filters match, and every
/// later-declared spec whose filters match carries a probability gate.
pub open spec fn spec_found_ok<T: FilterableSpec>(
    specs: Seq<T>,
    attrs: Map<Seq<char>, String>,
    s: T,
) -> bool {
    exists|i: int|
        0 <= i < specs.len() && specs[i] == s && spec_filters_pass(specs[i].spec_filters(), attrs)
            && (forall|j: int|
            i < j < specs.len() && spec_filters_pass(
                (#[trigger] specs[j]).spec_filters(),
                attrs,
            ) ==> specs[j].spec_p() is Some)
}

/// What an empty `find` guarantees: every spec whose filters match carries
/// a probability gate.
pub open spec fn spec_none_found_ok<T: FilterableSpec>(
    specs: Seq<T>,
    attrs: Map<Seq<char>, String>,
) -> bool {
    forall|j: int|
        0 <= j < specs.len() && spec_filters_pass((#[trigger] specs[j]).spec_filters(), attrs)
            ==> specs[j].spec_p() is Some
}

/// What `filter` guarantees: the output is a subsequence of the group in
/// declaration order, every member's filters match, and every ungated spec
/// whose filters match is included.
pub open spec fn spec_filter_ok<T: FilterableSpec>(
    specs: Seq<T>,
    attrs: Map<Seq<char>, String>,
    out: Seq<T>,
) -> bool {
    &&& (forall|k: int|
        0 <= k < out.len() ==> spec_filters_pass((#[trigger] out[k]).spec_filters(), attrs))
    &&& exists|picks: Seq<int>|
        {
            &&& picks.len() == out.len()
            &&& (forall|k: int|
                0 <= k < picks.len() ==> 0 <= #[trigger] picks[k] < specs.len() && out[k]
                    == specs[picks[k]])
            &&& (forall|k1: int, k2: int| 0 <= k1 < k2 < picks.len() ==> picks[k1] < picks[k2])
            &&& (forall|j: int|
                0 <= j < specs.len() && spec_filters_pass(
                    (#[trigger] specs[j]).spec_filters(),
                    attrs,
                ) && specs[j].spec_p() is None ==> picks.contains(j))
        }
}

#[derive(Debug, PartialEq)]
pub struct ConfigGroup<T> {
    pub specs: Vec<T>,
}

/// The result of `find`, computed from a sequence of draws.  Walks indices
/// `i - 1` down to `0` with the draw cursor at `d`, and returns the chosen
/// index (if any) and the final cursor.
pub open spec fn spec_find_from<T: FilterableSpec>(
    specs: Seq<T>,
    attrs: Map<Seq<char>, String>,
    draws: Seq<u32>,
    i: int,
    d: int,
) -> (Option<int>, int)
    decreases i,
{
    if i <= 0 {
        (None, d)
    } else {
        let j = i - 1;
        if !spec_filters_pass(specs[j].spec_filters(), attrs) {
            spec_find_from(specs, attrs, draws, j, d)
        } else {
            match specs[j].spec_p() {
                None => (Some(j), d),
                Some(pv) => if 0 <= d < draws.len() && pv > draws[d] {
                    (Some(j), d + 1)
                } else {
                    spec_find_from(specs, attrs, draws, j, d + 1)
                },
            }
        }
    }
}

impl<T: FilterableSpec> ConfigGroup<T> {
    pub fn from_vec(specs: Vec<T>) -> (r: ConfigGroup<T>)
        ensures
            r.specs@ == specs@,
    {
        ConfigGroup { specs }
    }

    pub fn len(&self) -> (r: usize)
        ensures
            r == self.specs@.len(),
    {
        self.specs.len()
    }

    pub fn get(&self, i: usize) -> (r: &T)
        requires
            i < self.specs@.len(),
        ensures
            *r == self.specs@[i as int],
    {
        &self.specs[i]
    }

    /// The last spec, in declaration order, whose filters match and whose
    /// probability gate passes.  When an ungated spec matches the filters,
    /// something is always returned.
    pub fn find<'a>(&'a self, attributes: &PersonAttributes, rng: &mut SmallRng) -> (r: Option<
        &'a T,
    >)
        requires
            attributes.wf(),
        ensures
            match r {
                Some(s) => spec_found_ok(self.specs@, attributes@, *s),
                None => spec_none_found_ok(self.specs@, attributes@),
            },
    {
        let n = self.specs.len();
        let mut k = n;
        while k > 0
            invariant
                k <= n,
                n == self.specs@.len(),
                attributes.wf(),
                forall|j: int|
                    k <= j < n && spec_filters_pass(
                        #[trigger] self.specs@[j].spec_filters(),
                        attributes@,
                    ) ==> self.specs@[j].spec_p() is Some,
            decreases k,
        {
            k = k - 1;
            let s = &self.specs[k];
            if filters_pass(s.get_filters(), attributes) {
                if sample_p(s.get_p(), rng) {
                    proof {
                        assert(self.specs@[k as int] == *s && spec_filters_pass(
                            self.specs@[k as int].spec_filters(),
                            attributes@,
                        ));
                    }
                    return Some(s);
                }
            }
        }
        None
    }

    /// Every spec whose filters match and whose gate passes, in declaration
    /// order.  Every returned spec matches the filters; every ungated spec
    /// that matches the filters is returned.
    pub fn filter<'a>(&'a self, attributes: &PersonAttributes, rng: &mut SmallRng) -> (r: Vec<
        &'a T,
    >)
        requires
            attributes.wf(),
        ensures
            spec_filter_ok(self.specs@, attributes@, r@.map_values(|x: &T| *x)),
    {
        let mut out: Vec<&'a T> = Vec::new();
        let ghost mut picks: Seq<int> = Seq::empty();
        let n = self.specs.len();
        for i in 0..n
            invariant
                n == self.specs@.len(),
                attributes.wf(),
                picks.len() == out@.len(),
                forall|k: int|
                    0 <= k < out@.len() ==> spec_filters_pass(
                        (#[trigger] out@[k]).spec_filters(),
                        attributes@,
                    ),
                forall|k: int|
                    0 <= k < picks.len() ==> 0 <= #[trigger] picks[k] < i && *out@[k]
                        == self.specs@[picks[k]],
                forall|k1: int, k2: int| 0 <= k1 < k2 < picks.len() ==> picks[k1] < picks[k2],
                forall|j: int|
                    0 <= j < i && spec_filters_pass(
                        (#[trigger] self.specs@[j]).spec_filters(),
                        attributes@,
                    ) && self.specs@[j].spec_p() is None ==> picks.contains(j),
        {
            let s = &self.specs[i];
            if filters_pass(s.get_filters(), attributes) {
                if sample_p(s.get_p(), rng) {
                    out.push(s);
                    proof {
                        let picks0 = picks;
                        picks = picks.push(i as int);
                        assert(picks[picks.len() - 1] == i as int);
                        assert forall|j: int|
                            0 <= j < i + 1 && spec_filters_pass(
                                (#[trigger] self.specs@[j]).spec_filters(),
                                attributes@,
                            ) && self.specs@[j].spec_p() is None implies picks.contains(j) by {
                            if j < i {
                                assert(picks0.contains(j));
                                let w = choose|w: int|
                                    0 <= w < picks0.len() && picks0[w] == j;
                                assert(picks[w] == j);
                            } else {
                                assert(picks[picks.len() - 1] == j);
                            }
                        }
                    }
                } else {
                    proof {
                        assert(self.specs@[i as int].spec_p() is Some);
                    }
                }
            }
        }
        out
    }

    /// `find` replayed from an explicit draw sequence: walks the group in
    /// reverse declaration order, consuming one draw per gated spec whose
    /// filters match, and returns the chosen index with the number of draws
    /// consumed.
    pub fn find_given(&self, attributes: &PersonAttributes, draws: &Vec<u32>) -> (r: (
        Option<usize>,
        usize,
    ))
        requires
            attributes.wf(),
            draws@.len() >= self.specs@.len(),
        ensures
            ({
                let (ri, rd) = spec_find_from(
                    self.specs@,
                    attributes@,
                    draws@,
                    self.specs@.len() as int,
                    0,
                );
                &&& (match r.0 {
                    Some(i) => ri == Some(i as int),
                    None => ri is None,
                })
                &&& r.1 == rd
            }),
    {
        let n = self.specs.len();
        let mut k = n;
        let mut d: usize = 0;
        while k > 0
            invariant
                k <= n,
                n == self.specs@.len(),
                draws@.len() >= n,
                attributes.wf(),
                d <= n - k,
                spec_find_from(self.specs@, attributes@, draws@, n as int, 0) == spec_find_from(
                    self.specs@,
                    attributes@,
                    draws@,
                    k as int,
                    d as int,
                ),
            decreases k,
        {
            k = k - 1;
            let s = &self.specs[k];
            if filters_pass(s.get_filters(), attributes) {
                match s.get_p() {
                    None => {
                        return (Some(k), d);
                    },
                    Some(pv) => {
                        let u = draws[d];
                        d = d + 1;
                        if pv > u {
                            return (Some(k), d);
                        }
                    },
                }
            }
        }
        (None, d)
    }
}


/// The result of `filter`, computed from a sequence of draws: the chosen
/// declaration-order indices from `i` on, with the draw cursor at `d`, and
/// the final cursor.  One draw is consumed per gated spec whose filters
/// match.
pub open spec fn spec_filter_from<T: FilterableSpec>(
    specs: Seq<T>,
    attrs: Map<Seq<char>, String>,
    draws: Seq<u32>,
    i: int,
    d: int,
) -> (Seq<int>, int)
    decreases specs.len() - i,
{
    if i < 0 || i >= specs.len() {
        (Seq::empty(), d)
    } else if !spec_filters_pass(specs[i].spec_filters(), attrs) {
        spec_filter_from(specs, attrs, draws, i + 1, d)
    } else {
        match specs[i].spec_p() {
            None => {
                let (rest, df) = spec_filter_from(specs, attrs, draws, i + 1, d);
                (seq![i] + rest, df)
            },
            Some(pv) => if 0 <= d < draws.len() && pv > draws[d] {
                let (rest, df) = spec_filter_from(specs, attrs, draws, i + 1, d + 1);
                (seq![i] + rest, df)
            } else {
                spec_filter_from(specs, attrs, draws, i + 1, d + 1)
            },
        }
    }
}

impl<T: FilterableSpec> ConfigGroup<T> {
    /// `filter` replayed from an explicit draw sequence: exactly the
    /// declaration-order indices whose filters match and whose gate passes
    /// for these draws, with the number of draws consumed.
    pub fn filter_given(&self, attributes: &PersonAttributes, draws: &Vec<u32>) -> (r: (
        Vec<usize>,
        usize,
    ))
        requires
            attributes.wf(),
            draws@.len() >= self.specs@.len(),
        ensures
            ({
                let (picked, df) = spec_filter_from(
                    self.specs@,
                    attributes@,
                    draws@,
                    0,
                    0,
                );
                &&& r.0@.map_values(|u: usize| u as int) == picked
                &&& r.1 == df
            }),
    {
        let n = self.specs.len();
        let mut out: Vec<usize> = Vec::new();
        let mut d: usize = 0;
        let mut i: usize = 0;
        proof {
            assert(out@.map_values(|u: usize| u as int) =~= Seq::<int>::empty());
        }
        while i < n
            invariant
                i <= n,
                n == self.specs@.len(),
                draws@.len() >= n,
                attributes.wf(),
                d <= i,
                ({
                    let full = spec_filter_from(self.specs@, attributes@, draws@, 0, 0);
                    let rest = spec_filter_from(
                        self.specs@,
                        attributes@,
                        draws@,
                        i as int,
                        d as int,
                    );
                    full.0 == out@.map_values(|u: usize| u as int) + rest.0 && full.1 == rest.1
                }),
            decreases n - i,
        {
            let s = &self.specs[i];
            let ghost pre = out@;
            if filters_pass(s.get_filters(), attributes) {
                match s.get_p() {
                    None => {
                        out.push(i);
                    },
                    Some(pv) => {
                        let u = draws[d];
                        d = d + 1;
                        if pv > u {
                            out.push(i);
                        }
                    },
                }
            }
            proof {
                if out@.len() > pre.len() {
                    assert(out@.map_values(|u: usize| u as int) =~= pre.map_values(
                        |u: usize| u as int,
                    ) + seq![i as int]);
                }
            }
            i = i + 1;
        }
        (out, d)
    }
}

/// The choice that `find` makes is replayable: it is a function of the
/// group, the attributes and the draw sequence alone, so two runs over the
/// same draws choose the same spec.
pub proof fn lemma_find_replayable<T: FilterableSpec>(
    specs: Seq<T>,
    attrs: Map<Seq<char>, String>,
    draws: Seq<u32>,
    r1: (Option<int>, int),
    r2: (Option<int>, int),
)
    requires
        r1 == spec_find_from(specs, attrs, draws, specs.len() as int, 0),
        r2 == spec_find_from(specs, attrs, draws, specs.len() as int, 0),
    ensures
        r1 == r2,
{
}

} // verus!
