//! The activity charging planner: which activity names charge, and at what
//! terms.  When several specs name the same activity, the last declared one
//! wins.

use vstd::prelude::*;
use crate::groups::ActivitySpec;

verus! {

/// Whether the spec charges at the named activity.
pub open spec fn spec_charges_at(s: ActivitySpec, key: Seq<char>) -> bool {
    exists|i: int| 0 <= i < s.activities@.len() && s.activities@[i]@ == key
}

/// The activity names of `specs[0 .. i]`, flattened in declaration order.
pub open spec fn spec_flat_names(specs: Seq<&ActivitySpec>, i: int) -> Seq<String>
    decreases i,
{
    if i <= 0 {
        Seq::empty()
    } else {
        spec_flat_names(specs, i - 1) + specs[i - 1].activities@
    }
}


/// The last-declared spec that charges at the named activity.
pub open spec fn spec_last_charging(specs: Seq<&ActivitySpec>, key: Seq<char>) -> Option<int>
    decreases specs.len(),
{
    if specs.len() == 0 {
        None
    } else if spec_charges_at(*specs.last(), key) {
        Some(specs.len() - 1)
    } else {
        spec_last_charging(specs.drop_last(), key)
    }
}

#[derive(Debug, PartialEq)]
pub struct ActivityChargingPlanner<'a> {
    pub specs: Vec<&'a ActivitySpec>,
}

impl<'a> ActivityChargingPlanner<'a> {
    pub fn new(configs: Vec<&'a ActivitySpec>) -> (r: ActivityChargingPlanner<'a>)
        ensures
            r.specs@ == configs@,
    {
        ActivityChargingPlanner { specs: configs }
    }

    /// The last-declared spec that charges at the named activity, with its
    /// gating fields cleared.
    pub fn get(&self, key: &String) -> (r: Option<ActivitySpec>)
        ensures
            match r {
                Some(s) => spec_last_charging(self.specs@, key@) matches Some(j) && s.name
                    == self.specs@[j].name && s.activities@ == self.specs@[j].activities@
                    && s.charge_rate == self.specs@[j].charge_rate && s.p is None && s.filters
                    is None,
                None => spec_last_charging(self.specs@, key@) is None,
            },
    {
        let n = self.specs.len();
        let mut k = n;
        while k > 0
            invariant
                k <= n,
                n == self.specs@.len(),
                forall|j: int|
                    k <= j < n ==> !spec_charges_at(*(#[trigger] self.specs@[j]), key@),
            decreases k,
        {
            k = k - 1;
            let cnfg = self.specs[k];
            proof {
                lemma_last_charging_skip(self.specs@, key@, k as int);
            }
            let m = cnfg.activities.len();
            let mut hit = false;
            for i in 0..m
                invariant
                    m == cnfg.activities@.len(),
                    hit ==> spec_charges_at(*cnfg, key@),
                    !hit ==> forall|q: int| 0 <= q < i ==> cnfg.activities@[q]@ != key@,
            {
                if cnfg.activities[i] == *key {
                    proof {
                        assert(cnfg.activities@[i as int]@ == key@);
                    }
                    hit = true;
                }
            }
            if hit {
                proof {
                    lemma_last_charging_at(self.specs@, key@, k as int);
                }
                return Some(cnfg.spec());
            }
            proof {
                assert(!spec_charges_at(*self.specs@[k as int], key@));
            }
        }
        proof {
            lemma_last_charging_none(self.specs@, key@);
        }
        None
    }

    /// Every activity name of every spec, in declaration order, duplicates
    /// preserved.
    pub fn activities(&self) -> (r: Vec<&'a String>)
        ensures
            r@.len() == spec_flat_names(self.specs@, self.specs@.len() as int).len(),
            forall|k: int|
                0 <= k < r@.len() ==> *(#[trigger] r@[k]) == spec_flat_names(
                    self.specs@,
                    self.specs@.len() as int,
                )[k],
    {
        let mut out: Vec<&'a String> = Vec::new();
        let n = self.specs.len();
        for i in 0..n
            invariant
                n == self.specs@.len(),
                out@.len() == spec_flat_names(self.specs@, i as int).len(),
                forall|k: int|
                    0 <= k < out@.len() ==> *(#[trigger] out@[k]) == spec_flat_names(
                        self.specs@,
                        i as int,
                    )[k],
        {
            let cnfg = self.specs[i];
            let m = cnfg.activities.len();
            let ghost base = out@.len() as int;
            for q in 0..m
                invariant
                    i < self.specs@.len(),
                    m == self.specs@[i as int].activities@.len(),
                    cnfg == self.specs@[i as int],
                    base == spec_flat_names(self.specs@, i as int).len(),
                    out@.len() == base + q,
                    forall|k: int|
                        0 <= k < base ==> *(#[trigger] out@[k]) == spec_flat_names(
                            self.specs@,
                            i as int,
                        )[k],
                    forall|k: int|
                        base <= k < out@.len() ==> *(#[trigger] out@[k])
                            == self.specs@[i as int].activities@[k - base],
            {
                out.push(&cnfg.activities[q]);
            }
            proof {
                assert(spec_flat_names(self.specs@, i + 1) == spec_flat_names(self.specs@, i as int)
                    + self.specs@[i as int].activities@);
            }
        }
        out
    }
}



/// Nothing is chosen exactly when no spec charges at the key.
pub proof fn lemma_last_charging_none(specs: Seq<&ActivitySpec>, key: Seq<char>)
    ensures
        spec_last_charging(specs, key) is None <==> (forall|j: int|
            0 <= j < specs.len() ==> !spec_charges_at(*(#[trigger] specs[j]), key)),
    decreases specs.len(),
{
    if specs.len() > 0 {
        lemma_last_charging_none(specs.drop_last(), key);
        if !spec_charges_at(*specs.last(), key) {
            assert forall|j: int|
                0 <= j < specs.len() - 1 implies (spec_charges_at(*(#[trigger] specs[j]), key)
                <==> spec_charges_at(*specs.drop_last()[j], key)) by {
                assert(specs.drop_last()[j] == specs[j]);
            }
        }
    }
}

/// When nothing above `k` charges at the key but `k` does, `k` is the last.
proof fn lemma_last_charging_at(specs: Seq<&ActivitySpec>, key: Seq<char>, k: int)
    requires
        0 <= k < specs.len(),
        spec_charges_at(*specs[k], key),
        forall|j: int| k < j < specs.len() ==> !spec_charges_at(*(#[trigger] specs[j]), key),
    ensures
        spec_last_charging(specs, key) == Some(k),
    decreases specs.len(),
{
    if specs.len() > 0 {
        if k == specs.len() - 1 {
        } else {
            assert(!spec_charges_at(*specs.last(), key));
            assert(specs.drop_last()[k] == specs[k]);
            assert forall|j: int|
                k < j < specs.drop_last().len() implies !spec_charges_at(
                *(#[trigger] specs.drop_last()[j]),
                key,
            ) by {
                assert(specs.drop_last()[j] == specs[j]);
            }
            lemma_last_charging_at(specs.drop_last(), key, k);
        }
    }
}

/// When nothing at or above `k` charges at the key, nothing does among the
/// whole list's tail either.
proof fn lemma_last_charging_skip(specs: Seq<&ActivitySpec>, key: Seq<char>, k: int)
    requires
        0 <= k < specs.len(),
        forall|j: int| k < j < specs.len() ==> !spec_charges_at(*(#[trigger] specs[j]), key),
    ensures
        !spec_charges_at(*specs[k], key) ==> spec_last_charging(specs, key)
            == spec_last_charging(specs.subrange(0, k), key),
    decreases specs.len() - k,
{
    if !spec_charges_at(*specs[k], key) {
        if k == specs.len() - 1 {
            assert(specs.drop_last() =~= specs.subrange(0, k));
        } else {
            assert forall|j: int|
                k + 1 < j < specs.len() implies !spec_charges_at(
                *(#[trigger] specs[j]),
                key,
            ) by {}
            lemma_last_charging_skip(specs, key, k + 1);
            assert(specs.subrange(0, k + 1).drop_last() =~= specs.subrange(0, k));
            assert(spec_last_charging(specs.subrange(0, k + 1), key) == spec_last_charging(
                specs.subrange(0, k),
                key,
            )) by {
                assert(specs.subrange(0, k + 1).last() == specs[k]);
            }
        }
    }
}

} // verus!
