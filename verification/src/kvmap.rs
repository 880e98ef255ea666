//! A string-keyed map backed by a vector.
//!
//! Keys are unique and insertion order is preserved.  The view of a map is a
//! mathematical `Map<Seq<char>, V>`, which the method contracts speak of.

use vstd::prelude::*;

verus! {

#[derive(Debug)]
pub struct KvMap<V> {

    pub entries: Vec<(String, V)>,
}

impl<V> KvMap<V> {
    /// No two entries share a key.
    pub open spec fn wf(self) -> bool {
        forall|i: int, j: int|
            0 <= i < j < self.entries@.len() ==> self.entries@[i].0@ != self.entries@[j].0@
    }

    /// The index holding `k`, if any.
    pub open spec fn spec_index_of(self, k: Seq<char>) -> int {
        choose|i: int| 0 <= i < self.entries@.len() && self.entries@[i].0@ == k
    }

    pub open spec fn spec_contains(self, k: Seq<char>) -> bool {
        exists|i: int| 0 <= i < self.entries@.len() && self.entries@[i].0@ == k
    }

    pub open spec fn view(self) -> Map<Seq<char>, V> {
        Map::new(
            |k: Seq<char>| self.spec_contains(k),
            |k: Seq<char>| self.entries@[self.spec_index_of(k)].1,
        )
    }

    pub fn new() -> (r: KvMap<V>)
        ensures
            r.wf(),
            r@ == Map::<Seq<char>, V>::empty(),
            r.entries@.len() == 0,
    {
        let r = KvMap { entries: Vec::new() };
        proof {
            assert(r@ =~= Map::<Seq<char>, V>::empty());
        }
        r
    }

    pub fn len(&self) -> (r: usize)
        ensures
            r == self.entries@.len(),
    {
        self.entries.len()
    }

    /// The index holding key `k`, or the length if `k` is absent.
    fn index_of(&self, k: &String) -> (r: usize)
        requires
            self.wf(),
        ensures
            r <= self.entries@.len(),
            r < self.entries@.len() ==> self.entries@[r as int].0@ == k@ && self@.contains_key(
                k@,
            ) && self@[k@] == self.entries@[r as int].1,
            r == self.entries@.len() ==> !self@.contains_key(k@),
    {
        let n = self.entries.len();
        for i in 0..n
            invariant
                n == self.entries@.len(),
                self.wf(),
                forall|j: int| 0 <= j < i ==> self.entries@[j].0@ != k@,
        {
            if self.entries[i].0 == *k {
                return i;
            }
        }
        proof {
            assert(!self.spec_contains(k@));
        }
        n
    }

    pub fn contains_key(&self, k: &String) -> (r: bool)
        requires
            self.wf(),
        ensures
            r == self@.contains_key(k@),
    {
        let i = self.index_of(k);
        i < self.entries.len()
    }

    pub fn get(&self, k: &String) -> (r: Option<&V>)
        requires
            self.wf(),
        ensures
            match r {
                Some(v) => self@.contains_key(k@) && *v == self@[k@],
                None => !self@.contains_key(k@),
            },
    {
        let i = self.index_of(k);
        if i < self.entries.len() {
            Some(&self.entries[i].1)
        } else {
            None
        }
    }

    /// Insert `v` under `k`, replacing any existing value.
    pub fn insert(&mut self, k: String, v: V)
        requires
            old(self).wf(),
        ensures
            final(self).wf(),
            final(self)@ == old(self)@.insert(k@, v),
    {
        let i = self.index_of(&k);
        if i < self.entries.len() {
            self.entries[i].1 = v;
            proof {
                assert forall|q: Seq<char>| #[trigger] self@.contains_key(q) implies old(
                    self,
                )@.insert(k@, v).contains_key(q) by {
                    let w = choose|w: int|
                        0 <= w < self.entries@.len() && self.entries@[w].0@ == q;
                    assert(old(self).entries@[w].0@ == q);
                }
                assert forall|q: Seq<char>| #[trigger] old(self)@.insert(k@, v).contains_key(
                    q,
                ) implies self@.contains_key(q) && self@[q] == old(self)@.insert(k@, v)[q] by {
                    if q == k@ {
                        assert(self.entries@[i as int].0@ == q);
                        let w = self.spec_index_of(q);
                        assert(self.entries@[w].0@ == q);
                        assert(w == i);
                    } else {
                        let w = choose|w: int|
                            0 <= w < old(self).entries@.len() && old(self).entries@[w].0@ == q;
                        assert(self.entries@[w].0@ == q);
                        let u = self.spec_index_of(q);
                        assert(self.entries@[u].0@ == q);
                        assert(old(self).entries@[u].0@ == q);
                        assert(old(self).spec_index_of(q) == u);
                    }
                }
                assert(self@ =~= old(self)@.insert(k@, v));
            }
        } else {
            let ghost pre = self.entries@;
            self.entries.push((k, v));
            proof {
                assert forall|q: Seq<char>| #[trigger] self@.contains_key(q) implies old(
                    self,
                )@.insert(k@, v).contains_key(q) by {
                    let w = choose|w: int|
                        0 <= w < self.entries@.len() && self.entries@[w].0@ == q;
                    if w < pre.len() {
                        assert(old(self).entries@[w].0@ == q);
                    }
                }
                assert forall|q: Seq<char>| #[trigger] old(self)@.insert(k@, v).contains_key(
                    q,
                ) implies self@.contains_key(q) && self@[q] == old(self)@.insert(k@, v)[q] by {
                    if q == k@ {
                        assert(self.entries@[pre.len() as int].0@ == q);
                        let u = self.spec_index_of(q);
                        assert(self.entries@[u].0@ == q);
                        assert(u == pre.len());
                    } else {
                        let w = choose|w: int|
                            0 <= w < old(self).entries@.len() && old(self).entries@[w].0@ == q;
                        assert(self.entries@[w].0@ == q);
                        let u = self.spec_index_of(q);
                        assert(self.entries@[u].0@ == q);
                        assert(u < pre.len());
                        assert(old(self).entries@[u].0@ == q);
                        assert(old(self).spec_index_of(q) == u);
                    }
                }
                assert(self@ =~= old(self)@.insert(k@, v));
            }
        }
    }

    /// Remove the entry under `k`, returning its value.
    pub fn remove(&mut self, k: &String) -> (r: Option<V>)
        requires
            old(self).wf(),
        ensures
            final(self).wf(),
            final(self)@ == old(self)@.remove(k@),
            match r {
                Some(v) => old(self)@.contains_key(k@) && v == old(self)@[k@],
                None => !old(self)@.contains_key(k@),
            },
    {
        let i = self.index_of(k);
        if i < self.entries.len() {
            let (_, v) = self.entries.remove(i);
            proof {
                let pre = old(self).entries@;
                assert(self.entries@ =~= pre.subrange(0, i as int) + pre.subrange(
                    i as int + 1,
                    pre.len() as int,
                ));
                assert forall|q: Seq<char>| #[trigger] self@.contains_key(q) implies old(
                    self,
                )@.remove(k@).contains_key(q) by {
                    let w = choose|w: int|
                        0 <= w < self.entries@.len() && self.entries@[w].0@ == q;
                    if w < i {
                        assert(pre[w].0@ == q);
                    } else {
                        assert(pre[w + 1].0@ == q);
                    }
                }
                assert forall|q: Seq<char>| #[trigger] old(self)@.remove(k@).contains_key(
                    q,
                ) implies self@.contains_key(q) && self@[q] == old(self)@.remove(k@)[q] by {
                    let w = choose|w: int|
                        0 <= w < old(self).entries@.len() && old(self).entries@[w].0@ == q;
                    if w < i {
                        assert(self.entries@[w].0@ == q);
                    } else {
                        assert(w > i);
                        assert(self.entries@[w - 1].0@ == q);
                    }
                    let u = self.spec_index_of(q);
                    assert(self.entries@[u].0@ == q);
                    if u < i {
                        assert(pre[u].0@ == q);
                        assert(old(self).spec_index_of(q) == u);
                    } else {
                        assert(pre[u + 1].0@ == q);
                        assert(old(self).spec_index_of(q) == u + 1);
                    }
                }
                assert(self@ =~= old(self)@.remove(k@));
            }
            Some(v)
        } else {
            proof {
                assert(self@ =~= old(self)@.remove(k@));
            }
            None
        }
    }

    pub fn key_at(&self, i: usize) -> (r: &String)
        requires
            i < self.entries@.len(),
        ensures
            r@ == self.entries@[i as int].0@,
    {
        &self.entries[i].0
    }

    pub fn val_at(&self, i: usize) -> (r: &V)
        requires
            i < self.entries@.len(),
        ensures
            *r == self.entries@[i as int].1,
    {
        &self.entries[i].1
    }
}


impl<V> KvMap<V> {
    /// Each entry is visible in the view under its own key.
    pub proof fn lemma_entry_view(self, i: int)
        requires
            self.wf(),
            0 <= i < self.entries@.len(),
        ensures
            self@.contains_key(self.entries@[i].0@),
            self@[self.entries@[i].0@] == self.entries@[i].1,
    {
        let k = self.entries@[i].0@;
        assert(self.spec_contains(k));
        let u = self.spec_index_of(k);
        assert(self.entries@[u].0@ == k);
        if u != i {
            if u < i {
                assert(self.entries@[u].0@ != self.entries@[i].0@);
            } else {
                assert(self.entries@[i].0@ != self.entries@[u].0@);
            }
        }
    }
}

} // verus!
