//! Peeking at plan attributes: collect, per attribute name, a bounded set
//! of distinct values, skipping anything inside a plan.

use vstd::prelude::*;
use crate::kvmap::KvMap;
use crate::population::{lex_lt, str_lt, lemma_lex_lt_irrefl, lemma_lex_lt_trans, lemma_lex_lt_connected};
use crate::xml::{XmlEvent, get_attribute};

verus! {

#[derive(Debug, PartialEq, Eq, Structural, Clone, Copy)]
pub enum PeekerState {
    Peeking,
    Full,
}

/// A bounded set of distinct values: remembers at most `max` of them in
/// order, and marks itself full once one arrives that it cannot keep.
#[derive(Debug)]
pub struct PeekSet {
    pub max: usize,
    pub state: PeekerState,
    pub memory: Vec<String>,
}

impl PeekSet {
    /// The memory is sorted and free of duplicates.
    pub open spec fn wf(self) -> bool {
        forall|i: int, j: int|
            #![trigger self.memory@[i], self.memory@[j]]
            0 <= i < j < self.memory@.len() ==> lex_lt(self.memory@[i]@, self.memory@[j]@)
    }

    pub open spec fn spec_contains(self, k: Seq<char>) -> bool {
        exists|i: int| 0 <= i < self.memory@.len() && self.memory@[i]@ == k
    }

    pub fn new(max: usize) -> (r: PeekSet)
        ensures
            r.max == max,
            r.state == PeekerState::Peeking,
            r.memory@.len() == 0,
            r.wf(),
    {
        PeekSet { max, state: PeekerState::Peeking, memory: Vec::new() }
    }

    /// Remember a value: once full, nothing more is kept; while peeking
    /// with room, the value joins the set; a value arriving without room
    /// marks the set full.
    pub fn insert(&mut self, k: String)
        requires
            old(self).wf(),
        ensures
            final(self).wf(),
            final(self).max == old(self).max,
            final(self).memory@.len() <= old(self).memory@.len() + 1,
            old(self).memory@.len() <= old(self).max ==> final(self).memory@.len()
                <= final(self).max,
            match old(self).state {
                PeekerState::Full => *final(self) == *old(self),
                PeekerState::Peeking => {
                    if old(self).memory@.len() < old(self).max {
                        &&& final(self).state == PeekerState::Peeking
                        &&& final(self).spec_contains(k@)
                        &&& (forall|q: Seq<char>|
                            final(self).spec_contains(q) <==> (old(self).spec_contains(q) || q
                                == k@))
                    } else {
                        final(self).state == PeekerState::Full && final(self).memory@ == old(
                            self,
                        ).memory@
                    }
                },
            },
    {
        match self.state {
            PeekerState::Full => {},
            PeekerState::Peeking => {
                if self.memory.len() < self.max {
                    self.sorted_insert(k);
                } else {
                    self.state = PeekerState::Full;
                }
            },
        }
    }

    /// The position of `k`, or of the first value above it.
    fn lower_bound_mem(&self, k: &String) -> (r: usize)
        requires
            self.wf(),
        ensures
            r <= self.memory@.len(),
            forall|j: int| 0 <= j < r ==> lex_lt(#[trigger] self.memory@[j]@, k@),
            forall|j: int|
                r <= j < self.memory@.len() ==> !lex_lt(#[trigger] self.memory@[j]@, k@),
    {
        let n = self.memory.len();
        for i in 0..n
            invariant
                n == self.memory@.len(),
                self.wf(),
                forall|j: int| 0 <= j < i ==> lex_lt(#[trigger] self.memory@[j]@, k@),
        {
            if !str_lt(&self.memory[i], k) {
                proof {
                    assert forall|j: int|
                        i <= j < self.memory@.len() implies !lex_lt(
                        #[trigger] self.memory@[j]@,
                        k@,
                    ) by {
                        if j > i && lex_lt(self.memory@[j]@, k@) {
                            lemma_lex_lt_trans(
                                self.memory@[i as int]@,
                                self.memory@[j]@,
                                k@,
                            );
                        }
                    }
                }
                return i;
            }
        }
        n
    }

    /// Insert into the sorted memory, ignoring a value already there.
    fn sorted_insert(&mut self, k: String)
        requires
            old(self).wf(),
        ensures
            final(self).wf(),
            final(self).max == old(self).max,
            final(self).state == old(self).state,
            final(self).spec_contains(k@),
            forall|q: Seq<char>|
                final(self).spec_contains(q) <==> (old(self).spec_contains(q) || q == k@),
            final(self).memory@.len() <= old(self).memory@.len() + 1,
    {
        let i = self.lower_bound_mem(&k);
        if i < self.memory.len() && self.memory[i] == k {
            proof {
                assert(self.memory@[i as int]@ == k@);
            }
            return ;
        }
        proof {
            if i < self.memory@.len() {
                lemma_lex_lt_connected(self.memory@[i as int]@, k@);
            }
            assert forall|j: int|
                0 <= j < self.memory@.len() implies self.memory@[j]@ != k@ by {
                if j < i {
                    lemma_lex_lt_irrefl(self.memory@[j]@, k@);
                } else if i < self.memory@.len() && j > i {
                    lemma_lex_lt_trans(k@, self.memory@[i as int]@, self.memory@[j]@);
                    lemma_lex_lt_irrefl(k@, self.memory@[j]@);
                } else if i < self.memory@.len() && j == i {
                } else {
                    lemma_lex_lt_irrefl(self.memory@[j]@, k@);
                }
            }
        }
        let ghost pre = self.memory@;
        let ghost gi = i as int;
        let ghost gk = k;
        self.memory.insert(i, k);
        proof {
            assert forall|a: int, b: int|
                #![trigger self.memory@[a], self.memory@[b]]
                0 <= a < b < self.memory@.len() implies lex_lt(
                self.memory@[a]@,
                self.memory@[b]@,
            ) by {
                if a < gi && b == gi {
                } else if a == gi && b > gi {
                    assert(self.memory@[b] == pre[b - 1]);
                    if b - 1 == gi {
                        assert(!lex_lt(pre[gi]@, gk@));
                        assert(pre[gi]@ != gk@);
                        lemma_lex_lt_connected(pre[gi]@, gk@);
                    } else {
                        assert(!lex_lt(pre[gi]@, gk@));
                        assert(pre[gi]@ != gk@);
                        lemma_lex_lt_connected(pre[gi]@, gk@);
                        lemma_lex_lt_trans(gk@, pre[gi]@, pre[b - 1]@);
                    }
                } else if a < gi && b > gi {
                    assert(self.memory@[a] == pre[a]);
                    assert(self.memory@[b] == pre[b - 1]);
                    if a == b - 1 {
                        assert(lex_lt(pre[a]@, gk@));
                        assert(!lex_lt(pre[b - 1]@, gk@));
                        assert(false);
                    }
                } else if a > gi && b > gi {
                    assert(self.memory@[a] == pre[a - 1]);
                    assert(self.memory@[b] == pre[b - 1]);
                } else {
                }
            }
            assert(self.memory@[gi]@ == gk@);
            assert forall|q: Seq<char>|
                self.spec_contains(q) <==> (old(self).spec_contains(q) || q == gk@) by {
                if self.spec_contains(q) {
                    let w = choose|w: int|
                        0 <= w < self.memory@.len() && self.memory@[w]@ == q;
                    if w < gi {
                        assert(pre[w]@ == q);
                    } else if w > gi {
                        assert(pre[w - 1]@ == q);
                    }
                }
                if old(self).spec_contains(q) {
                    let w = choose|w: int| 0 <= w < pre.len() && pre[w]@ == q;
                    if w < gi {
                        assert(self.memory@[w]@ == q);
                    } else {
                        assert(self.memory@[w + 1]@ == q);
                    }
                }
            }
        }
    }
}

/// Two peek sets are the same when they remember the same values.
impl PartialEq for PeekSet {
    fn eq(&self, other: &PeekSet) -> (r: bool) {
        if self.memory.len() != other.memory.len() {
            return false;
        }
        let n = self.memory.len();
        for i in 0..n
            invariant
                n == self.memory@.len(),
                n == other.memory@.len(),
                forall|j: int| 0 <= j < i ==> self.memory@[j]@ == other.memory@[j]@,
        {
            if !(self.memory[i] == other.memory[i]) {
                return false;
            }
        }
        true
    }
}

impl vstd::std_specs::cmp::PartialEqSpecImpl for PeekSet {
    open spec fn obeys_eq_spec() -> bool {
        true
    }

    open spec fn eq_spec(&self, other: &PeekSet) -> bool {
        self.memory@.len() == other.memory@.len() && (forall|j: int|
            0 <= j < self.memory@.len() ==> (#[trigger] self.memory@[j])@ == other.memory@[j]@)
    }
}


/// How the remembered set under a key relates to the one before (or to a
/// fresh bounded set, when the key is new) after taking in one value.
pub open spec fn spec_peek_step(
    pre: Option<PeekSet>,
    post: PeekSet,
    content: String,
    max: usize,
) -> bool {
    match pre {
        Some(s0) => {
            &&& post.max == s0.max
            &&& match s0.state {
                PeekerState::Full => post == s0,
                PeekerState::Peeking => {
                    if s0.memory@.len() < s0.max {
                        &&& post.state == PeekerState::Peeking
                        &&& post.spec_contains(content@)
                        &&& (forall|q: Seq<char>|
                            post.spec_contains(q) <==> (s0.spec_contains(q) || q == content@))
                    } else {
                        post.state == PeekerState::Full && post.memory@ == s0.memory@
                    }
                },
            }
        },
        None => {
            &&& post.max == max
            &&& (if max > 0 {
                post.state == PeekerState::Peeking && (forall|q: Seq<char>|
                    post.spec_contains(q) <==> q == content@)
            } else {
                post.state == PeekerState::Full && post.memory@.len() == 0
            })
        },
    }
}


/// The remembered set under a key, when there is one.
pub open spec fn spec_peek_lookup(m: Map<Seq<char>, PeekSet>, key: Seq<char>) -> Option<PeekSet> {
    if m.contains_key(key) {
        Some(m[key])
    } else {
        None
    }
}

/// The state of the peeking parser.
#[derive(Debug, PartialEq)]
pub enum PeekAttributesParserState {
    Person,
    Plan,
    Attributes,
    Attribute { key: String },
}

/// Walks plan tokens, recording distinct values per attribute name, and
/// skipping attributes inside a plan.
#[derive(Debug)]
pub struct PeekAttributesParser {
    pub state: PeekAttributesParserState,
    pub max: usize,
}

impl PeekAttributesParser {
    pub fn new(max: usize) -> (r: PeekAttributesParser)
        ensures
            r.state == PeekAttributesParserState::Person,
            r.max == max,
    {
        PeekAttributesParser { state: PeekAttributesParserState::Person, max }
    }

    /// The tokens the parser can take: an `attribute` start must carry a
    /// name.
    pub open spec fn spec_event_ok(self, event: XmlEvent) -> bool {
        match event {
            XmlEvent::Start { name, attributes } => {
                if self.state is Attributes && name@ == "attribute"@ {
                    crate::xml::spec_attr_of(attributes@, "name"@) is Some
                } else {
                    true
                }
            },
            _ => true,
        }
    }

    /// Feed one token: move the state machine, and in an attribute record
    /// the text under the attribute's name.
    pub fn process(&mut self, event: &XmlEvent, attributes: &mut KvMap<PeekSet>)
        requires
            old(attributes).wf(),
            old(self).spec_event_ok(*event),
            forall|q: Seq<char>|
                old(attributes)@.contains_key(q) ==> (#[trigger] old(attributes)@[q]).wf(),
        ensures
            final(attributes).wf(),
            final(self).max == old(self).max,
            forall|q: Seq<char>|
                final(attributes)@.contains_key(q) ==> (#[trigger] final(attributes)@[q]).wf(),
            ({
                match old(self).state {
                    PeekAttributesParserState::Person => {
                        &&& *final(attributes) == *old(attributes)
                        &&& match event {
                            XmlEvent::Start { name, attributes: _ } => {
                                if name@ == "attributes"@ {
                                    final(self).state is Attributes
                                } else if name@ == "plan"@ {
                                    final(self).state is Plan
                                } else {
                                    final(self).state is Person
                                }
                            },
                            _ => final(self).state is Person,
                        }
                    },
                    PeekAttributesParserState::Plan => {
                        &&& *final(attributes) == *old(attributes)
                        &&& match event {
                            XmlEvent::End { name } => {
                                if name@ == "plan"@ {
                                    final(self).state is Person
                                } else {
                                    final(self).state is Plan
                                }
                            },
                            _ => final(self).state is Plan,
                        }
                    },
                    PeekAttributesParserState::Attributes => {
                        &&& *final(attributes) == *old(attributes)
                        &&& match event {
                            XmlEvent::Start { name, attributes: attrs } => {
                                if name@ == "attribute"@ {
                                    final(self).state matches PeekAttributesParserState::Attribute {
                                        key,
                                    } && Some(key@) == crate::population::spec_attr_view(
                                        attrs@,
                                        "name"@,
                                    )
                                } else {
                                    final(self).state is Attributes
                                }
                            },
                            XmlEvent::End { name } => {
                                if name@ == "attributes"@ {
                                    final(self).state is Person
                                } else {
                                    final(self).state is Attributes
                                }
                            },
                            _ => final(self).state is Attributes,
                        }
                    },
                    PeekAttributesParserState::Attribute { key } => {
                        match event {
                            XmlEvent::Text { content } => {
                                &&& final(self).state is Attributes
                                &&& exists|s2: PeekSet|
                                    #![trigger spec_peek_step(
                                        spec_peek_lookup(old(attributes)@, key@),
                                        s2,
                                        *content,
                                        old(self).max,
                                    )]
                                    final(attributes)@ == old(attributes)@.insert(key@, s2)
                                        && s2.wf() && spec_peek_step(
                                        spec_peek_lookup(old(attributes)@, key@),
                                        s2,
                                        *content,
                                        old(self).max,
                                    )
                            },
                            _ => final(self).state is Attributes && *final(attributes) == *old(
                                attributes,
                            ),
                        }
                    },
                }
            }),
    {
        let next = match &self.state {
            PeekAttributesParserState::Person => {
                match event {
                    XmlEvent::Start { name, attributes: _ } => {
                        if *name == String::from_str("attributes") {
                            PeekAttributesParserState::Attributes
                        } else if *name == String::from_str("plan") {
                            PeekAttributesParserState::Plan
                        } else {
                            PeekAttributesParserState::Person
                        }
                    },
                    _ => PeekAttributesParserState::Person,
                }
            },
            PeekAttributesParserState::Plan => {
                match event {
                    XmlEvent::End { name } => {
                        if *name == String::from_str("plan") {
                            PeekAttributesParserState::Person
                        } else {
                            PeekAttributesParserState::Plan
                        }
                    },
                    _ => PeekAttributesParserState::Plan,
                }
            },
            PeekAttributesParserState::Attributes => {
                match event {
                    XmlEvent::Start { name, attributes: attrs } => {
                        if *name == String::from_str("attribute") {
                            let key = match get_attribute(attrs, &String::from_str("name")) {
                                Some(v) => v.clone(),
                                None => String::new(),
                            };
                            PeekAttributesParserState::Attribute { key }
                        } else {
                            PeekAttributesParserState::Attributes
                        }
                    },
                    XmlEvent::End { name } => {
                        if *name == String::from_str("attributes") {
                            PeekAttributesParserState::Person
                        } else {
                            PeekAttributesParserState::Attributes
                        }
                    },
                    _ => PeekAttributesParserState::Attributes,
                }
            },
            PeekAttributesParserState::Attribute { key } => {
                match event {
                    XmlEvent::Text { content } => {
                        let mut set = match attributes.remove(key) {
                            Some(s) => s,
                            None => PeekSet::new(self.max),
                        };
                        set.insert(content.clone());
                        let ghost s2 = set;
                        attributes.insert(key.clone(), set);
                        proof {
                            assert(attributes@ =~= old(attributes)@.insert(key@, s2));
                            assert(spec_peek_step(
                                spec_peek_lookup(old(attributes)@, key@),
                                s2,
                                *content,
                                old(self).max,
                            ));
                            assert forall|q: Seq<char>|
                                attributes@.contains_key(q) implies (
                            #[trigger] attributes@[q]).wf() by {
                                if q != key@ {
                                    assert(old(attributes)@.contains_key(q));
                                    assert(attributes@[q] == old(attributes)@[q]);
                                }
                            }
                        }
                        PeekAttributesParserState::Attributes
                    },
                    _ => PeekAttributesParserState::Attributes,
                }
            },
        };
        self.state = next;
    }
}

} // verus!
