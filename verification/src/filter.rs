//! Attribute filters: a filter matches a person when the attribute under its
//! key is one of its accepted values; a filter list is a conjunction.

use vstd::prelude::*;
use crate::kvmap::KvMap;

verus! {

/// Person attributes: attribute name to attribute value.
pub type PersonAttributes = KvMap<String>;

/// Holds a key and the accepted values for it.
#[derive(Debug, PartialEq, Clone)]
pub struct Filter {
    pub key: String,
    pub values: Vec<String>,
}

impl Filter {
    /// The filter matches when the attributes hold one of its values under its key.
    pub open spec fn spec_matches(self, attrs: Map<Seq<char>, String>) -> bool {
        attrs.contains_key(self.key@) && (exists|i: int|
            0 <= i < self.values@.len() && self.values@[i]@ == attrs[self.key@]@)
    }

    pub fn match_attributes(&self, attributes: &PersonAttributes) -> (r: bool)
        requires
            attributes.wf(),
        ensures
            r == self.spec_matches(attributes@),
    {
        match attributes.get(&self.key) {
            None => false,
            Some(attribute) => {
                let n = self.values.len();
                for i in 0..n
                    invariant
                        n == self.values@.len(),
                        attributes@.contains_key(self.key@),
                        attribute@ == attributes@[self.key@]@,
                        forall|j: int| 0 <= j < i ==> self.values@[j]@ != attribute@,
                {
                    if self.values[i] == *attribute {
                        proof {
                            assert(self.values@[i as int]@ == attributes@[self.key@]@);
                        }
                        return true;
                    }
                }
                false
            },
        }
    }
}

/// A conjunction of filters.
#[derive(Debug, PartialEq, Clone)]
pub struct Filters {
    pub list: Vec<Filter>,
}

impl Filters {
    /// All filters match.
    pub open spec fn spec_all_match(self, attrs: Map<Seq<char>, String>) -> bool {
        forall|i: int| 0 <= i < self.list@.len() ==> self.list@[i].spec_matches(attrs)
    }

    pub fn from_vec(filters: Vec<Filter>) -> (r: Filters)
        ensures
            r.list@ == filters@,
    {
        Filters { list: filters }
    }

    pub fn filter(&self, attributes: &PersonAttributes) -> (r: bool)
        requires
            attributes.wf(),
        ensures
            r == self.spec_all_match(attributes@),
    {
        let n = self.list.len();
        for i in 0..n
            invariant
                n == self.list@.len(),
                attributes.wf(),
                forall|j: int| 0 <= j < i ==> self.list@[j].spec_matches(attributes@),
        {
            if !self.list[i].match_attributes(attributes) {
                return false;
            }
        }
        true
    }
}

/// Whether an optional filter list passes: absent filters always pass.
pub open spec fn spec_filters_pass(f: Option<Filters>, attrs: Map<Seq<char>, String>) -> bool {
    match f {
        None => true,
        Some(fs) => fs.spec_all_match(attrs),
    }
}

/// Executable counterpart of [`spec_filters_pass`].
pub fn filters_pass(f: &Option<Filters>, attributes: &PersonAttributes) -> (r: bool)
    requires
        attributes.wf(),
    ensures
        r == spec_filters_pass(*f, attributes@),
{
    match f {
        None => true,
        Some(fs) => fs.filter(attributes),
    }
}

} // verus!
