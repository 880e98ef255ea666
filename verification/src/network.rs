//! The road network: link id to length and end-node coordinate.
//!
//! Built once from XML tokens: nodes carry an id and a coordinate, links an
//! id, a length and their `to` node.  Lengths are millimetres and
//! coordinates milli-units.  A link naming an unknown node, or a numeric
//! field that does not parse, is a malformed network.

use vstd::prelude::*;
use crate::kvmap::KvMap;
use crate::trace::Node;
use crate::xml::{XmlEvent, get_attribute, parse_milli, spec_attr_of, spec_milli_of};

verus! {

/// A numeric field did not parse, a link named an unknown node, or a
/// required field was missing.
#[derive(Debug, PartialEq, Eq, Structural, Clone, Copy)]
pub struct MalformedNetwork;

/// Link id to `(length, end-node coordinate)`.
pub struct Network {
    pub links: KvMap<(i64, Node)>,
}

/// Accumulates nodes, then resolves links against them.
pub struct NetworkBuilder {
    pub nodes: KvMap<Node>,
    pub links: KvMap<(i64, Node)>,
}

/// The parse of a coordinate or length attribute: present and a decimal.
pub open spec fn spec_num_attr(attrs: Seq<(String, String)>, key: Seq<char>) -> Option<int> {
    match spec_attr_of(attrs, key) {
        None => None,
        Some(v) => spec_milli_of(v@),
    }
}

/// The id attribute's view, or empty when absent.
pub open spec fn spec_id_attr(attrs: Seq<(String, String)>, key: Seq<char>) -> Seq<char> {
    match spec_attr_of(attrs, key) {
        None => Seq::empty(),
        Some(v) => v@,
    }
}

impl NetworkBuilder {
    pub fn new() -> (r: NetworkBuilder)
        ensures
            r.nodes.wf(),
            r.links.wf(),
            r.nodes@ == Map::<Seq<char>, Node>::empty(),
            r.links@ == Map::<Seq<char>, (i64, Node)>::empty(),
    {
        NetworkBuilder { nodes: KvMap::new(), links: KvMap::new() }
    }

    /// Fold one token in.  A `node` element records its coordinate; a
    /// `link` element records its length and its `to` node's coordinate;
    /// everything else is ignored.
    pub fn process(&mut self, event: &XmlEvent) -> (r: Result<(), MalformedNetwork>)
        requires
            old(self).nodes.wf(),
            old(self).links.wf(),
        ensures
            final(self).nodes.wf(),
            final(self).links.wf(),
            ({
                let (name, attrs) = match event {
                    XmlEvent::Start { name, attributes } => (name@, Some(attributes@)),
                    XmlEvent::Empty { name, attributes } => (name@, Some(attributes@)),
                    _ => (Seq::empty(), None),
                };
                match attrs {
                    None => r is Ok && *final(self) == *old(self),
                    Some(attrs) => {
                        if name == "node"@ {
                            match (spec_num_attr(attrs, "x"@), spec_num_attr(attrs, "y"@)) {
                                (Some(x), Some(y)) => r is Ok && final(self).nodes@ == old(
                                    self,
                                ).nodes@.insert(
                                    spec_id_attr(attrs, "id"@),
                                    (x as i64, y as i64),
                                ) && final(self).links == old(self).links,
                                _ => r is Err && *final(self) == *old(self),
                            }
                        } else if name == "link"@ {
                            match (
                                spec_num_attr(attrs, "length"@),
                                old(self).nodes@.contains_key(spec_id_attr(attrs, "to"@)),
                            ) {
                                (Some(len), true) => r is Ok && final(self).links@ == old(
                                    self,
                                ).links@.insert(
                                    spec_id_attr(attrs, "id"@),
                                    (
                                        len as i64,
                                        old(self).nodes@[spec_id_attr(attrs, "to"@)],
                                    ),
                                ) && final(self).nodes == old(self).nodes,
                                _ => r is Err && *final(self) == *old(self),
                            }
                        } else {
                            r is Ok && *final(self) == *old(self)
                        }
                    },
                }
            }),
    {
        let (name, attributes) = match event {
            XmlEvent::Start { name, attributes } => (name, attributes),
            XmlEvent::Empty { name, attributes } => (name, attributes),
            _ => {
                return Ok(());
            },
        };
        if *name == String::from_str("node") {
            let x = match get_attribute(attributes, &String::from_str("x")) {
                Some(v) => match parse_milli(v) {
                    Some(x) => x,
                    None => {
                        return Err(MalformedNetwork);
                    },
                },
                None => {
                    return Err(MalformedNetwork);
                },
            };
            let y = match get_attribute(attributes, &String::from_str("y")) {
                Some(v) => match parse_milli(v) {
                    Some(y) => y,
                    None => {
                        return Err(MalformedNetwork);
                    },
                },
                None => {
                    return Err(MalformedNetwork);
                },
            };
            let nid = match get_attribute(attributes, &String::from_str("id")) {
                Some(v) => v.clone(),
                None => String::new(),
            };
            self.nodes.insert(nid, (x, y));
            Ok(())
        } else if *name == String::from_str("link") {
            let length = match get_attribute(attributes, &String::from_str("length")) {
                Some(v) => match parse_milli(v) {
                    Some(l) => l,
                    None => {
                        return Err(MalformedNetwork);
                    },
                },
                None => {
                    return Err(MalformedNetwork);
                },
            };
            let to = match get_attribute(attributes, &String::from_str("to")) {
                Some(v) => v.clone(),
                None => String::new(),
            };
            let node = match self.nodes.get(&to) {
                Some(n) => (n.0, n.1),
                None => {
                    return Err(MalformedNetwork);
                },
            };
            let lid = match get_attribute(attributes, &String::from_str("id")) {
                Some(v) => v.clone(),
                None => String::new(),
            };
            self.links.insert(lid, (length, node));
            Ok(())
        } else {
            Ok(())
        }
    }

    /// The finished network.
    pub fn build(self) -> (r: Network)
        ensures
            r.links == self.links,
    {
        Network { links: self.links }
    }
}

impl Network {
    /// The length and end node of a link.
    pub fn get_link(&self, lid: &String) -> (r: Option<&(i64, Node)>)
        requires
            self.links.wf(),
        ensures
            match r {
                Some(v) => self.links@.contains_key(lid@) && *v == self.links@[lid@],
                None => !self.links@.contains_key(lid@),
            },
    {
        self.links.get(lid)
    }

    pub fn len(&self) -> (r: usize)
        ensures
            r == self.links.entries@.len(),
    {
        self.links.len()
    }
}

} // verus!
