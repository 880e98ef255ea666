//! Typed MATSim events read from XML tokens.
//!
//! Recognised events are `actstart`, `actend`, `entered link`, `left link`
//! and `vehicle leaves traffic`; anything else passes through untyped.
//! A missing attribute reads as empty; a missing time as zero; a present
//! but malformed time is an error.

use vstd::prelude::*;
use crate::xml::{XmlEvent, get_attribute, parse_time, spec_attr_of, spec_time_of};

verus! {

/// A time field could not be read as whole seconds.
#[derive(Debug, PartialEq, Eq, Structural, Clone, Copy)]
pub struct TimeParseError;

#[derive(Debug, PartialEq)]
pub struct ActStart {
    pub time: u32,
    pub person: String,
    pub act_type: String,
    pub lid: String,
}

#[derive(Debug, PartialEq)]
pub struct ActEnd {
    pub time: u32,
    pub person: String,
    pub act_type: String,
    pub lid: String,
}

#[derive(Debug, PartialEq)]
pub struct VehicleLeavesTraffic {
    pub time: u32,
    pub vehicle: String,
    pub person: String,
    pub link: String,
    pub mode: String,
}

#[derive(Debug, PartialEq)]
pub struct EnteredLink {
    pub time: u32,
    pub vehicle: String,
    pub link: String,
}

#[derive(Debug, PartialEq)]
pub struct LeftLink {
    pub time: u32,
    pub vehicle: String,
    pub link: String,
}

#[derive(Debug, PartialEq)]
pub enum MATSimEvent {
    ActStart(ActStart),
    ActEnd(ActEnd),
    VehicleLeavesTraffic(VehicleLeavesTraffic),
    EnteredLink(EnteredLink),
    LeftLink(LeftLink),
    Eof,
    Other,
}

/// The view of an attribute, or empty when absent.
pub open spec fn spec_field(attrs: Seq<(String, String)>, key: Seq<char>) -> Seq<char> {
    match spec_attr_of(attrs, key) {
        Some(v) => v@,
        None => Seq::empty(),
    }
}

/// The seconds of the time attribute: zero when absent, and none at all
/// when present but malformed.
pub open spec fn spec_time_field(attrs: Seq<(String, String)>) -> Option<int> {
    match spec_attr_of(attrs, "time"@) {
        None => Some(0),
        Some(v) => spec_time_of(v@),
    }
}

/// Read the time attribute, or fail when it is present but malformed.
fn read_time(attributes: &Vec<(String, String)>) -> (r: Result<u32, TimeParseError>)
    ensures
        match r {
            Ok(t) => spec_time_field(attributes@) == Some(t as int),
            Err(_) => spec_time_field(attributes@) is None,
        },
{
    match get_attribute(attributes, &String::from_str("time")) {
        None => Ok(0),
        Some(v) => match parse_time(v) {
            Some(t) => Ok(t),
            None => Err(TimeParseError),
        },
    }
}

/// Read an attribute, or empty when absent.
fn read_field(attributes: &Vec<(String, String)>, key: &str) -> (r: String)
    ensures
        r@ == spec_field(attributes@, key@),
{
    match get_attribute(attributes, &String::from_str(key)) {
        None => String::new(),
        Some(v) => v.clone(),
    }
}

impl MATSimEvent {
    /// Type an XML token as a MATSim event.  Only an empty `event` element
    /// with a recognised `type` becomes typed; the end of input becomes
    /// `Eof`; anything else is `Other`.
    pub fn from_raw_event(event: &XmlEvent) -> (r: Result<MATSimEvent, TimeParseError>)
        ensures
            match event {
                XmlEvent::Eof => r == Ok::<MATSimEvent, TimeParseError>(MATSimEvent::Eof),
                XmlEvent::Empty { name, attributes } => {
                    if name@ != "event"@ {
                        r == Ok::<MATSimEvent, TimeParseError>(MATSimEvent::Other)
                    } else {
                        let kind = spec_field(attributes@, "type"@);
                        if kind == "actstart"@ || kind == "actend"@ || kind == "entered link"@
                            || kind == "left link"@ || kind == "vehicle leaves traffic"@ {
                            match spec_time_field(attributes@) {
                                None => r is Err,
                                Some(t) => match r {
                                    Err(_) => false,
                                    Ok(ev) => spec_typed_ok(ev, attributes@, kind, t),
                                },
                            }
                        } else {
                            r == Ok::<MATSimEvent, TimeParseError>(MATSimEvent::Other)
                        }
                    }
                },
                _ => r == Ok::<MATSimEvent, TimeParseError>(MATSimEvent::Other),
            },
    {
        match event {
            XmlEvent::Eof => Ok(MATSimEvent::Eof),
            XmlEvent::Empty { name, attributes } => {
                if !(*name == String::from_str("event")) {
                    return Ok(MATSimEvent::Other);
                }
                let kind = read_field(attributes, "type");
                if kind == String::from_str("actstart") {
                    let time = match read_time(attributes) {
                        Ok(t) => t,
                        Err(e) => {
                            return Err(e);
                        },
                    };
                    Ok(
                        MATSimEvent::ActStart(
                            ActStart {
                                time,
                                person: read_field(attributes, "person"),
                                act_type: read_field(attributes, "actType"),
                                lid: read_field(attributes, "link"),
                            },
                        ),
                    )
                } else if kind == String::from_str("actend") {
                    let time = match read_time(attributes) {
                        Ok(t) => t,
                        Err(e) => {
                            return Err(e);
                        },
                    };
                    Ok(
                        MATSimEvent::ActEnd(
                            ActEnd {
                                time,
                                person: read_field(attributes, "person"),
                                act_type: read_field(attributes, "actType"),
                                lid: read_field(attributes, "link"),
                            },
                        ),
                    )
                } else if kind == String::from_str("entered link") {
                    let time = match read_time(attributes) {
                        Ok(t) => t,
                        Err(e) => {
                            return Err(e);
                        },
                    };
                    Ok(
                        MATSimEvent::EnteredLink(
                            EnteredLink {
                                time,
                                vehicle: read_field(attributes, "vehicle"),
                                link: read_field(attributes, "link"),
                            },
                        ),
                    )
                } else if kind == String::from_str("left link") {
                    let time = match read_time(attributes) {
                        Ok(t) => t,
                        Err(e) => {
                            return Err(e);
                        },
                    };
                    Ok(
                        MATSimEvent::LeftLink(
                            LeftLink {
                                time,
                                vehicle: read_field(attributes, "vehicle"),
                                link: read_field(attributes, "link"),
                            },
                        ),
                    )
                } else if kind == String::from_str("vehicle leaves traffic") {
                    let time = match read_time(attributes) {
                        Ok(t) => t,
                        Err(e) => {
                            return Err(e);
                        },
                    };
                    Ok(
                        MATSimEvent::VehicleLeavesTraffic(
                            VehicleLeavesTraffic {
                                time,
                                vehicle: read_field(attributes, "vehicle"),
                                person: read_field(attributes, "person"),
                                link: read_field(attributes, "link"),
                                mode: read_field(attributes, "networkMode"),
                            },
                        ),
                    )
                } else {
                    Ok(MATSimEvent::Other)
                }
            },
            _ => Ok(MATSimEvent::Other),
        }
    }
}

/// What a typed event holds: the parsed time and the named fields.
pub open spec fn spec_typed_ok(
    ev: MATSimEvent,
    attrs: Seq<(String, String)>,
    kind: Seq<char>,
    t: int,
) -> bool {
    if kind == "actstart"@ {
        ev matches MATSimEvent::ActStart(a) && a.time as int == t && a.person@ == spec_field(
            attrs,
            "person"@,
        ) && a.act_type@ == spec_field(attrs, "actType"@) && a.lid@ == spec_field(attrs, "link"@)
    } else if kind == "actend"@ {
        ev matches MATSimEvent::ActEnd(a) && a.time as int == t && a.person@ == spec_field(
            attrs,
            "person"@,
        ) && a.act_type@ == spec_field(attrs, "actType"@) && a.lid@ == spec_field(attrs, "link"@)
    } else if kind == "entered link"@ {
        ev matches MATSimEvent::EnteredLink(a) && a.time as int == t && a.vehicle@ == spec_field(
            attrs,
            "vehicle"@,
        ) && a.link@ == spec_field(attrs, "link"@)
    } else if kind == "left link"@ {
        ev matches MATSimEvent::LeftLink(a) && a.time as int == t && a.vehicle@ == spec_field(
            attrs,
            "vehicle"@,
        ) && a.link@ == spec_field(attrs, "link"@)
    } else if kind == "vehicle leaves traffic"@ {
        ev matches MATSimEvent::VehicleLeavesTraffic(a) && a.time as int == t && a.vehicle@
            == spec_field(attrs, "vehicle"@) && a.person@ == spec_field(attrs, "person"@) && a.link@
            == spec_field(attrs, "link"@) && a.mode@ == spec_field(attrs, "networkMode"@)
    } else {
        false
    }
}

} // verus!
