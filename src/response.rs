//! The parts of an RDAP response that the structural checks read.

use vstd::prelude::*;

verus! {

/// The media type of RDAP responses.
pub open spec fn rdap_media_type() -> Seq<char> {
    seq!['a', 'p', 'p', 'l', 'i', 'c', 'a', 't', 'i', 'o', 'n', '/', 'r', 'd', 'a', 'p', '+', 'j', 's', 'o', 'n']
}

/// A link object.
pub struct Link {
    pub value: Option<String>,
    pub rel: Option<String>,
    pub href: Option<String>,
    pub hreflang: Option<Vec<String>>,
    pub title: Option<String>,
    pub media: Option<String>,
    pub media_type: Option<String>,
}

/// A description: one string, or a list of them as RFC 9083 asks.
pub enum StringOrStringArray {
    One(String),
    Many(Vec<String>),
}

/// The body of a notice or a remark.
pub struct NoticeOrRemark {
    pub title: Option<String>,
    pub description: Option<StringOrStringArray>,
    pub links: Option<Vec<Link>>,
}

pub struct Notice(pub NoticeOrRemark);

pub struct Remark(pub NoticeOrRemark);

/// An event in the life of an object.
pub struct Event {
    pub event_action: Option<String>,
    pub event_date: Option<String>,
    pub event_actor: Option<String>,
    pub links: Option<Vec<Link>>,
}

/// A public identifier.
pub struct PublicId {
    pub id_type: Option<String>,
    pub identifier: Option<String>,
}

/// An identifier of an RDAP extension.
pub struct Extension(pub String);

/// A status value.
pub struct StatusValue(pub String);

/// The members that every response has.
pub struct Common {
    pub rdap_conformance: Option<Vec<Extension>>,
    pub notices: Option<Vec<Notice>>,
}

/// The members that every object class has.
pub struct ObjectCommon {
    pub object_class_name: String,
    pub handle: Option<String>,
    pub remarks: Option<Vec<Remark>>,
    pub links: Option<Vec<Link>>,
    pub events: Option<Vec<Event>>,
    pub status: Option<Vec<StatusValue>>,
    pub port_43: Option<String>,
}

pub struct Domain {
    pub common: Common,
    pub object_common: ObjectCommon,
    pub ldh_name: Option<String>,
    pub public_ids: Option<Vec<PublicId>>,
}

pub struct Nameserver {
    pub common: Common,
    pub object_common: ObjectCommon,
    pub ldh_name: Option<String>,
}

/// A help response.
pub struct Help {
    pub common: Common,
}

/// A response, by the object class at its top.
pub enum RdapResponse {
    Domain(Domain),
    Nameserver(Nameserver),
    Help(Help),
}

} // verus!
