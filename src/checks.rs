//! Structural checks of RDAP responses: which members are missing or malformed, arranged as
//! a tree that follows the response's own structure.

use vstd::prelude::*;
use crate::response::{
    rdap_media_type, Common, Domain, Event, Extension, Help, Link, Nameserver, Notice, NoticeOrRemark,
    ObjectCommon, PublicId, RdapResponse, Remark, StatusValue, StringOrStringArray,
};
use crate::text::{is_blank, is_whitespace_or_empty, str_eq, to_chars};

verus! {

/// A finding of the checks.
#[derive(Clone, Copy, Debug, PartialEq, Eq, Structural)]
pub enum Check {
    LinkMissingValueProperty,
    LinkMissingHrefProperty,
    LinkMissingRelProperty,
    LinkRelatedHasNoType,
    LinkRelatedIsNotRdap,
    LinkSelfHasNoType,
    LinkSelfIsNotRdap,
    LinkObjectClassHasNoSelf,
    NoticeOrRemarkDescriptionIsAbsent,
    NoticeOrRemarkDescriptionIsString,
    EventDateIsAbsent,
    EventDateIsNotRfc3339,
    EventActionIsAbsent,
    PublicIdTypeIsAbsent,
    PublicIdIdentifierIsAbsent,
    RdapConformanceMissing,
    RdapConformanceInvalidParent,
    HandleIsEmpty,
    StatusIsEmpty,
    Port43IsEmpty,
}

/// One finding, as it stands in a report.
#[derive(Clone, Copy, Debug, PartialEq, Eq, Structural)]
pub struct CheckItem {
    pub check: Check,
}

impl Check {
    pub fn check_item(self) -> (r: CheckItem)
        ensures
            r.check == self,
    {
        CheckItem { check: self }
    }
}

/// The part of a response that a node of the checks tree is about.
#[derive(Clone, Copy, Debug, PartialEq, Eq, Structural)]
pub enum RdapStructure {
    Domain,
    Nameserver,
    Help,
    Links,
    Link,
    Notices,
    Remarks,
    NoticeOrRemark,
    PublidIds,
    Events,
    RdapConformance,
    Handle,
    Status,
    Port43,
}

/// A node of the checks tree.
pub struct Checks {
    pub rdap_struct: RdapStructure,
    pub items: Vec<CheckItem>,
    pub sub_checks: Vec<Checks>,
}

/// The kind of the object that holds a structure, or of the response's top object.
#[derive(Clone, Copy, Debug, PartialEq, Eq, Structural)]
pub enum ObjectKind {
    Domain,
    Entity,
    Autnum,
    Network,
    Nameserver,
    NoticeOrRemark,
    Help,
}

/// The context of a check: whether to descend, the kind of the top object, and the kind of
/// the object that holds the structure under check.
#[derive(Clone, Copy, Debug, PartialEq, Eq, Structural)]
pub struct CheckParams {
    pub do_subchecks: bool,
    pub root: ObjectKind,
    pub parent_type: ObjectKind,
}

pub open spec fn with_parent(p: CheckParams, k: ObjectKind) -> CheckParams {
    CheckParams { parent_type: k, ..p }
}

impl CheckParams {
    /// The same context, for a structure held by an object of kind `parent`.
    pub fn from_parent(self, parent: ObjectKind) -> (r: CheckParams)
        ensures
            r == with_parent(self, parent),
    {
        CheckParams { parent_type: parent, ..self }
    }

    /// The context for checking a whole response.
    pub fn for_rdap(rdap: &RdapResponse) -> (r: CheckParams)
        ensures
            r.do_subchecks,
            r.root == kind_of(*rdap),
            r.parent_type == kind_of(*rdap),
    {
        let k = rdap.get_type();
        CheckParams { do_subchecks: true, root: k, parent_type: k }
    }
}

pub open spec fn kind_of(r: RdapResponse) -> ObjectKind {
    match r {
        RdapResponse::Domain(_) => ObjectKind::Domain,
        RdapResponse::Nameserver(_) => ObjectKind::Nameserver,
        RdapResponse::Help(_) => ObjectKind::Help,
    }
}

impl RdapResponse {
    /// The kind of the response's top object.
    pub fn get_type(&self) -> (r: ObjectKind)
        ensures
            r == kind_of(*self),
    {
        match self {
            RdapResponse::Domain(_) => ObjectKind::Domain,
            RdapResponse::Nameserver(_) => ObjectKind::Nameserver,
            RdapResponse::Help(_) => ObjectKind::Help,
        }
    }
}

pub open spec fn item_checks(items: Seq<CheckItem>) -> Seq<Check> {
    items.map_values(|i: CheckItem| i.check)
}

/// Objects whose links must carry RDAP-typed `related` and `self` links.
pub open spec fn needs_self_link(k: ObjectKind) -> bool {
    k is Domain || k is Entity || k is Autnum || k is Network
}

pub open spec fn related_rel() -> Seq<char> {
    seq!['r', 'e', 'l', 'a', 't', 'e', 'd']
}

pub open spec fn self_rel() -> Seq<char> {
    seq!['s', 'e', 'l', 'f']
}

pub open spec fn when(b: bool, c: Check) -> Seq<Check> {
    if b {
        seq![c]
    } else {
        seq![]
    }
}

/// The findings on a link.
pub open spec fn link_items(l: Link, p: CheckParams) -> Seq<Check> {
    let rel_items = match l.rel {
        None => seq![Check::LinkMissingRelProperty],
        Some(rel) => if rel@ == related_rel() {
            match l.media_type {
                None => seq![Check::LinkRelatedHasNoType],
                Some(m) => when(m@ != rdap_media_type() && needs_self_link(p.parent_type), Check::LinkRelatedIsNotRdap),
            }
        } else if rel@ == self_rel() {
            match l.media_type {
                None => seq![Check::LinkSelfHasNoType],
                Some(m) => when(m@ != rdap_media_type(), Check::LinkSelfIsNotRdap),
            }
        } else {
            when(needs_self_link(p.parent_type) && p.root != ObjectKind::Nameserver, Check::LinkObjectClassHasNoSelf)
        },
    };
    when(l.value is None, Check::LinkMissingValueProperty) + when(l.href is None, Check::LinkMissingHrefProperty)
        + rel_items
}

/// A node with findings and no children.
pub open spec fn leaf_ok(c: Checks, s: RdapStructure, items: Seq<Check>) -> bool {
    c.rdap_struct == s && item_checks(c.items@) == items && c.sub_checks@.len() == 0
}

pub open spec fn link_checks_ok(c: Checks, l: Link, p: CheckParams) -> bool {
    leaf_ok(c, RdapStructure::Link, link_items(l, p))
}

/// A list of links gives a node without findings that, when descending, holds one child
/// per link.
pub open spec fn links_checks_ok(c: Checks, links: Seq<Link>, p: CheckParams) -> bool {
    &&& c.rdap_struct == RdapStructure::Links
    &&& c.items@.len() == 0
    &&& if p.do_subchecks {
        c.sub_checks@.len() == links.len() && forall|i: int|
            0 <= i < links.len() ==> link_checks_ok(#[trigger] c.sub_checks@[i], links[i], p)
    } else {
        c.sub_checks@.len() == 0
    }
}

/// The findings on a notice or a remark: its description is absent, or a bare string.
pub open spec fn notice_or_remark_items(n: NoticeOrRemark) -> Seq<Check> {
    match n.description {
        None => seq![Check::NoticeOrRemarkDescriptionIsAbsent],
        Some(StringOrStringArray::One(_)) => seq![Check::NoticeOrRemarkDescriptionIsString],
        Some(StringOrStringArray::Many(_)) => seq![],
    }
}

pub open spec fn notice_or_remark_checks_ok(c: Checks, n: NoticeOrRemark, p: CheckParams) -> bool {
    &&& c.rdap_struct == RdapStructure::NoticeOrRemark
    &&& item_checks(c.items@) == notice_or_remark_items(n)
    &&& if p.do_subchecks && n.links is Some {
        let links = n.links->Some_0@;
        c.sub_checks@.len() == links.len() && forall|i: int|
            0 <= i < links.len() ==> link_checks_ok(
                #[trigger] c.sub_checks@[i],
                links[i],
                with_parent(p, ObjectKind::NoticeOrRemark),
            )
    } else {
        c.sub_checks@.len() == 0
    }
}

pub open spec fn notices_checks_ok(c: Checks, ns: Seq<Notice>, p: CheckParams) -> bool {
    &&& c.rdap_struct == RdapStructure::Notices
    &&& c.items@.len() == 0
    &&& if p.do_subchecks {
        c.sub_checks@.len() == ns.len() && forall|i: int|
            0 <= i < ns.len() ==> notice_or_remark_checks_ok(#[trigger] c.sub_checks@[i], ns[i].0, p)
    } else {
        c.sub_checks@.len() == 0
    }
}

pub open spec fn remarks_checks_ok(c: Checks, rs: Seq<Remark>, p: CheckParams) -> bool {
    &&& c.rdap_struct == RdapStructure::Remarks
    &&& c.items@.len() == 0
    &&& if p.do_subchecks {
        c.sub_checks@.len() == rs.len() && forall|i: int|
            0 <= i < rs.len() ==> notice_or_remark_checks_ok(#[trigger] c.sub_checks@[i], rs[i].0, p)
    } else {
        c.sub_checks@.len() == 0
    }
}

/// What one child of an object's checks is expected to be.
pub enum Expected {
    /// A node of this structure with this one finding.
    Finding(RdapStructure, Check),
    Links(Seq<Link>),
    Notices(Seq<Notice>),
    Remarks(Seq<Remark>),
    Conformance,
}

pub open spec fn meets(c: Checks, e: Expected, p: CheckParams) -> bool {
    match e {
        Expected::Finding(s, k) => leaf_ok(c, s, seq![k]),
        Expected::Links(ls) => links_checks_ok(c, ls, p),
        Expected::Notices(ns) => notices_checks_ok(c, ns, p),
        Expected::Remarks(rs) => remarks_checks_ok(c, rs, p),
        Expected::Conformance => leaf_ok(
            c,
            RdapStructure::RdapConformance,
            when(p.parent_type != p.root, Check::RdapConformanceInvalidParent),
        ),
    }
}

/// The children `cs` are, one by one, what `es` expects.
pub open spec fn all_meet(cs: Seq<Checks>, es: Seq<Expected>, p: CheckParams) -> bool {
    cs.len() == es.len() && forall|i: int| 0 <= i < cs.len() ==> meets(#[trigger] cs[i], es[i], p)
}

pub open spec fn expect_when(b: bool, e: Expected) -> Seq<Expected> {
    if b {
        seq![e]
    } else {
        seq![]
    }
}

/// The children that the common members give.
pub open spec fn common_expected(cm: Common, p: CheckParams) -> Seq<Expected> {
    expect_when(p.do_subchecks && cm.rdap_conformance is Some, Expected::Conformance) + if p.do_subchecks
        && cm.notices is Some {
        seq![Expected::Notices(cm.notices->Some_0@)]
    } else {
        seq![]
    } + expect_when(
        p.parent_type == p.root && cm.rdap_conformance is None,
        Expected::Finding(RdapStructure::RdapConformance, Check::RdapConformanceMissing),
    )
}

pub open spec fn status_blank(st: Seq<StatusValue>) -> bool {
    st.len() == 0 || exists|i: int| 0 <= i < st.len() && is_blank(#[trigger] st[i].0@)
}

/// The children that the object-class members give.
pub open spec fn object_common_expected(oc: ObjectCommon, p: CheckParams) -> Seq<Expected> {
    let links = match oc.links {
        Some(ls) => seq![Expected::Links(ls@)],
        None => expect_when(
            p.root != ObjectKind::Nameserver && p.parent_type != ObjectKind::Nameserver,
            Expected::Finding(RdapStructure::Links, Check::LinkObjectClassHasNoSelf),
        ),
    };
    let remarks = match oc.remarks {
        Some(rs) => seq![Expected::Remarks(rs@)],
        None => seq![],
    };
    let events = match oc.events {
        Some(evs) => events_expected(evs@),
        None => seq![],
    };
    let handle = expect_when(
        oc.handle is Some && is_blank(oc.handle->Some_0@),
        Expected::Finding(RdapStructure::Handle, Check::HandleIsEmpty),
    );
    let status = expect_when(
        oc.status is Some && status_blank(oc.status->Some_0@),
        Expected::Finding(RdapStructure::Status, Check::StatusIsEmpty),
    );
    let port43 = expect_when(
        oc.port_43 is Some && is_blank(oc.port_43->Some_0@),
        Expected::Finding(RdapStructure::Port43, Check::Port43IsEmpty),
    );
    links + remarks + events + handle + status + port43
}

/// Whether chrono reads `s` as an RFC 3339 date and time.
pub uninterp spec fn is_rfc3339(s: Seq<char>) -> bool;

/// Relies on chrono's `DateTime::parse_from_rfc3339`: whether it reads the text depends on the
/// text alone.
#[verifier::external_body]
fn parses_as_rfc3339(s: &str) -> (r: bool)
    ensures
        r == is_rfc3339(s@),
{
    match chrono::DateTime::parse_from_rfc3339(s) {
        Ok(_) => true,
        Err(_) => false,
    }
}

/// The findings on one event: a date that is missing or not RFC 3339, then a missing action.
pub open spec fn event_checks_one(e: Event) -> Seq<Check> {
    let date = match e.event_date {
        None => seq![Check::EventDateIsAbsent],
        Some(d) => when(!is_rfc3339(d@), Check::EventDateIsNotRfc3339),
    };
    date + when(e.event_action is None, Check::EventActionIsAbsent)
}

/// The findings on a list of events, event by event.
pub open spec fn event_checks(evs: Seq<Event>) -> Seq<Check>
    decreases evs.len(),
{
    if evs.len() == 0 {
        seq![]
    } else {
        event_checks(evs.drop_last()) + event_checks_one(evs.last())
    }
}

pub open spec fn events_expected(evs: Seq<Event>) -> Seq<Expected> {
    event_checks(evs).map_values(|k: Check| Expected::Finding(RdapStructure::Events, k))
}

/// The findings on public identifiers, in order: a missing type, then a missing identifier,
/// for each.
pub open spec fn public_id_checks(ids: Seq<PublicId>) -> Seq<Check>
    decreases ids.len(),
{
    if ids.len() == 0 {
        seq![]
    } else {
        let last = ids.last();
        public_id_checks(ids.drop_last()) + when(last.id_type is None, Check::PublicIdTypeIsAbsent) + when(
            last.identifier is None,
            Check::PublicIdIdentifierIsAbsent,
        )
    }
}

pub open spec fn public_ids_expected(ids: Seq<PublicId>) -> Seq<Expected> {
    public_id_checks(ids).map_values(|k: Check| Expected::Finding(RdapStructure::PublidIds, k))
}

proof fn lemma_all_meet_concat(a: Seq<Checks>, ea: Seq<Expected>, b: Seq<Checks>, eb: Seq<Expected>, p: CheckParams)
    requires
        all_meet(a, ea, p),
        all_meet(b, eb, p),
    ensures
        all_meet(a + b, ea + eb, p),
{
    assert forall|i: int| 0 <= i < (a + b).len() implies meets(#[trigger] (a + b)[i], (ea + eb)[i], p) by {
        if i < a.len() {
            assert((a + b)[i] == a[i]);
            assert((ea + eb)[i] == ea[i]);
        } else {
            assert((a + b)[i] == b[i - a.len()]);
            assert((ea + eb)[i] == eb[i - a.len()]);
        }
    }
}

fn push_finding(v: &mut Vec<Checks>, s: RdapStructure, k: Check)
    ensures
        final(v)@.len() == old(v)@.len() + 1,
        final(v)@.subrange(0, old(v)@.len() as int) == old(v)@,
        leaf_ok(final(v)@.last(), s, seq![k]),
{
    let mut items: Vec<CheckItem> = Vec::new();
    items.push(k.check_item());
    assert(item_checks(items@) =~= seq![k]);
    v.push(Checks { rdap_struct: s, items, sub_checks: Vec::new() });
    assert(final(v)@.subrange(0, old(v)@.len() as int) =~= old(v)@);
}

impl Link {
    /// Checks one link: `value`, `href` and `rel` are present, `related` and `self` links
    /// carry the RDAP media type where they must, and an object class that needs a self
    /// link is told when a link is of another relation.
    pub fn get_checks(&self, params: CheckParams) -> (r: Checks)
        ensures
            link_checks_ok(r, *self, params),
    {
        let mut items: Vec<CheckItem> = Vec::new();
        if self.value.is_none() {
            items.push(Check::LinkMissingValueProperty.check_item());
        }
        if self.href.is_none() {
            items.push(Check::LinkMissingHrefProperty.check_item());
        }
        let ghost head = items@;
        assert(item_checks(head) =~= when(self.value is None, Check::LinkMissingValueProperty) + when(
            self.href is None,
            Check::LinkMissingHrefProperty,
        ));
        proof {
            reveal_strlit("related");
            reveal_strlit("self");
            reveal_strlit("application/rdap+json");
            assert("related"@ =~= related_rel());
            assert("self"@ =~= self_rel());
            assert("application/rdap+json"@ =~= rdap_media_type());
        }
        let parent_needs_self = match params.parent_type {
            ObjectKind::Domain | ObjectKind::Entity | ObjectKind::Autnum | ObjectKind::Network => true,
            _ => false,
        };
        match &self.rel {
            Some(rel) => {
                if str_eq(rel.as_str(), "related") {
                    match &self.media_type {
                        Some(media_type) => {
                            if !str_eq(media_type.as_str(), "application/rdap+json") && parent_needs_self {
                                items.push(Check::LinkRelatedIsNotRdap.check_item());
                            }
                        },
                        None => {
                            items.push(Check::LinkRelatedHasNoType.check_item());
                        },
                    }
                } else if str_eq(rel.as_str(), "self") {
                    match &self.media_type {
                        Some(media_type) => {
                            if !str_eq(media_type.as_str(), "application/rdap+json") {
                                items.push(Check::LinkSelfIsNotRdap.check_item());
                            }
                        },
                        None => {
                            items.push(Check::LinkSelfHasNoType.check_item());
                        },
                    }
                } else if parent_needs_self && params.root != ObjectKind::Nameserver {
                    items.push(Check::LinkObjectClassHasNoSelf.check_item());
                }
            },
            None => {
                items.push(Check::LinkMissingRelProperty.check_item());
            },
        }
        assert(item_checks(items@) =~= link_items(*self, params));
        Checks { rdap_struct: RdapStructure::Link, items, sub_checks: Vec::new() }
    }
}

/// Checks a list of links: one child per link when descending.
pub fn links_checks(links: &Vec<Link>, params: CheckParams) -> (r: Checks)
    ensures
        links_checks_ok(r, links@, params),
{
    let mut sub_checks: Vec<Checks> = Vec::new();
    if params.do_subchecks {
        let mut i: usize = 0;
        while i < links.len()
            invariant
                i <= links.len(),
                sub_checks@.len() == i,
                forall|j: int| 0 <= j < i ==> link_checks_ok(#[trigger] sub_checks@[j], links@[j], params),
            decreases links.len() - i,
        {
            let c = links[i].get_checks(params);
            sub_checks.push(c);
            i = i + 1;
        }
    }
    Checks { rdap_struct: RdapStructure::Links, items: Vec::new(), sub_checks }
}

impl NoticeOrRemark {
    /// Checks a notice or a remark: its description must be a list of strings, and, when
    /// descending, each of its links is checked as held by a notice or remark.
    pub fn get_checks(&self, params: CheckParams) -> (r: Checks)
        ensures
            notice_or_remark_checks_ok(r, *self, params),
    {
        let mut items: Vec<CheckItem> = Vec::new();
        match &self.description {
            Some(StringOrStringArray::One(_)) => {
                items.push(Check::NoticeOrRemarkDescriptionIsString.check_item());
            },
            Some(StringOrStringArray::Many(_)) => {},
            None => {
                items.push(Check::NoticeOrRemarkDescriptionIsAbsent.check_item());
            },
        }
        assert(item_checks(items@) =~= notice_or_remark_items(*self));
        let mut sub_checks: Vec<Checks> = Vec::new();
        if params.do_subchecks {
            if let Some(links) = &self.links {
                let lp = params.from_parent(ObjectKind::NoticeOrRemark);
                let mut i: usize = 0;
                while i < links.len()
                    invariant
                        lp == with_parent(params, ObjectKind::NoticeOrRemark),
                        i <= links.len(),
                        sub_checks@.len() == i,
                        forall|j: int| 0 <= j < i ==> link_checks_ok(#[trigger] sub_checks@[j], links@[j], lp),
                    decreases links.len() - i,
                {
                    let c = links[i].get_checks(lp);
                    sub_checks.push(c);
                    i = i + 1;
                }
            }
        }
        Checks { rdap_struct: RdapStructure::NoticeOrRemark, items, sub_checks }
    }
}

/// Checks the notices of a response: one child per notice when descending.
pub fn notices_checks(notices: &Vec<Notice>, params: CheckParams) -> (r: Checks)
    ensures
        notices_checks_ok(r, notices@, params),
{
    let mut sub_checks: Vec<Checks> = Vec::new();
    if params.do_subchecks {
        let mut i: usize = 0;
        while i < notices.len()
            invariant
                i <= notices.len(),
                sub_checks@.len() == i,
                forall|j: int|
                    0 <= j < i ==> notice_or_remark_checks_ok(#[trigger] sub_checks@[j], notices@[j].0, params),
            decreases notices.len() - i,
        {
            let c = notices[i].0.get_checks(params);
            sub_checks.push(c);
            i = i + 1;
        }
    }
    Checks { rdap_struct: RdapStructure::Notices, items: Vec::new(), sub_checks }
}

/// Checks the remarks of an object: one child per remark when descending.
pub fn remarks_checks(remarks: &Vec<Remark>, params: CheckParams) -> (r: Checks)
    ensures
        remarks_checks_ok(r, remarks@, params),
{
    let mut sub_checks: Vec<Checks> = Vec::new();
    if params.do_subchecks {
        let mut i: usize = 0;
        while i < remarks.len()
            invariant
                i <= remarks.len(),
                sub_checks@.len() == i,
                forall|j: int|
                    0 <= j < i ==> notice_or_remark_checks_ok(#[trigger] sub_checks@[j], remarks@[j].0, params),
            decreases remarks.len() - i,
        {
            let c = remarks[i].0.get_checks(params);
            sub_checks.push(c);
            i = i + 1;
        }
    }
    Checks { rdap_struct: RdapStructure::Remarks, items: Vec::new(), sub_checks }
}

/// Checks the public identifiers of an object: one finding node for each missing type or
/// identifier, in order.
pub fn public_ids_sub_checks(ids: &Vec<PublicId>, params: CheckParams) -> (r: Vec<Checks>)
    ensures
        all_meet(r@, public_ids_expected(ids@), params),
{
    let mut sub_checks: Vec<Checks> = Vec::new();
    let mut i: usize = 0;
    while i < ids.len()
        invariant
            i <= ids.len(),
            all_meet(sub_checks@, public_ids_expected(ids@.subrange(0, i as int)), params),
        decreases ids.len() - i,
    {
        let ghost before = sub_checks@;
        let ghost pre = ids@.subrange(0, i as int);
        let ghost next = ids@.subrange(0, i + 1);
        assert(next.drop_last() =~= pre);
        let pid = &ids[i];
        let ghost mid = sub_checks@;
        if pid.id_type.is_none() {
            push_finding(&mut sub_checks, RdapStructure::PublidIds, Check::PublicIdTypeIsAbsent);
        }
        let ghost mid2 = sub_checks@;
        if pid.identifier.is_none() {
            push_finding(&mut sub_checks, RdapStructure::PublidIds, Check::PublicIdIdentifierIsAbsent);
        }
        proof {
            let e = public_ids_expected(next);
            let ks = public_id_checks(next);
            assert(ks == public_id_checks(pre) + when(pid.id_type is None, Check::PublicIdTypeIsAbsent) + when(
                pid.identifier is None,
                Check::PublicIdIdentifierIsAbsent,
            ));
            assert(sub_checks@.len() == e.len());
            assert forall|j: int| 0 <= j < sub_checks@.len() implies meets(
                #[trigger] sub_checks@[j],
                e[j],
                params,
            ) by {
                if j < before.len() {
                    assert(sub_checks@[j] == before[j]);
                    assert(e[j] == public_ids_expected(pre)[j]);
                }
            }
        }
        i = i + 1;
    }
    assert(ids@.subrange(0, ids@.len() as int) =~= ids@);
    sub_checks
}

/// Checks the events of an object: one finding node for each missing or malformed date and
/// each missing action, in order.
pub fn events_sub_checks(events: &Vec<Event>, params: CheckParams) -> (r: Vec<Checks>)
    ensures
        all_meet(r@, events_expected(events@), params),
{
    let mut sub_checks: Vec<Checks> = Vec::new();
    let mut i: usize = 0;
    while i < events.len()
        invariant
            i <= events.len(),
            all_meet(sub_checks@, events_expected(events@.subrange(0, i as int)), params),
        decreases events.len() - i,
    {
        let ghost before = sub_checks@;
        let ghost pre = events@.subrange(0, i as int);
        let ghost next = events@.subrange(0, i + 1);
        assert(next.drop_last() =~= pre);
        let e = &events[i];
        match &e.event_date {
            Some(date) => {
                if !parses_as_rfc3339(date.as_str()) {
                    push_finding(&mut sub_checks, RdapStructure::Events, Check::EventDateIsNotRfc3339);
                }
            },
            None => {
                push_finding(&mut sub_checks, RdapStructure::Events, Check::EventDateIsAbsent);
            },
        }
        if e.event_action.is_none() {
            push_finding(&mut sub_checks, RdapStructure::Events, Check::EventActionIsAbsent);
        }
        proof {
            let ex = events_expected(next);
            assert(event_checks(next) == event_checks(pre) + event_checks_one(*e));
            assert(sub_checks@.len() == ex.len());
            assert forall|j: int| 0 <= j < sub_checks@.len() implies meets(#[trigger] sub_checks@[j], ex[j], params) by {
                if j < before.len() {
                    assert(sub_checks@[j] == before[j]);
                    assert(ex[j] == events_expected(pre)[j]);
                }
            }
        }
        i = i + 1;
    }
    assert(events@.subrange(0, events@.len() as int) =~= events@);
    sub_checks
}

/// Checks the `rdapConformance` member: it belongs to the top object only.
pub fn rdap_conformance_checks(conformance: &Vec<Extension>, params: CheckParams) -> (r: Checks)
    ensures
        meets(r, Expected::Conformance, params),
{
    let mut items: Vec<CheckItem> = Vec::new();
    if params.parent_type != params.root {
        items.push(Check::RdapConformanceInvalidParent.check_item());
    }
    assert(item_checks(items@) =~= when(params.parent_type != params.root, Check::RdapConformanceInvalidParent));
    Checks { rdap_struct: RdapStructure::RdapConformance, items, sub_checks: Vec::new() }
}

fn push_expected(v: &mut Vec<Checks>, c: Checks, es: Ghost<Seq<Expected>>, e: Ghost<Expected>, p: CheckParams)
    requires
        all_meet(old(v)@, es@, p),
        meets(c, e@, p),
    ensures
        all_meet(final(v)@, es@.push(e@), p),
{
    v.push(c);
    assert forall|i: int| 0 <= i < final(v)@.len() implies meets(#[trigger] final(v)@[i], es@.push(e@)[i], p) by {
        if i < old(v)@.len() {
            assert(final(v)@[i] == old(v)@[i]);
        }
    }
}

fn push_finding_expected(v: &mut Vec<Checks>, s: RdapStructure, k: Check, es: Ghost<Seq<Expected>>, p: CheckParams)
    requires
        all_meet(old(v)@, es@, p),
    ensures
        all_meet(final(v)@, es@.push(Expected::Finding(s, k)), p),
{
    let mut items: Vec<CheckItem> = Vec::new();
    items.push(k.check_item());
    assert(item_checks(items@) =~= seq![k]);
    let c = Checks { rdap_struct: s, items, sub_checks: Vec::new() };
    push_expected(v, c, es, Ghost(Expected::Finding(s, k)), p);
}

/// Whether a status list is empty or holds a blank value.
fn status_is_blank(status: &Vec<StatusValue>) -> (r: bool)
    ensures
        r == status_blank(status@),
{
    if status.len() == 0 {
        return true;
    }
    let mut i: usize = 0;
    while i < status.len()
        invariant
            i <= status.len(),
            forall|j: int| 0 <= j < i ==> !is_blank(#[trigger] status@[j].0@),
        decreases status.len() - i,
    {
        if is_whitespace_or_empty(status[i].0.as_str()) {
            return true;
        }
        i = i + 1;
    }
    false
}

impl Common {
    /// Checks the members that every response has: its conformance list and notices when
    /// descending, and that the top object states its conformance.
    pub fn get_sub_checks(&self, params: CheckParams) -> (r: Vec<Checks>)
        ensures
            all_meet(r@, common_expected(*self, params), params),
    {
        let mut sub_checks: Vec<Checks> = Vec::new();
        let ghost mut es: Seq<Expected> = seq![];
        assert(all_meet(sub_checks@, es, params));
        if params.do_subchecks {
            if let Some(rdap_conformance) = &self.rdap_conformance {
                let c = rdap_conformance_checks(rdap_conformance, params);
                push_expected(&mut sub_checks, c, Ghost(es), Ghost(Expected::Conformance), params);
                proof { es = es.push(Expected::Conformance); }
            }
            if let Some(notices) = &self.notices {
                let c = notices_checks(notices, params);
                push_expected(&mut sub_checks, c, Ghost(es), Ghost(Expected::Notices(notices@)), params);
                proof { es = es.push(Expected::Notices(notices@)); }
            }
        }
        if params.parent_type == params.root && self.rdap_conformance.is_none() {
            push_finding_expected(&mut sub_checks, RdapStructure::RdapConformance, Check::RdapConformanceMissing, Ghost(es), params);
            proof { es = es.push(Expected::Finding(RdapStructure::RdapConformance, Check::RdapConformanceMissing)); }
        }
        assert(es =~= common_expected(*self, params));
        sub_checks
    }
}

impl ObjectCommon {
    /// Checks the members that every object class has: its links (or that it has none
    /// where a self link is owed), its remarks, its events, and that handle, status and
    /// port 43 are not blank.
    #[verifier::rlimit(40)]
    pub fn get_sub_checks(&self, params: CheckParams) -> (r: Vec<Checks>)
        ensures
            all_meet(r@, object_common_expected(*self, params), params),
    {
        let mut sub_checks: Vec<Checks> = Vec::new();
        let ghost mut es: Seq<Expected> = seq![];
        assert(all_meet(sub_checks@, es, params));
        if let Some(links) = &self.links {
            let c = links_checks(links, params);
            push_expected(&mut sub_checks, c, Ghost(es), Ghost(Expected::Links(links@)), params);
            proof { es = es.push(Expected::Links(links@)); }
        } else if params.root != ObjectKind::Nameserver && params.parent_type != ObjectKind::Nameserver {
            push_finding_expected(&mut sub_checks, RdapStructure::Links, Check::LinkObjectClassHasNoSelf, Ghost(es), params);
            proof { es = es.push(Expected::Finding(RdapStructure::Links, Check::LinkObjectClassHasNoSelf)); }
        }
        if let Some(remarks) = &self.remarks {
            let c = remarks_checks(remarks, params);
            push_expected(&mut sub_checks, c, Ghost(es), Ghost(Expected::Remarks(remarks@)), params);
            proof { es = es.push(Expected::Remarks(remarks@)); }
        }
        if let Some(events) = &self.events {
            let ec = events_sub_checks(events, params);
            append_checks(&mut sub_checks, ec, Ghost(es), Ghost(events_expected(events@)), params);
            proof { es = es + events_expected(events@); }
        }
        if let Some(handle) = &self.handle {
            if is_whitespace_or_empty(handle.as_str()) {
                push_finding_expected(&mut sub_checks, RdapStructure::Handle, Check::HandleIsEmpty, Ghost(es), params);
                proof { es = es.push(Expected::Finding(RdapStructure::Handle, Check::HandleIsEmpty)); }
            }
        }
        if let Some(status) = &self.status {
            if status_is_blank(status) {
                push_finding_expected(&mut sub_checks, RdapStructure::Status, Check::StatusIsEmpty, Ghost(es), params);
                proof { es = es.push(Expected::Finding(RdapStructure::Status, Check::StatusIsEmpty)); }
            }
        }
        if let Some(port43) = &self.port_43 {
            if is_whitespace_or_empty(port43.as_str()) {
                push_finding_expected(&mut sub_checks, RdapStructure::Port43, Check::Port43IsEmpty, Ghost(es), params);
                proof { es = es.push(Expected::Finding(RdapStructure::Port43, Check::Port43IsEmpty)); }
            }
        }
        assert(es =~= object_common_expected(*self, params));
        sub_checks
    }
}

/// The children of a domain's checks: when descending, those of its common members, its
/// object-class members and its public identifiers, each checked as held by a domain.
pub open spec fn domain_expected(d: Domain, p: CheckParams) -> Seq<Expected> {
    let q = with_parent(p, ObjectKind::Domain);
    if p.do_subchecks {
        common_expected(d.common, q) + object_common_expected(d.object_common, q) + match d.public_ids {
            Some(ids) => public_ids_expected(ids@),
            None => seq![],
        }
    } else {
        seq![]
    }
}

/// The children of a nameserver's checks: when descending, those of its common and
/// object-class members, each checked as held by a nameserver.
pub open spec fn nameserver_expected(n: Nameserver, p: CheckParams) -> Seq<Expected> {
    let q = with_parent(p, ObjectKind::Nameserver);
    if p.do_subchecks {
        common_expected(n.common, q) + object_common_expected(n.object_common, q)
    } else {
        seq![]
    }
}

/// The children of a help response's checks: when descending, those of its common members.
pub open spec fn help_expected(h: Help, p: CheckParams) -> Seq<Expected> {
    if p.do_subchecks {
        common_expected(h.common, with_parent(p, ObjectKind::Help))
    } else {
        seq![]
    }
}

/// The checks of a response, as its top object gives them.
pub open spec fn response_checks_ok(c: Checks, rdap: RdapResponse, p: CheckParams) -> bool {
    &&& c.items@.len() == 0
    &&& match rdap {
        RdapResponse::Domain(d) => c.rdap_struct == RdapStructure::Domain && all_meet(
            c.sub_checks@,
            domain_expected(d, p),
            with_parent(p, ObjectKind::Domain),
        ),
        RdapResponse::Nameserver(n) => c.rdap_struct == RdapStructure::Nameserver && all_meet(
            c.sub_checks@,
            nameserver_expected(n, p),
            with_parent(p, ObjectKind::Nameserver),
        ),
        RdapResponse::Help(h) => c.rdap_struct == RdapStructure::Help && all_meet(
            c.sub_checks@,
            help_expected(h, p),
            with_parent(p, ObjectKind::Help),
        ),
    }
}

fn append_checks(v: &mut Vec<Checks>, w: Vec<Checks>, ev: Ghost<Seq<Expected>>, ew: Ghost<Seq<Expected>>, p: CheckParams)
    requires
        all_meet(old(v)@, ev@, p),
        all_meet(w@, ew@, p),
    ensures
        all_meet(final(v)@, ev@ + ew@, p),
{
    let mut w = w;
    proof { lemma_all_meet_concat(v@, ev@, w@, ew@, p); }
    v.append(&mut w);
}

impl Domain {
    pub fn get_checks(&self, params: CheckParams) -> (r: Checks)
        ensures
            response_checks_ok(r, RdapResponse::Domain(*self), params),
    {
        let q = params.from_parent(ObjectKind::Domain);
        let mut sub_checks: Vec<Checks> = Vec::new();
        if params.do_subchecks {
            sub_checks = self.common.get_sub_checks(q);
            let oc = self.object_common.get_sub_checks(q);
            append_checks(
                &mut sub_checks,
                oc,
                Ghost(common_expected(self.common, q)),
                Ghost(object_common_expected(self.object_common, q)),
                q,
            );
            if let Some(ids) = &self.public_ids {
                let pc = public_ids_sub_checks(ids, q);
                append_checks(
                    &mut sub_checks,
                    pc,
                    Ghost(common_expected(self.common, q) + object_common_expected(self.object_common, q)),
                    Ghost(public_ids_expected(ids@)),
                    q,
                );
            } else {
                assert(common_expected(self.common, q) + object_common_expected(self.object_common, q) + seq![]
                    =~= common_expected(self.common, q) + object_common_expected(self.object_common, q));
            }
        } else {
            assert(all_meet(sub_checks@, seq![], q));
        }
        Checks { rdap_struct: RdapStructure::Domain, items: Vec::new(), sub_checks }
    }
}

impl Nameserver {
    pub fn get_checks(&self, params: CheckParams) -> (r: Checks)
        ensures
            response_checks_ok(r, RdapResponse::Nameserver(*self), params),
    {
        let q = params.from_parent(ObjectKind::Nameserver);
        let mut sub_checks: Vec<Checks> = Vec::new();
        if params.do_subchecks {
            sub_checks = self.common.get_sub_checks(q);
            let oc = self.object_common.get_sub_checks(q);
            append_checks(
                &mut sub_checks,
                oc,
                Ghost(common_expected(self.common, q)),
                Ghost(object_common_expected(self.object_common, q)),
                q,
            );
        } else {
            assert(all_meet(sub_checks@, seq![], q));
        }
        Checks { rdap_struct: RdapStructure::Nameserver, items: Vec::new(), sub_checks }
    }
}

impl Help {
    pub fn get_checks(&self, params: CheckParams) -> (r: Checks)
        ensures
            response_checks_ok(r, RdapResponse::Help(*self), params),
    {
        let sub_checks = if params.do_subchecks {
            self.common.get_sub_checks(params.from_parent(ObjectKind::Help))
        } else {
            let v: Vec<Checks> = Vec::new();
            assert(all_meet(v@, seq![], with_parent(params, ObjectKind::Help)));
            v
        };
        Checks { rdap_struct: RdapStructure::Help, items: Vec::new(), sub_checks }
    }
}

impl RdapResponse {
    /// Checks a response from its top object down.
    pub fn get_checks(&self, params: CheckParams) -> (r: Checks)
        ensures
            response_checks_ok(r, *self, params),
    {
        match self {
            RdapResponse::Domain(d) => d.get_checks(params),
            RdapResponse::Nameserver(n) => n.get_checks(params),
            RdapResponse::Help(h) => h.get_checks(params),
        }
    }
}

impl Checks {
    /// The first child about the structure `s`.
    pub fn sub(&self, s: RdapStructure) -> (r: Option<&Checks>)
        ensures
            r matches Some(c) ==> exists|i: int|
                0 <= i < self.sub_checks@.len() && self.sub_checks@[i] == *c && c.rdap_struct == s
                    && forall|j: int| 0 <= j < i ==> (#[trigger] self.sub_checks@[j]).rdap_struct != s,
            r is None ==> forall|i: int|
                0 <= i < self.sub_checks@.len() ==> (#[trigger] self.sub_checks@[i]).rdap_struct != s,
    {
        let mut i: usize = 0;
        while i < self.sub_checks.len()
            invariant
                i <= self.sub_checks@.len(),
                forall|j: int| 0 <= j < i ==> (#[trigger] self.sub_checks@[j]).rdap_struct != s,
            decreases self.sub_checks.len() - i,
        {
            if self.sub_checks[i].rdap_struct == s {
                return Some(&self.sub_checks[i]);
            }
            i = i + 1;
        }
        None
    }
}

/// The common members of a response's top object.
pub open spec fn common_of(r: RdapResponse) -> Common {
    match r {
        RdapResponse::Domain(d) => d.common,
        RdapResponse::Nameserver(n) => n.common,
        RdapResponse::Help(h) => h.common,
    }
}

/// The response declares conformance to the extension `e`.
pub open spec fn declares_extension(r: RdapResponse, e: Seq<char>) -> bool {
    common_of(r).rdap_conformance matches Some(v) && exists|i: int| 0 <= i < v@.len() && (#[trigger] v@[i]).0@ == e
}

/// `s[a..b]` is one of the pieces that `str::split` on `c` gives.
pub open spec fn is_piece(s: Seq<char>, c: char, a: int, b: int) -> bool {
    &&& 0 <= a <= b <= s.len()
    &&& (a == 0 || s[a - 1] == c)
    &&& (b == s.len() || s[b] == c)
    &&& forall|k: int| a <= k < b ==> #[trigger] s[k] != c
}

/// Some `|`-separated alternative of `ext` is an extension that the response declares.
pub open spec fn has_expected_extension(r: RdapResponse, ext: Seq<char>) -> bool {
    exists|a: int, b: int| #[trigger] is_piece(ext, '|', a, b) && declares_extension(r, ext.subrange(a, b))
}

impl RdapResponse {
    /// Whether the response declares conformance to the extension `ext`.
    pub fn has_extension(&self, ext: &str) -> (r: bool)
        ensures
            r == declares_extension(*self, ext@),
    {
        let common = match self {
            RdapResponse::Domain(d) => &d.common,
            RdapResponse::Nameserver(n) => &n.common,
            RdapResponse::Help(h) => &h.common,
        };
        match &common.rdap_conformance {
            None => false,
            Some(v) => {
                let mut i: usize = 0;
                while i < v.len()
                    invariant
                        common_of(*self).rdap_conformance == Some(*v),
                        i <= v.len(),
                        forall|j: int| 0 <= j < i ==> (#[trigger] v@[j]).0@ != ext@,
                    decreases v.len() - i,
                {
                    if str_eq(v[i].0.as_str(), ext) {
                        assert((v@[i as int]).0@ == ext@);
                        let ghost cv = common_of(*self).rdap_conformance->Some_0;
                        assert(cv@[i as int].0@ == ext@);
                        return true;
                    }
                    i = i + 1;
                }
                false
            },
        }
    }
}

/// Whether the response declares one of the `|`-separated extensions of `ext`.
pub fn rdap_has_expected_extension(rdap: &RdapResponse, ext: &str) -> (r: bool)
    ensures
        r == has_expected_extension(*rdap, ext@),
{
    let ec = to_chars(ext);
    let ghost s = ext@;
    let mut a: usize = 0;
    loop
        invariant
            ec@ == s,
            s == ext@,
            a <= ec.len(),
            a == 0 || s[a - 1] == '|',
            forall|a2: int, b2: int|
                #[trigger] is_piece(s, '|', a2, b2) && a2 < a ==> !declares_extension(*rdap, s.subrange(a2, b2)),
        decreases ec.len() - a,
    {
        let mut b: usize = a;
        while b < ec.len() && ec[b] != '|'
            invariant
                ec@ == s,
                a <= b <= ec.len(),
                forall|k: int| a <= k < b ==> s[k] != '|',
            decreases ec.len() - b,
        {
            b = b + 1;
        }
        assert(is_piece(s, '|', a as int, b as int));
        proof {
            assert forall|a2: int, b2: int| #[trigger] is_piece(s, '|', a2, b2) && a <= a2 <= b implies a2 == a && b2 == b by {
                if a2 > a {
                    assert(s[a2 - 1] != '|');
                }
                if b2 < b {
                    assert(s[b2] != '|');
                } else if b2 > b {
                    assert(s[b as int] == '|');
                }
            }
        }
        if rdap.has_extension(ext.substring_char(a, b)) {
            return true;
        }
        if b == ec.len() {
            assert forall|a2: int, b2: int| #[trigger] is_piece(s, '|', a2, b2) implies !declares_extension(
                *rdap,
                s.subrange(a2, b2),
            ) by {
                if a2 >= a {
                    assert(a2 <= b);
                }
            }
            return false;
        }
        a = b + 1;
    }
}

} // verus!
