#![allow(non_snake_case)]

use rdap_bootstrap::{
    Check, CheckParams, Checks, Common, Domain, Event, Link, Nameserver, Notice, NoticeOrRemark,
    ObjectCommon, PublicId, RdapResponse, RdapStructure, Remark, StatusValue,
    StringOrStringArray,
};

fn common() -> Common {
    Common { rdap_conformance: None, notices: None }
}

fn object_common(class: &str) -> ObjectCommon {
    ObjectCommon {
        object_class_name: class.to_string(),
        handle: None,
        remarks: None,
        links: None,
        events: None,
        status: None,
        port_43: None,
    }
}

fn link(href: &str, value: &str, rel: &str, media_type: Option<&str>) -> Link {
    Link {
        value: Some(value.to_string()),
        rel: Some(rel.to_string()),
        href: Some(href.to_string()),
        hreflang: None,
        title: None,
        media: None,
        media_type: media_type.map(|m| m.to_string()),
    }
}

fn domain_with_links(links: Vec<Link>) -> RdapResponse {
    let mut oc = object_common("domain");
    oc.links = Some(links);
    RdapResponse::Domain(Domain {
        common: common(),
        object_common: oc,
        ldh_name: None,
        public_ids: None,
    })
}

fn nameserver(common: Common, object_common: ObjectCommon) -> RdapResponse {
    RdapResponse::Nameserver(Nameserver { common, object_common, ldh_name: None })
}

fn basic_nameserver() -> Nameserver {
    Nameserver {
        common: common(),
        object_common: object_common("nameserver"),
        ldh_name: Some("ns1.example.com".to_string()),
    }
}

fn tos_notice() -> NoticeOrRemark {
    NoticeOrRemark {
        title: None,
        description: Some(StringOrStringArray::Many(vec!["a notice".to_string()])),
        links: Some(vec![link("https://tos", "https://tos", "terms-of-service", Some("text/html"))]),
    }
}

fn find_any_check(checks: &Checks, check_type: Check) -> bool {
    if checks.items.iter().any(|c| c.check == check_type) {
        return true;
    }
    checks.sub_checks.iter().any(|c| find_any_check(c, check_type))
}

fn link_node_has(rdap: &RdapResponse, check: Check) -> bool {
    let checks = rdap.get_checks(CheckParams::for_rdap(rdap));
    checks
        .sub(RdapStructure::Links)
        .expect("Links not found")
        .sub(RdapStructure::Link)
        .expect("Link not found")
        .items
        .iter()
        .any(|c| c.check == check)
}

#[test]
fn GIVEN_link_with_no_rel_property_WHEN_checked_THEN_link_missing_rel_property() {
    let mut l = link("https://foo", "https://foo", "x", None);
    l.rel = None;
    let rdap = domain_with_links(vec![l]);
    assert!(link_node_has(&rdap, Check::LinkMissingRelProperty), "link rel missing check");
}

#[test]
fn GIVEN_link_with_no_val_property_WHEN_checked_THEN_link_missing_val_property() {
    let mut l = link("https://foo", "x", "about", None);
    l.value = None;
    let rdap = domain_with_links(vec![l]);
    assert!(link_node_has(&rdap, Check::LinkMissingValueProperty), "link missing check");
}

#[test]
fn GIVEN_link_with_no_href_property_WHEN_checked_THEN_link_missing_href_property() {
    let mut l = link("x", "https://foo", "about", None);
    l.href = None;
    let rdap = domain_with_links(vec![l]);
    assert!(link_node_has(&rdap, Check::LinkMissingHrefProperty), "link missing check");
}

#[test]
fn GIVEN_related_link_with_no_type_property_WHEN_checked_THEN_related_link_has_no_type() {
    let rdap = domain_with_links(vec![link("https://foo", "https://foo", "related", None)]);
    assert!(link_node_has(&rdap, Check::LinkRelatedHasNoType), "link missing check");
}

#[test]
fn GIVEN_object_related_link_with_non_rdap_type_WHEN_checked_THEN_related_link_not_rdap() {
    let rdap = domain_with_links(vec![link("https://foo", "https://foo", "related", Some("foo"))]);
    assert!(link_node_has(&rdap, Check::LinkRelatedIsNotRdap), "link missing check");
}

#[test]
fn GIVEN_self_link_with_no_type_property_WHEN_checked_THEN_self_link_has_no_type() {
    let rdap = domain_with_links(vec![link("https://foo", "https://foo", "self", None)]);
    assert!(link_node_has(&rdap, Check::LinkSelfHasNoType), "link missing check");
}

#[test]
fn GIVEN_self_link_with_non_rdap_type_WHEN_checked_THEN_self_link_not_rdap() {
    let rdap = domain_with_links(vec![link("https://foo", "https://foo", "self", Some("foo"))]);
    let checks = rdap.get_checks(CheckParams::for_rdap(&rdap));
    assert!(find_any_check(&checks, Check::LinkSelfIsNotRdap));
}

#[test]
fn GIVEN_domain_with_self_link_WHEN_checked_THEN_no_check_found() {
    let rdap = domain_with_links(vec![link(
        "https://foo",
        "https://foo",
        "self",
        Some("application/rdap+json"),
    )]);
    let checks = rdap.get_checks(CheckParams::for_rdap(&rdap));
    assert!(!find_any_check(&checks, Check::LinkObjectClassHasNoSelf));
}

#[test]
fn GIVEN_nameserver_with_self_link_WHEN_checked_THEN_no_check_found() {
    let mut oc = object_common("domain");
    oc.links = Some(vec![link("https://foo", "https://foo", "self", Some("application/rdap+json"))]);
    let rdap = nameserver(common(), oc);
    let checks = rdap.get_checks(CheckParams::for_rdap(&rdap));
    assert!(!find_any_check(&checks, Check::LinkObjectClassHasNoSelf));
}

#[test]
fn GIVEN_nameserver_with_self_link_and_notice_WHEN_checked_THEN_no_check_found() {
    let mut oc = object_common("domain");
    oc.links = Some(vec![link("https://foo", "https://foo", "self", Some("application/rdap+json"))]);
    let cm = Common { rdap_conformance: None, notices: Some(vec![Notice(tos_notice())]) };
    let rdap = nameserver(cm, oc);
    let checks = rdap.get_checks(CheckParams::for_rdap(&rdap));
    assert!(!find_any_check(&checks, Check::LinkObjectClassHasNoSelf));
}

#[test]
fn GIVEN_nameserver_with_self_link_and_remark_WHEN_checked_THEN_no_check_found() {
    let mut oc = object_common("domain");
    oc.remarks = Some(vec![Remark(tos_notice())]);
    oc.links = Some(vec![link("https://foo", "https://foo", "self", Some("application/rdap+json"))]);
    let rdap = nameserver(common(), oc);
    let checks = rdap.get_checks(CheckParams::for_rdap(&rdap));
    assert!(!find_any_check(&checks, Check::LinkObjectClassHasNoSelf));
}

#[test]
fn GIVEN_domain_with_no_self_link_WHEN_checked_THEN_object_classes_should_have_self_link() {
    let rdap = domain_with_links(vec![link("https://foo", "https://foo", "no_self", Some("foo"))]);
    assert!(link_node_has(&rdap, Check::LinkObjectClassHasNoSelf), "link missing check");
}

#[test]
fn GIVEN_domain_with_no_links_WHEN_checked_THEN_object_classes_should_have_self_link() {
    let rdap = RdapResponse::Domain(Domain {
        common: common(),
        object_common: object_common("domain"),
        ldh_name: None,
        public_ids: None,
    });
    let checks = rdap.get_checks(CheckParams::for_rdap(&rdap));
    assert!(
        checks
            .sub(RdapStructure::Links)
            .expect("Links not found")
            .items
            .iter()
            .any(|c| c.check == Check::LinkObjectClassHasNoSelf),
        "link missing check"
    );
}

fn domain_with_public_id(id: PublicId) -> RdapResponse {
    RdapResponse::Domain(Domain {
        common: common(),
        object_common: object_common("domain"),
        ldh_name: None,
        public_ids: Some(vec![id]),
    })
}

#[test]
fn GIVEN_public_id_with_no_type_WHEN_checked_THEN_type_is_absent() {
    let rdap = domain_with_public_id(PublicId { id_type: None, identifier: Some("thing".to_string()) });
    let checks = rdap.get_checks(CheckParams::for_rdap(&rdap));
    assert!(
        checks
            .sub(RdapStructure::PublidIds)
            .expect("Public Ids not found")
            .items
            .iter()
            .any(|c| c.check == Check::PublicIdTypeIsAbsent),
        "public id missing check"
    );
}

#[test]
fn GIVEN_public_id_with_no_identifier_WHEN_checked_THEN_identifier_is_absent() {
    let rdap = domain_with_public_id(PublicId { identifier: None, id_type: Some("thing".to_string()) });
    let checks = rdap.get_checks(CheckParams::for_rdap(&rdap));
    assert!(
        checks
            .sub(RdapStructure::PublidIds)
            .expect("Public Ids not found")
            .items
            .iter()
            .any(|c| c.check == Check::PublicIdIdentifierIsAbsent),
        "public id missing check"
    );
}

#[test]
fn GIVEN_notice_with_no_description_WHEN_checked_THEN_description_absent() {
    let notice = NoticeOrRemark { title: None, description: None, links: None };
    let rdap = RdapResponse::Domain(Domain {
        common: Common { rdap_conformance: None, notices: Some(vec![Notice(notice)]) },
        object_common: object_common("domain"),
        ldh_name: None,
        public_ids: None,
    });
    let checks = rdap.get_checks(CheckParams::for_rdap(&rdap));
    assert!(
        checks
            .sub(RdapStructure::Notices)
            .expect("Notices not found")
            .sub(RdapStructure::NoticeOrRemark)
            .expect("Notice/Remark not found")
            .items
            .iter()
            .any(|c| c.check == Check::NoticeOrRemarkDescriptionIsAbsent),
        "description missing check"
    );
}

#[test]
fn GIVEN_nameserver_with_no_links_WHEN_checked_THEN_no_object_classes_should_have_self_link() {
    let rdap = nameserver(common(), object_common("nameserver"));
    let checks = rdap.get_checks(CheckParams::for_rdap(&rdap));
    assert!(checks.sub(RdapStructure::Links).is_none());
}

#[test]
fn GIVEN_nameserver_with_no_self_links_WHEN_checked_THEN_no_object_classes_should_have_self_link() {
    let mut oc = object_common("nameserver");
    oc.links = Some(vec![link("https://foo", "https://foo", "no_self", Some("foo"))]);
    let rdap = nameserver(common(), oc);
    let checks = rdap.get_checks(CheckParams::for_rdap(&rdap));
    assert!(!checks
        .sub(RdapStructure::Links)
        .expect("Links not found")
        .items
        .iter()
        .any(|c| c.check == Check::LinkObjectClassHasNoSelf));
}

#[test]
fn GIVEN_nameserver_with_empty_status_WHEN_checked_THEN_status_is_empty() {
    let cases: Vec<Vec<StatusValue>> = vec![
        vec![],
        vec![StatusValue("".to_string())],
        vec![StatusValue("  ".to_string())],
        vec![StatusValue("  ".to_string()), StatusValue("foo".to_string())],
    ];
    for status in cases {
        let mut ns = basic_nameserver();
        ns.object_common.status = Some(status);
        let rdap = RdapResponse::Nameserver(ns);
        let checks = rdap.get_checks(CheckParams::for_rdap(&rdap));
        assert!(checks
            .sub(RdapStructure::Status)
            .expect("status not found")
            .items
            .iter()
            .any(|c| c.check == Check::StatusIsEmpty));
    }
}

#[test]
fn GIVEN_nameserver_with_empty_handle_WHEN_checked_THEN_handle_is_empty() {
    for handle in ["", "  "] {
        let mut ns = basic_nameserver();
        ns.object_common.handle = Some(handle.to_string());
        let rdap = RdapResponse::Nameserver(ns);
        let checks = rdap.get_checks(CheckParams::for_rdap(&rdap));
        assert!(checks
            .sub(RdapStructure::Handle)
            .expect("handle not found")
            .items
            .iter()
            .any(|c| c.check == Check::HandleIsEmpty));
    }
}

#[test]
fn nonblank_status_and_handle_give_no_finding() {
    let mut ns = basic_nameserver();
    ns.object_common.status = Some(vec![StatusValue("active".to_string())]);
    ns.object_common.handle = Some("NS1".to_string());
    ns.object_common.port_43 = Some("\u{3000}".to_string());
    let rdap = RdapResponse::Nameserver(ns);
    let checks = rdap.get_checks(CheckParams::for_rdap(&rdap));
    assert!(checks.sub(RdapStructure::Status).is_none());
    assert!(checks.sub(RdapStructure::Handle).is_none());
    assert!(find_any_check(&checks, Check::Port43IsEmpty));
}

#[test]
fn top_object_without_conformance_is_told() {
    let rdap = nameserver(common(), object_common("nameserver"));
    let checks = rdap.get_checks(CheckParams::for_rdap(&rdap));
    assert!(find_any_check(&checks, Check::RdapConformanceMissing));
}

#[test]
fn description_as_one_string_is_told() {
    let notice = NoticeOrRemark {
        title: None,
        description: Some(StringOrStringArray::One("text".to_string())),
        links: None,
    };
    let checks = notice.get_checks(CheckParams::for_rdap(&nameserver(common(), object_common("nameserver"))));
    assert_eq!(checks.items.len(), 1);
    assert_eq!(checks.items[0].check, Check::NoticeOrRemarkDescriptionIsString);
}

fn domain_with_events(events: Vec<Event>) -> RdapResponse {
    let mut oc = object_common("domain");
    oc.events = Some(events);
    RdapResponse::Domain(Domain { common: common(), object_common: oc, ldh_name: None, public_ids: None })
}

fn events_node_has(rdap: &RdapResponse, check: Check) -> bool {
    let checks = rdap.get_checks(CheckParams::for_rdap(rdap));
    checks
        .sub(RdapStructure::Events)
        .expect("Events not found")
        .items
        .iter()
        .any(|c| c.check == check)
}

#[test]
fn GIVEN_event_with_no_date_WHEN_checked_THEN_event_date_absent() {
    let rdap = domain_with_events(vec![Event {
        event_action: Some("foo".to_string()),
        event_date: None,
        event_actor: None,
        links: None,
    }]);
    assert!(events_node_has(&rdap, Check::EventDateIsAbsent), "event missing check");
}

#[test]
fn GIVEN_event_with_no_action_WHEN_checked_THEN_event_action_absent() {
    let rdap = domain_with_events(vec![Event {
        event_date: Some("1990-12-31T23:59:59Z".to_string()),
        event_action: None,
        event_actor: None,
        links: None,
    }]);
    assert!(events_node_has(&rdap, Check::EventActionIsAbsent), "event missing check");
}

#[test]
fn GIVEN_event_with_bad_date_WHEN_checked_THEN_event_date_is_not_date() {
    let rdap = domain_with_events(vec![Event {
        event_action: Some("foo".to_string()),
        event_date: Some("bar".to_string()),
        event_actor: None,
        links: None,
    }]);
    assert!(events_node_has(&rdap, Check::EventDateIsNotRfc3339), "event missing check");
}

#[test]
fn well_formed_event_gives_no_finding() {
    let rdap = domain_with_events(vec![Event {
        event_action: Some("registration".to_string()),
        event_date: Some("1990-12-31T23:59:59Z".to_string()),
        event_actor: None,
        links: None,
    }]);
    let checks = rdap.get_checks(CheckParams::for_rdap(&rdap));
    assert!(checks.sub(RdapStructure::Events).is_none());
}
