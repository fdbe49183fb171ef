#![allow(non_snake_case)]

use rdap_bootstrap::{
    rdap_has_expected_extension, Check, CheckParams, Checks, Common, Domain, Extension, Help,
    ObjectCommon, RdapResponse, RdapStructure,
};

fn domain_with_extensions(exts: &[&str]) -> RdapResponse {
    RdapResponse::Domain(Domain {
        common: Common {
            rdap_conformance: Some(exts.iter().map(|e| Extension(e.to_string())).collect()),
            notices: None,
        },
        object_common: ObjectCommon {
            object_class_name: "domain".to_string(),
            handle: None,
            remarks: None,
            links: None,
            events: None,
            status: None,
            port_43: None,
        },
        ldh_name: Some("foo.example.com".to_string()),
        public_ids: None,
    })
}

#[test]
fn GIVEN_expected_extension_WHEN_rdap_has_THEN_true() {
    let rdap = domain_with_extensions(&["rdap_level_0", "foo0"]);
    let actual = rdap_has_expected_extension(&rdap, "foo0");
    assert!(actual);
}

#[test]
fn GIVEN_expected_extension_WHEN_rdap_does_not_have_THEN_false() {
    let rdap = domain_with_extensions(&["rdap_level_0", "foo0"]);
    let actual = rdap_has_expected_extension(&rdap, "foo1");
    assert!(!actual);
}

#[test]
fn GIVEN_compound_expected_extension_WHEN_rdap_has_THEN_true() {
    let rdap = domain_with_extensions(&["rdap_level_0", "foo0"]);
    let actual = rdap_has_expected_extension(&rdap, "foo0|foo1");
    assert!(actual);
}

#[test]
fn expected_extension_in_last_alternative() {
    let rdap = domain_with_extensions(&["rdap_level_0", "foo0"]);
    assert!(rdap_has_expected_extension(&rdap, "foo1|foo2|foo0"));
    assert!(!rdap_has_expected_extension(&rdap, "foo1|foo2|"));
    assert!(!rdap_has_expected_extension(&rdap, "foo"));
}

#[test]
fn help_checks_conformance_of_its_common_members() {
    let rdap = RdapResponse::Help(Help { common: Common { rdap_conformance: None, notices: None } });
    let checks: Checks = rdap.get_checks(CheckParams::for_rdap(&rdap));
    assert_eq!(checks.rdap_struct, RdapStructure::Help);
    assert!(checks
        .sub(RdapStructure::RdapConformance)
        .expect("conformance not found")
        .items
        .iter()
        .any(|c| c.check == Check::RdapConformanceMissing));
}
