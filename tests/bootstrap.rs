#![allow(non_snake_case)]

use rdap_bootstrap::{
    bootstrap_step, get_asn_bootstrap_urls, get_domain_bootstrap_urls,
    get_entity_handle_bootstrap_urls, get_ipv4_bootstrap_urls, get_ipv6_bootstrap_urls,
    get_preferred_url, get_tag_bootstrap_urls, resolve_with_registry, BootstrapError,
    BootstrapStep, BootstrapType, IanaRegistry, IanaRegistryType, QueryType,
};

/// Builds a registry from the text of a bootstrap document.
fn registry(json: &str) -> IanaRegistry {
    let doc: serde_json::Value = serde_json::from_str(json).expect("bootstrap is not JSON");
    let services = doc["services"]
        .as_array()
        .expect("no services")
        .iter()
        .map(|service| {
            service
                .as_array()
                .expect("service is not a list")
                .iter()
                .map(|part| {
                    part.as_array()
                        .expect("part is not a list")
                        .iter()
                        .map(|s| s.as_str().expect("not a string").to_string())
                        .collect()
                })
                .collect()
        })
        .collect();
    IanaRegistry { services }
}

fn strings(v: &[&str]) -> Vec<String> {
    v.iter().map(|s| s.to_string()).collect()
}

const DOMAIN_BOOTSTRAP: &str = r#"
    {
        "version": "1.0",
        "publication": "2024-01-07T10:11:12Z",
        "description": "Some text",
        "services": [
          [
            ["net", "com"],
            [
              "https://registry.example.com/myrdap/"
            ]
          ],
          [
            ["org", "mytld"],
            [
              "https://example.org/"
            ]
          ]
        ]
    }
"#;

const AUTNUM_BOOTSTRAP: &str = r#"
    {
        "version": "1.0",
        "publication": "2024-01-07T10:11:12Z",
        "description": "RDAP Bootstrap file for example registries.",
        "services": [
          [
            ["64496-64496"],
            [
              "https://rir3.example.com/myrdap/"
            ]
          ],
          [
            ["64497-64510", "65536-65551"],
            [
              "https://example.org/"
            ]
          ],
          [
            ["64512-65534"],
            [
              "http://example.net/rdaprir2/",
              "https://example.net/rdaprir2/"
            ]
          ]
        ]
    }
"#;

const IPV4_BOOTSTRAP: &str = r#"
    {
        "version": "1.0",
        "publication": "2024-01-07T10:11:12Z",
        "description": "RDAP Bootstrap file for example registries.",
        "services": [
          [
            ["198.51.100.0/24", "192.0.0.0/8"],
            [
              "https://rir1.example.com/myrdap/"
            ]
          ],
          [
            ["203.0.113.0/24", "192.0.2.0/24"],
            [
              "https://example.org/"
            ]
          ],
          [
            ["203.0.113.0/28"],
            [
              "https://example.net/rdaprir2/",
              "http://example.net/rdaprir2/"
            ]
          ]
        ]
    }
"#;

const IPV6_BOOTSTRAP: &str = r#"
    {
        "version": "1.0",
        "publication": "2024-01-07T10:11:12Z",
        "description": "RDAP Bootstrap file for example registries.",
        "services": [
          [
            ["2001:db8::/34"],
            [
              "https://rir2.example.com/myrdap/"
            ]
          ],
          [
            ["2001:db8:4000::/36", "2001:db8:ffff::/48"],
            [
              "https://example.org/"
            ]
          ],
          [
            ["2001:db8:1000::/36"],
            [
              "https://example.net/rdaprir2/",
              "http://example.net/rdaprir2/"
            ]
          ]
        ]
    }
"#;

const TAG_BOOTSTRAP: &str = r#"
    {
      "version": "1.0",
      "publication": "YYYY-MM-DDTHH:MM:SSZ",
      "description": "RDAP bootstrap file for service provider object tags",
      "services": [
        [
          ["contact@example.com"],
          ["YYYY"],
          [
            "https://example.com/rdap/"
          ]
        ],
        [
          ["contact@example.org"],
          ["ZZ54"],
          [
            "http://rdap.example.org/"
          ]
        ],
        [
          ["contact@example.net"],
          ["1754"],
          [
            "https://example.net/rdap/",
            "http://example.net/rdap/"
          ]
        ]
      ]
     }
"#;

#[test]
fn GIVEN_one_url_WHEN_preferred_urls_THEN_that_is_the_one() {
    let urls = vec!["http://foo.example".to_string()];
    let actual = get_preferred_url(urls).expect("cannot get preferred url");
    assert_eq!(actual, "http://foo.example");
}

#[test]
fn GIVEN_one_http_and_https_url_WHEN_preferred_urls_THEN_return_https() {
    let urls = vec![
        "http://foo.example".to_string(),
        "https://foo.example".to_string(),
    ];
    let actual = get_preferred_url(urls).expect("cannot get preferred url");
    assert_eq!(actual, "https://foo.example");
}

#[test]
fn GIVEN_domain_bootstrap_with_matching_WHEN_find_THEN_url_matches() {
    let iana = registry(DOMAIN_BOOTSTRAP);
    let actual = get_domain_bootstrap_urls(iana, &QueryType::Domain("foo.org".to_string()));
    assert_eq!(
        actual.expect("no vec").first().expect("vec is empty"),
        "https://example.org/"
    );
}

#[test]
fn GIVEN_domain_bootstrap_with_two_matching_WHEN_find_THEN_return_longest_match() {
    let iana = registry(
        r#"
            {
                "version": "1.0",
                "publication": "2024-01-07T10:11:12Z",
                "description": "Some text",
                "services": [
                  [
                    ["co.uk"],
                    [
                      "https://registry.co.uk/"
                    ]
                  ],
                  [
                    ["uk"],
                    [
                      "https://registry.uk/"
                    ]
                  ]
                ]
            }
        "#,
    );
    let actual = get_domain_bootstrap_urls(iana, &QueryType::Domain("foo.co.uk".to_string()));
    assert_eq!(
        actual.expect("no vec").first().expect("vec is empty"),
        "https://registry.co.uk/"
    );
}

#[test]
fn GIVEN_autnum_bootstrap_with_match_WHEN_find_with_string_THEN_return_match() {
    let iana = registry(AUTNUM_BOOTSTRAP);
    let actual = get_asn_bootstrap_urls(iana, &QueryType::AsNumber("as64498".to_string()));
    assert_eq!(
        actual.expect("no vec").first().expect("vec is empty"),
        "https://example.org/"
    );
}

#[test]
fn GIVEN_autnum_bootstrap_with_match_WHEN_find_with_number_THEN_return_match() {
    let iana = registry(AUTNUM_BOOTSTRAP);
    let actual = get_asn_bootstrap_urls(iana, &QueryType::AsNumber("64498".to_string()));
    assert_eq!(
        actual.expect("no vec").first().expect("vec is empty"),
        "https://example.org/"
    );
}

#[test]
fn GIVEN_ipv4_bootstrap_with_match_WHEN_find_with_ip_address_THEN_return_match() {
    let iana = registry(IPV4_BOOTSTRAP);
    let actual = get_ipv4_bootstrap_urls(iana, &QueryType::IpV4Addr("198.51.100.1".to_string()));
    assert_eq!(
        actual.expect("no vec").first().expect("vec is empty"),
        "https://rir1.example.com/myrdap/"
    );
}

#[test]
fn GIVEN_ipv4_bootstrap_with_match_WHEN_find_with_cidr_THEN_return_match() {
    let iana = registry(IPV4_BOOTSTRAP);
    let actual = get_ipv4_bootstrap_urls(iana, &QueryType::IpV4Cidr("203.0.113.0/24".to_string()));
    assert_eq!(
        actual.expect("no vec").first().expect("vec is empty"),
        "https://example.org/"
    );
}

#[test]
fn GIVEN_ipv6_bootstrap_with_match_WHEN_find_with_ip_address_THEN_return_match() {
    let iana = registry(IPV6_BOOTSTRAP);
    let actual = get_ipv6_bootstrap_urls(iana, &QueryType::IpV6Addr("2001:db8::1".to_string()));
    assert_eq!(
        actual.expect("no vec").first().expect("vec is empty"),
        "https://rir2.example.com/myrdap/"
    );
}

#[test]
fn GIVEN_ipv6_bootstrap_with_match_WHEN_find_with_ip_cidr_THEN_return_match() {
    let iana = registry(IPV6_BOOTSTRAP);
    let actual =
        get_ipv6_bootstrap_urls(iana, &QueryType::IpV6Cidr("2001:db8:4000::/36".to_string()));
    assert_eq!(
        actual.expect("no vec").first().expect("vec is empty"),
        "https://example.org/"
    );
}

#[test]
fn GIVEN_tag_bootstrap_with_match_WHEN_find_with_tag_THEN_return_match() {
    let iana = registry(TAG_BOOTSTRAP);
    let actual = get_tag_bootstrap_urls(iana, "YYYY");
    assert_eq!(
        actual.expect("no vec").first().expect("vec is empty"),
        "https://example.com/rdap/"
    );
}

#[test]
fn preferred_url_picks_https_after_http() {
    let actual = get_preferred_url(strings(&["http://a", "https://b"]));
    assert_eq!(actual, Ok("https://b".to_string()));
}

#[test]
fn preferred_url_keeps_lone_http() {
    assert_eq!(get_preferred_url(strings(&["http://a"])), Ok("http://a".to_string()));
}

#[test]
fn preferred_url_of_empty_list_is_invalid() {
    assert_eq!(get_preferred_url(vec![]), Err(BootstrapError::InvalidBootstrap));
}

#[test]
fn preferred_url_takes_first_of_several_https() {
    let actual = get_preferred_url(strings(&["http://a", "https://b", "https://c"]));
    assert_eq!(actual, Ok("https://b".to_string()));
}

#[test]
fn longest_domain_suffix_wins_whatever_the_order() {
    let iana = IanaRegistry {
        services: vec![
            vec![strings(&["uk"]), strings(&["https://x.example/"])],
            vec![strings(&["co.uk"]), strings(&["https://y.example/"])],
        ],
    };
    let actual = get_domain_bootstrap_urls(iana, &QueryType::Domain("foo.co.uk".to_string()));
    assert_eq!(actual, Ok(strings(&["https://y.example/"])));
}

#[test]
fn equal_domain_suffixes_keep_the_first() {
    let iana = IanaRegistry {
        services: vec![
            vec![strings(&["uk"]), strings(&["https://x.example/"])],
            vec![strings(&["uk"]), strings(&["https://y.example/"])],
        ],
    };
    let actual = get_domain_bootstrap_urls(iana, &QueryType::Nameserver("ns.foo.uk".to_string()));
    assert_eq!(actual, Ok(strings(&["https://x.example/"])));
}

#[test]
fn domain_without_suffix_is_not_found() {
    let iana = registry(DOMAIN_BOOTSTRAP);
    let actual = get_domain_bootstrap_urls(iana, &QueryType::Domain("foo.example".to_string()));
    assert_eq!(actual, Err(BootstrapError::BootstrapNotFound));
}

#[test]
fn domain_service_without_urls_is_invalid() {
    let iana = IanaRegistry {
        services: vec![
            vec![strings(&["org"]), strings(&["https://example.org/"])],
            vec![strings(&["com"]), vec![]],
        ],
    };
    let actual = get_domain_bootstrap_urls(iana, &QueryType::Domain("foo.org".to_string()));
    assert_eq!(actual, Err(BootstrapError::InvalidBootstrap));
}

#[test]
fn autnum_outside_every_range_is_not_found() {
    let iana = registry(AUTNUM_BOOTSTRAP);
    let actual = get_asn_bootstrap_urls(iana, &QueryType::AsNumber("64511".to_string()));
    assert_eq!(actual, Err(BootstrapError::BootstrapNotFound));
}

#[test]
fn autnum_upper_case_marker_and_range_ends() {
    let iana = registry(AUTNUM_BOOTSTRAP);
    let actual = get_asn_bootstrap_urls(iana, &QueryType::AsNumber("AS64510".to_string()));
    assert_eq!(actual, Ok(strings(&["https://example.org/"])));
    let iana = registry(AUTNUM_BOOTSTRAP);
    let actual = get_asn_bootstrap_urls(iana, &QueryType::AsNumber("64497".to_string()));
    assert_eq!(actual, Ok(strings(&["https://example.org/"])));
}

#[test]
fn autnum_only_first_range_of_a_service_counts() {
    let iana = registry(AUTNUM_BOOTSTRAP);
    let actual = get_asn_bootstrap_urls(iana, &QueryType::AsNumber("65540".to_string()));
    assert_eq!(actual, Err(BootstrapError::BootstrapNotFound));
}

#[test]
fn autnum_query_that_is_no_number_is_invalid() {
    let iana = registry(AUTNUM_BOOTSTRAP);
    let actual = get_asn_bootstrap_urls(iana, &QueryType::AsNumber("as64x98".to_string()));
    assert_eq!(actual, Err(BootstrapError::InvalidBootstrap));
    let iana = registry(AUTNUM_BOOTSTRAP);
    let actual = get_asn_bootstrap_urls(iana, &QueryType::AsNumber("4294967296".to_string()));
    assert_eq!(actual, Err(BootstrapError::InvalidBootstrap));
}

#[test]
fn autnum_range_that_is_no_number_is_invalid() {
    let iana = IanaRegistry {
        services: vec![vec![strings(&["1-x"]), strings(&["https://example.org/"])]],
    };
    let actual = get_asn_bootstrap_urls(iana, &QueryType::AsNumber("1".to_string()));
    assert_eq!(actual, Err(BootstrapError::InvalidBootstrap));
}

#[test]
fn autnum_marker_is_one_leading_as_only() {
    for q in ["s64498", "AsAs64498", "sa64498", "a64498", "aS"] {
        let iana = registry(AUTNUM_BOOTSTRAP);
        let actual = get_asn_bootstrap_urls(iana, &QueryType::AsNumber(q.to_string()));
        assert_eq!(actual, Err(BootstrapError::InvalidBootstrap), "query {q}");
    }
    let iana = registry(AUTNUM_BOOTSTRAP);
    let actual = get_asn_bootstrap_urls(iana, &QueryType::AsNumber("aS64498".to_string()));
    assert_eq!(actual, Ok(strings(&["https://example.org/"])));
}

#[test]
fn autnum_range_key_needs_exactly_one_hyphen() {
    for key in ["64498", "1-2-64500", "-64498", "64498-"] {
        let iana = IanaRegistry {
            services: vec![vec![strings(&[key]), strings(&["https://example.org/"])]],
        };
        let actual = get_asn_bootstrap_urls(iana, &QueryType::AsNumber("64498".to_string()));
        assert_eq!(actual, Err(BootstrapError::InvalidBootstrap), "key {key}");
    }
}

#[test]
fn autnum_largest_number_is_found() {
    let iana = IanaRegistry {
        services: vec![vec![
            strings(&["4294967290-4294967295"]),
            strings(&["https://example.org/"]),
        ]],
    };
    let actual = get_asn_bootstrap_urls(iana, &QueryType::AsNumber("4294967295".to_string()));
    assert_eq!(actual, Ok(strings(&["https://example.org/"])));
}

#[test]
fn longest_ipv4_prefix_wins() {
    let iana = IanaRegistry {
        services: vec![
            vec![strings(&["198.51.100.0/24"]), strings(&["https://x.example/"])],
            vec![strings(&["192.0.0.0/8"]), strings(&["https://y.example/"])],
            vec![strings(&["198.51.100.0/28"]), strings(&["https://z.example/"])],
        ],
    };
    let actual = get_ipv4_bootstrap_urls(iana, &QueryType::IpV4Addr("198.51.100.1".to_string()));
    assert_eq!(actual, Ok(strings(&["https://z.example/"])));
}

#[test]
fn ipv4_address_outside_every_prefix_is_not_found() {
    let iana = registry(IPV4_BOOTSTRAP);
    let actual = get_ipv4_bootstrap_urls(iana, &QueryType::IpV4Addr("10.0.0.1".to_string()));
    assert_eq!(actual, Err(BootstrapError::BootstrapNotFound));
}

#[test]
fn ipv4_query_that_is_no_address_is_invalid() {
    let iana = registry(IPV4_BOOTSTRAP);
    let actual = get_ipv4_bootstrap_urls(iana, &QueryType::IpV4Addr("198.51.100".to_string()));
    assert_eq!(actual, Err(BootstrapError::InvalidBootstrap));
}

#[test]
fn ipv4_key_that_is_no_block_is_invalid() {
    let iana = IanaRegistry {
        services: vec![vec![strings(&["198.51.100.0/33"]), strings(&["https://x.example/"])]],
    };
    let actual = get_ipv4_bootstrap_urls(iana, &QueryType::IpV4Addr("198.51.100.1".to_string()));
    assert_eq!(actual, Err(BootstrapError::InvalidBootstrap));
}

#[test]
fn ipv6_nested_prefix_wins() {
    let iana = registry(IPV6_BOOTSTRAP);
    let actual = get_ipv6_bootstrap_urls(iana, &QueryType::IpV6Addr("2001:db8:1000::1".to_string()));
    assert_eq!(
        actual,
        Ok(strings(&["https://example.net/rdaprir2/", "http://example.net/rdaprir2/"]))
    );
}

#[test]
fn tag_matches_without_regard_to_case() {
    let iana = registry(TAG_BOOTSTRAP);
    let actual = get_tag_bootstrap_urls(iana, "yyyy");
    assert_eq!(actual, Ok(strings(&["https://example.com/rdap/"])));
}

#[test]
fn unknown_tag_is_not_found() {
    let iana = registry(TAG_BOOTSTRAP);
    assert_eq!(get_tag_bootstrap_urls(iana, "QQQQ"), Err(BootstrapError::BootstrapNotFound));
}

#[test]
fn entity_handle_uses_text_after_last_hyphen() {
    let iana = registry(TAG_BOOTSTRAP);
    let actual =
        get_entity_handle_bootstrap_urls(iana, &QueryType::Entity("XXXX-1-zz54".to_string()));
    assert_eq!(actual, Ok(strings(&["http://rdap.example.org/"])));
}

#[test]
fn entity_handle_without_hyphen_is_not_found() {
    let iana = registry(TAG_BOOTSTRAP);
    let actual = get_entity_handle_bootstrap_urls(iana, &QueryType::Entity("NOHYPHEN".to_string()));
    assert_eq!(actual, Err(BootstrapError::BootstrapNotFound));
    let step = bootstrap_step(&BootstrapType::FromQuery, &QueryType::Entity("NOHYPHEN".to_string()));
    assert!(matches!(step, BootstrapStep::Done(Err(BootstrapError::BootstrapNotFound))));
}

#[test]
fn url_query_short_circuits_every_override() {
    let q = QueryType::Url("https://rdap.example/domain/x".to_string());
    for bt in [
        BootstrapType::FromQuery,
        BootstrapType::Url("https://other.example/".to_string()),
        BootstrapType::Tag("YYYY".to_string()),
    ] {
        match bootstrap_step(&bt, &q) {
            BootstrapStep::Done(Ok(u)) => assert_eq!(u, "https://rdap.example/domain/x"),
            _ => panic!("url query went to a registry"),
        }
    }
}

#[test]
fn url_override_is_returned_verbatim() {
    let step = bootstrap_step(
        &BootstrapType::Url("https://other.example/".to_string()),
        &QueryType::Domain("foo.org".to_string()),
    );
    assert!(matches!(step, BootstrapStep::Done(Ok(u)) if u == "https://other.example/"));
}

#[test]
fn queries_go_to_their_registries() {
    let cases = [
        (QueryType::IpV4Addr("192.0.2.1".to_string()), IanaRegistryType::RdapBootstrapIpv4),
        (QueryType::IpV6Cidr("2001:db8::/32".to_string()), IanaRegistryType::RdapBootstrapIpv6),
        (QueryType::AsNumber("AS1".to_string()), IanaRegistryType::RdapBootstrapAsn),
        (QueryType::Nameserver("ns.foo.org".to_string()), IanaRegistryType::RdapBootstrapDns),
        (QueryType::Entity("X-YYYY".to_string()), IanaRegistryType::RdapObjectTags),
    ];
    for (q, t) in cases {
        assert!(matches!(bootstrap_step(&BootstrapType::FromQuery, &q), BootstrapStep::Registry(r) if r == t));
    }
    let step = bootstrap_step(&BootstrapType::Tag("YYYY".to_string()), &QueryType::Domain("foo.org".to_string()));
    assert!(matches!(step, BootstrapStep::Registry(IanaRegistryType::RdapObjectTags)));
    let step = bootstrap_step(&BootstrapType::FromQuery, &QueryType::Help);
    assert!(matches!(step, BootstrapStep::Done(Err(BootstrapError::BootstrapNotFound))));
}

#[test]
fn resolution_prefers_https_of_matched_service() {
    let actual = resolve_with_registry(
        &BootstrapType::FromQuery,
        &QueryType::AsNumber("as64600".to_string()),
        registry(AUTNUM_BOOTSTRAP),
    );
    assert_eq!(actual, Ok("https://example.net/rdaprir2/".to_string()));
}

#[test]
fn tag_override_ignores_query_shape() {
    let actual = resolve_with_registry(
        &BootstrapType::Tag("1754".to_string()),
        &QueryType::Domain("foo.org".to_string()),
        registry(TAG_BOOTSTRAP),
    );
    assert_eq!(actual, Ok("https://example.net/rdap/".to_string()));
}

#[test]
fn bootstrap_errors_have_their_exit_codes() {
    assert_eq!(BootstrapError::InvalidBootstrap.exit_code(), 102);
    assert_eq!(BootstrapError::BootstrapNotFound.exit_code(), 103);
}
