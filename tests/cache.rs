use rdap_bootstrap::{
    decode_cache_file, encode_cache_file, CacheFile, CacheLookup, IanaRegistryType, RegistryCache,
    RunOutcome, BOOTSTRAP_TTL_SECS,
};

fn fresh_body(l: CacheLookup) -> Option<String> {
    match l {
        CacheLookup::Fresh(b) => Some(b),
        CacheLookup::Refetch => None,
    }
}

#[test]
fn empty_cache_asks_for_a_fetch() {
    let cache = RegistryCache::new();
    assert!(fresh_body(cache.lookup(IanaRegistryType::RdapBootstrapDns, 0)).is_none());
}

#[test]
fn stored_document_is_fresh_until_seven_days_pass() {
    let now: u64 = 1_700_000_000;
    let mut cache = RegistryCache::new();
    cache.store(IanaRegistryType::RdapBootstrapAsn, "{\"services\":[]}".to_string(), now);
    assert_eq!(BOOTSTRAP_TTL_SECS, 604800);
    assert_eq!(
        fresh_body(cache.lookup(IanaRegistryType::RdapBootstrapAsn, now)),
        Some("{\"services\":[]}".to_string())
    );
    assert_eq!(
        fresh_body(cache.lookup(IanaRegistryType::RdapBootstrapAsn, now + 604799)),
        Some("{\"services\":[]}".to_string())
    );
    assert!(fresh_body(cache.lookup(IanaRegistryType::RdapBootstrapAsn, now + 604800)).is_none());
}

#[test]
fn stale_slot_costs_one_fetch() {
    let now: u64 = 1_700_000_000;
    let later = now + 604800;
    let mut cache = RegistryCache::new();
    cache.store(IanaRegistryType::RdapBootstrapIpv4, "old".to_string(), now);
    let mut fetches = 0;
    for t in [later, later + 1, later + 2] {
        if fresh_body(cache.lookup(IanaRegistryType::RdapBootstrapIpv4, t)).is_none() {
            fetches += 1;
            cache.store(IanaRegistryType::RdapBootstrapIpv4, "new".to_string(), t);
        }
    }
    assert_eq!(fetches, 1);
    assert_eq!(
        fresh_body(cache.lookup(IanaRegistryType::RdapBootstrapIpv4, later + 3)),
        Some("new".to_string())
    );
}

#[test]
fn slots_are_kept_per_registry_type() {
    let mut cache = RegistryCache::new();
    cache.store(IanaRegistryType::RdapBootstrapIpv6, "v6".to_string(), 10);
    assert!(fresh_body(cache.lookup(IanaRegistryType::RdapBootstrapIpv4, 10)).is_none());
    assert!(fresh_body(cache.lookup(IanaRegistryType::RdapObjectTags, 10)).is_none());
    assert_eq!(
        fresh_body(cache.lookup(IanaRegistryType::RdapBootstrapIpv6, 10)),
        Some("v6".to_string())
    );
}

#[test]
fn run_outcomes_as_markdown() {
    assert_eq!(RunOutcome::Tested.to_md(), "**TESTED**");
    assert_eq!(RunOutcome::Skipped.to_md(), "SKIPPED");
    assert_eq!(RunOutcome::NetworkError.to_md(), "*NETWORK_ERROR*");
    assert_eq!(RunOutcome::RdapDataError.to_md(), "*RDAP_DATA_ERROR*");
}

#[test]
fn cache_file_round_trip() {
    let f = CacheFile {
        received: 1_700_000_000,
        host: "data.iana.org".to_string(),
        content_type: "application/json".to_string(),
        body: "{\n  \"services\": []\n}".to_string(),
    };
    let text = encode_cache_file(&f);
    assert_eq!(
        text,
        "1700000000\ndata.iana.org\napplication/json\n{\n  \"services\": []\n}"
    );
    let back = decode_cache_file(&text).expect("cache file does not read back");
    assert_eq!(back.received, 1_700_000_000);
    assert_eq!(back.host, "data.iana.org");
    assert_eq!(back.content_type, "application/json");
    assert_eq!(back.body, f.body);
}

#[test]
fn cache_file_without_header_is_refused() {
    assert!(decode_cache_file("{}").is_none());
    assert!(decode_cache_file("12\nhost\n").is_none());
    assert!(decode_cache_file("x12\nhost\ntype\nbody").is_none());
    let f = decode_cache_file("0\n\n\n").expect("empty fields read");
    assert_eq!(f.received, 0);
    assert_eq!(f.body, "");
}
