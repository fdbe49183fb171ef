//! Bootstrap resolution for RDAP queries: given a query and the IANA bootstrap
//! registries, find the base URL of the authoritative RDAP server.
//!
//! Each matcher follows the protocol's rule for its registry: the longest suffix for domain
//! names, the longest prefix for IP addresses and blocks, the first containing range for
//! AS numbers, and the first equal tag for entities. A registry cache serves a fetched
//! document for seven days. Beside resolution, the crate holds structural checks of RDAP
//! responses and the reading of DS data.

pub mod text;
pub mod registry;
pub mod autnum;
pub mod tag;
pub mod domain;
pub mod ip;
pub mod dispatch;
pub mod cache;
pub mod response;
pub mod checks;
pub mod results;
pub mod ds;

pub use autnum::get_asn_bootstrap_urls;
pub use cache::{
    decode_cache_file, encode_cache_file, CacheFile, CacheLookup, CacheRecord, RegistryCache,
    BOOTSTRAP_TTL_SECS,
};
pub use checks::{
    rdap_has_expected_extension, Check, CheckItem, CheckParams, Checks, ObjectKind, RdapStructure,
};
pub use dispatch::{bootstrap_step, resolve_with_registry, BootstrapStep, BootstrapType};
pub use domain::get_domain_bootstrap_urls;
pub use ds::{parse_ds_datum, DsDatum, RdapServerError};
pub use ip::{get_ipv4_bootstrap_urls, get_ipv6_bootstrap_urls};
pub use registry::{get_preferred_url, BootstrapError, IanaRegistry, IanaRegistryType, QueryType};
pub use response::{
    Common, Domain, Event, Extension, Help, Link, Nameserver, Notice, NoticeOrRemark, ObjectCommon,
    PublicId, RdapResponse, Remark, StatusValue, StringOrStringArray,
};
pub use results::RunOutcome;
pub use tag::{get_entity_handle_bootstrap_urls, get_tag_bootstrap_urls};
