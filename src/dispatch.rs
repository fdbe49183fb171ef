//! Routing of a query to the registry and matcher that resolve it. Resolution runs in two
//! steps so that fetching a registry stays with the caller: `bootstrap_step` says which
//! registry is needed, if any, and `resolve_with_registry` finishes with that registry.

use vstd::prelude::*;
use crate::autnum::{as_number_of, asn_outcome, get_asn_bootstrap_urls};
use crate::domain::{domain_of, domain_outcome, get_domain_bootstrap_urls};
use crate::ip::{
    get_ipv4_bootstrap_urls, get_ipv6_bootstrap_urls, ip_outcome, ipv4_query_net, ipv6_query_net,
};
use crate::registry::{
    get_preferred_url, preferred_url, urls_result, BootstrapError, IanaRegistry, IanaRegistryType,
    QueryType, ServiceView,
};
use crate::text::{after_last_index_of, is_after_last_index};
use crate::tag::{get_tag_bootstrap_urls, handle_tag, tag_of_handle, tag_outcome};

verus! {

/// How the server for a query is chosen.
pub enum BootstrapType {
    /// From the query, through the IANA registries.
    FromQuery,
    /// This base URL, as given.
    Url(String),
    /// Through the object-tag registry, with this tag, whatever the query.
    Tag(String),
}

/// What resolution needs next.
pub enum BootstrapStep {
    /// Resolution is over, with this result.
    Done(Result<String, BootstrapError>),
    /// The registry of this type is needed.
    Registry(IanaRegistryType),
}

/// The registry that resolving `q` under `bt` reads, if any.
pub open spec fn needed_registry(bt: BootstrapType, q: QueryType) -> Option<IanaRegistryType> {
    match q {
        QueryType::Url(_) => None,
        _ => match bt {
            BootstrapType::Url(_) => None,
            BootstrapType::Tag(_) => Some(IanaRegistryType::RdapObjectTags),
            BootstrapType::FromQuery => match q {
                QueryType::IpV4Addr(_) | QueryType::IpV4Cidr(_) => Some(
                    IanaRegistryType::RdapBootstrapIpv4,
                ),
                QueryType::IpV6Addr(_) | QueryType::IpV6Cidr(_) => Some(
                    IanaRegistryType::RdapBootstrapIpv6,
                ),
                QueryType::AsNumber(_) => Some(IanaRegistryType::RdapBootstrapAsn),
                QueryType::Domain(_) | QueryType::Nameserver(_) => Some(
                    IanaRegistryType::RdapBootstrapDns,
                ),
                QueryType::Entity(h) => if handle_tag(h@) is Some {
                    Some(IanaRegistryType::RdapObjectTags)
                } else {
                    None
                },
                _ => None,
            },
        },
    }
}

/// The result of resolving `q` under `bt` when no registry is read: a URL query gives its
/// URL, whatever the override; a URL override gives that URL; anything else that reads no
/// registry (a handle without a tag, a query kind that has no registry) is
/// `BootstrapNotFound`.
pub open spec fn direct_result(bt: BootstrapType, q: QueryType) -> Result<Seq<char>, BootstrapError> {
    match q {
        QueryType::Url(u) => Ok(u@),
        _ => match bt {
            BootstrapType::Url(u) => Ok(u@),
            _ => Err(BootstrapError::BootstrapNotFound),
        },
    }
}

/// What the matcher for `q` under `bt` gives on the registry `svcs`.
pub open spec fn matcher_outcome(
    bt: BootstrapType,
    q: QueryType,
    svcs: Seq<ServiceView>,
    u: Result<Seq<Seq<char>>, BootstrapError>,
) -> bool {
    match bt {
        BootstrapType::Tag(t) => tag_outcome(svcs, t@, u),
        _ => match q {
            QueryType::IpV4Addr(_) | QueryType::IpV4Cidr(_) => ip_outcome(svcs, 32, ipv4_query_net(q), u),
            QueryType::IpV6Addr(_) | QueryType::IpV6Cidr(_) => ip_outcome(svcs, 128, ipv6_query_net(q), u),
            QueryType::AsNumber(a) => match as_number_of(a@) {
                Some(n) => asn_outcome(svcs, n, u),
                None => u == Err::<Seq<Seq<char>>, BootstrapError>(BootstrapError::InvalidBootstrap),
            },
            QueryType::Domain(_) | QueryType::Nameserver(_) => domain_outcome(svcs, domain_of(q), u),
            QueryType::Entity(h) => tag_outcome(svcs, handle_tag(h@)->Some_0, u),
            _ => false,
        },
    }
}

/// A matcher's URL list turned into the one URL to contact.
pub open spec fn then_preferred(u: Result<Seq<Seq<char>>, BootstrapError>) -> Result<Seq<char>, BootstrapError> {
    match u {
        Err(e) => Err(e),
        Ok(urls) => match preferred_url(urls) {
            Some(url) => Ok(url),
            None => Err(BootstrapError::InvalidBootstrap),
        },
    }
}

/// Resolving `q` under `bt` with the registry `svcs` gives `r`.
pub open spec fn resolution_outcome(
    bt: BootstrapType,
    q: QueryType,
    svcs: Seq<ServiceView>,
    r: Result<Seq<char>, BootstrapError>,
) -> bool {
    exists|u: Result<Seq<Seq<char>>, BootstrapError>|
        #[trigger] matcher_outcome(bt, q, svcs, u) && r == then_preferred(u)
}

pub open spec fn url_result(r: Result<String, BootstrapError>) -> Result<Seq<char>, BootstrapError> {
    match r {
        Ok(u) => Ok(u@),
        Err(e) => Err(e),
    }
}

/// An entity handle without a hyphen resolves to `BootstrapNotFound` without any registry
/// being read.
pub proof fn lemma_handle_without_hyphen(h: String)
    requires
        forall|i: int| 0 <= i < h@.len() ==> h@[i] != '-',
    ensures
        needed_registry(BootstrapType::FromQuery, QueryType::Entity(h)) is None,
        direct_result(BootstrapType::FromQuery, QueryType::Entity(h)) == Err::<Seq<char>, BootstrapError>(
            BootstrapError::BootstrapNotFound,
        ),
{
    assert(is_after_last_index(h@, '-', 0));
    let k = after_last_index_of(h@, '-');
    assert(is_after_last_index(h@, '-', k));
    if k > 0 {
        assert(h@[k - 1] == '-');
    }
}

/// The first step of resolution: the registry to read, or the result when none is read.
pub fn bootstrap_step(bootstrap_type: &BootstrapType, query_type: &QueryType) -> (r: BootstrapStep)
    ensures
        r matches BootstrapStep::Registry(t) ==> needed_registry(*bootstrap_type, *query_type) == Some(t),
        r matches BootstrapStep::Done(res) ==> needed_registry(*bootstrap_type, *query_type) is None
            && url_result(res) == direct_result(*bootstrap_type, *query_type),
{
    if let QueryType::Url(url) = query_type {
        return BootstrapStep::Done(Ok(url.clone()));
    }
    match bootstrap_type {
        BootstrapType::Url(url) => BootstrapStep::Done(Ok(url.clone())),
        BootstrapType::Tag(_) => BootstrapStep::Registry(IanaRegistryType::RdapObjectTags),
        BootstrapType::FromQuery => match query_type {
            QueryType::IpV4Addr(_) | QueryType::IpV4Cidr(_) => BootstrapStep::Registry(
                IanaRegistryType::RdapBootstrapIpv4,
            ),
            QueryType::IpV6Addr(_) | QueryType::IpV6Cidr(_) => BootstrapStep::Registry(
                IanaRegistryType::RdapBootstrapIpv6,
            ),
            QueryType::AsNumber(_) => BootstrapStep::Registry(IanaRegistryType::RdapBootstrapAsn),
            QueryType::Domain(_) | QueryType::Nameserver(_) => BootstrapStep::Registry(
                IanaRegistryType::RdapBootstrapDns,
            ),
            QueryType::Entity(handle) => match tag_of_handle(handle.as_str()) {
                Some(_) => BootstrapStep::Registry(IanaRegistryType::RdapObjectTags),
                None => BootstrapStep::Done(Err(BootstrapError::BootstrapNotFound)),
            },
            _ => BootstrapStep::Done(Err(BootstrapError::BootstrapNotFound)),
        },
    }
}

fn prefer(urls: Result<Vec<String>, BootstrapError>) -> (r: Result<String, BootstrapError>)
    ensures
        url_result(r) == then_preferred(urls_result(urls)),
{
    match urls {
        Err(e) => Err(e),
        Ok(v) => get_preferred_url(v),
    }
}

/// The second step of resolution: runs the matcher that the query and the override call
/// for on the registry that `bootstrap_step` asked for, and picks the URL to contact.
pub fn resolve_with_registry(
    bootstrap_type: &BootstrapType,
    query_type: &QueryType,
    iana: IanaRegistry,
) -> (r: Result<String, BootstrapError>)
    requires
        needed_registry(*bootstrap_type, *query_type) is Some,
    ensures
        resolution_outcome(*bootstrap_type, *query_type, iana@, url_result(r)),
{
    let ghost svcs = iana@;
    let urls = match bootstrap_type {
        BootstrapType::Tag(tag) => get_tag_bootstrap_urls(iana, tag.as_str()),
        _ => match query_type {
            QueryType::IpV4Addr(_) | QueryType::IpV4Cidr(_) => get_ipv4_bootstrap_urls(iana, query_type),
            QueryType::IpV6Addr(_) | QueryType::IpV6Cidr(_) => get_ipv6_bootstrap_urls(iana, query_type),
            QueryType::AsNumber(_) => get_asn_bootstrap_urls(iana, query_type),
            QueryType::Domain(_) | QueryType::Nameserver(_) => get_domain_bootstrap_urls(iana, query_type),
            QueryType::Entity(handle) => match tag_of_handle(handle.as_str()) {
                Some(t) => get_tag_bootstrap_urls(iana, t.as_str()),
                None => Err(BootstrapError::BootstrapNotFound),
            },
            _ => Err(BootstrapError::BootstrapNotFound),
        },
    };
    assert(matcher_outcome(*bootstrap_type, *query_type, svcs, urls_result(urls)));
    prefer(urls)
}

} // verus!
