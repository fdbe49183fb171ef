//! The bootstrap registry document, its errors, and the choice among a service's URLs.

use vstd::prelude::*;
use crate::text::{copy_strings, starts_with};

verus! {

/// What can go wrong while resolving a query against a bootstrap registry.
#[derive(Debug, Clone, Copy, PartialEq, Eq, Structural)]
pub enum BootstrapError {
    /// The registry was read, but no service matches the query.
    BootstrapNotFound,
    /// The registry, or the query, is not in the shape that resolution needs.
    InvalidBootstrap,
}

impl BootstrapError {
    /// The process exit code that the command line reports for this error.
    pub fn exit_code(&self) -> (r: u8)
        ensures
            *self == BootstrapError::InvalidBootstrap ==> r == 102,
            *self == BootstrapError::BootstrapNotFound ==> r == 103,
    {
        match self {
            BootstrapError::InvalidBootstrap => 102,
            BootstrapError::BootstrapNotFound => 103,
        }
    }
}

/// The five bootstrap documents that IANA publishes.
#[derive(Debug, Clone, Copy, PartialEq, Eq, Structural)]
pub enum IanaRegistryType {
    RdapBootstrapDns,
    RdapBootstrapAsn,
    RdapBootstrapIpv4,
    RdapBootstrapIpv6,
    RdapObjectTags,
}

/// A query, already classified, with its subject text.
pub enum QueryType {
    IpV4Addr(String),
    IpV4Cidr(String),
    IpV6Addr(String),
    IpV6Cidr(String),
    /// An autonomous system number, optionally written with a leading `AS` or `as`.
    AsNumber(String),
    Domain(String),
    Nameserver(String),
    /// An entity handle; its object tag follows the last hyphen.
    Entity(String),
    /// A URL that needs no bootstrap at all.
    Url(String),
    Help,
}

/// A bootstrap registry: an ordered list of services. Each service is a list of
/// string lists: the match keys first, the candidate URLs last and, in the object-tag
/// registry, the tags in between at position 1.
pub struct IanaRegistry {
    pub services: Vec<Vec<Vec<String>>>,
}

/// A service of a registry, viewed as plain character sequences.
pub type ServiceView = Seq<Seq<Seq<char>>>;

impl View for IanaRegistry {
    type V = Seq<ServiceView>;

    open spec fn view(&self) -> Seq<ServiceView> {
        self.services.deep_view()
    }
}

/// The candidate URLs of a service: its last list.
pub open spec fn urls_of(svc: ServiceView) -> Seq<Seq<char>> {
    svc.last()
}

/// A lookup's result with its URL list viewed as character sequences.
pub open spec fn urls_result(r: Result<Vec<String>, BootstrapError>) -> Result<Seq<Seq<char>>, BootstrapError> {
    match r {
        Ok(urls) => Ok(urls.deep_view()),
        Err(e) => Err(e),
    }
}

/// A service has keys and a non-empty URL list.
pub open spec fn service_shaped(svc: ServiceView) -> bool {
    svc.len() >= 1 && svc[0].len() >= 1 && svc.last().len() >= 1
}

pub open spec fn https_scheme() -> Seq<char> {
    seq!['h', 't', 't', 'p', 's', ':', '/', '/']
}

/// A URL that begins with `https://`.
pub open spec fn is_https(u: Seq<char>) -> bool {
    u.len() >= 8 && u.subrange(0, 8) == https_scheme()
}

/// `u` is the URL to prefer among `urls`: the first HTTPS one, or the first one of all
/// when none is HTTPS.
pub open spec fn is_preferred(urls: Seq<Seq<char>>, u: Seq<char>) -> bool {
    ||| exists|i: int|
        0 <= i < urls.len() && u == urls[i] && is_https(urls[i]) && forall|j: int|
            0 <= j < i ==> !is_https(#[trigger] urls[j])
    ||| urls.len() > 0 && u == urls[0] && forall|j: int| 0 <= j < urls.len() ==> !is_https(#[trigger] urls[j])
}

/// The URL to prefer among `urls`, or `None` when there is none.
pub open spec fn preferred_url(urls: Seq<Seq<char>>) -> Option<Seq<char>> {
    if urls.len() == 0 {
        None
    } else {
        Some(choose|u: Seq<char>| is_preferred(urls, u))
    }
}

/// Only one URL of a list is the preferred one.
pub proof fn lemma_preferred_unique(urls: Seq<Seq<char>>, u: Seq<char>, v: Seq<char>)
    requires
        is_preferred(urls, u),
        is_preferred(urls, v),
    ensures
        u == v,
{
    if exists|i: int| 0 <= i < urls.len() && u == urls[i] && is_https(urls[i]) && forall|j: int|
        0 <= j < i ==> !is_https(#[trigger] urls[j]) {
        let i = choose|i: int| 0 <= i < urls.len() && u == urls[i] && is_https(urls[i]) && forall|j: int|
            0 <= j < i ==> !is_https(#[trigger] urls[j]);
        if exists|k: int| 0 <= k < urls.len() && v == urls[k] && is_https(urls[k]) && forall|j: int|
            0 <= j < k ==> !is_https(#[trigger] urls[j]) {
            let k = choose|k: int| 0 <= k < urls.len() && v == urls[k] && is_https(urls[k]) && forall|j: int|
                0 <= j < k ==> !is_https(#[trigger] urls[j]);
            if i < k {
                assert(!is_https(urls[i]));
            } else if k < i {
                assert(!is_https(urls[k]));
            }
        } else {
            assert(!is_https(urls[i]));
        }
    } else {
        if exists|k: int| 0 <= k < urls.len() && v == urls[k] && is_https(urls[k]) && forall|j: int|
            0 <= j < k ==> !is_https(#[trigger] urls[j]) {
            let k = choose|k: int| 0 <= k < urls.len() && v == urls[k] && is_https(urls[k]) && forall|j: int|
                0 <= j < k ==> !is_https(#[trigger] urls[j]);
            assert(!is_https(urls[k]));
        }
    }
}

/// Picks the URL to contact from a service's candidates: the first one that uses HTTPS,
/// else the first one. An empty list is a malformed registry.
pub fn get_preferred_url(urls: Vec<String>) -> (r: Result<String, BootstrapError>)
    ensures
        urls@.len() == 0 <==> r == Err::<String, BootstrapError>(BootstrapError::InvalidBootstrap),
        urls@.len() > 0 <==> r is Ok,
        r is Ok ==> is_preferred(urls.deep_view(), r->Ok_0@),
        r is Ok ==> preferred_url(urls.deep_view()) == Some(r->Ok_0@),
{
    let ghost us = urls.deep_view();
    if urls.len() == 0 {
        return Err(BootstrapError::InvalidBootstrap);
    }
    let mut i: usize = 0;
    while i < urls.len()
        invariant
            us == urls.deep_view(),
            i <= urls.len(),
            forall|j: int| 0 <= j < i ==> !is_https(#[trigger] us[j]),
        decreases urls.len() - i,
    {
        let h = starts_with(urls[i].as_str(), "https://");
        proof {
            reveal_strlit("https://");
            assert("https://"@ =~= https_scheme());
        }
        if h {
            let u = urls[i].clone();
            assert(us[i as int] == urls@[i as int]@);
            assert(is_https(us[i as int]));
            assert(is_preferred(us, u@));
            proof { lemma_preferred_unique_choice(us, u@); }
            return Ok(u);
        }
        i = i + 1;
    }
    let u = urls[0].clone();
    assert(us[0] == urls@[0]@);
    assert(is_preferred(us, u@));
    proof { lemma_preferred_unique_choice(us, u@); }
    Ok(u)
}

proof fn lemma_preferred_unique_choice(urls: Seq<Seq<char>>, u: Seq<char>)
    requires
        urls.len() > 0,
        is_preferred(urls, u),
    ensures
        preferred_url(urls) == Some(u),
{
    let c = choose|v: Seq<char>| is_preferred(urls, v);
    lemma_preferred_unique(urls, u, c);
}

/// The URL list of a service, copied out of the registry.
pub fn service_urls(svc: &Vec<Vec<String>>) -> (r: Vec<String>)
    requires
        svc@.len() >= 1,
    ensures
        r.deep_view() == urls_of(svc.deep_view()),
{
    let last = svc.len() - 1;
    copy_strings(&svc[last])
}

} // verus!
