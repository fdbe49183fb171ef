//! Domain names and nameservers: the longest matching suffix wins.

use vstd::prelude::*;
use crate::registry::{
    service_shaped, service_urls, urls_of, urls_result, BootstrapError, IanaRegistry, QueryType,
    ServiceView,
};
use crate::text::ends_with;

verus! {

/// `k` is a suffix of `d`.
pub open spec fn is_suffix(k: Seq<char>, d: Seq<char>) -> bool {
    k.len() <= d.len() && d.subrange(d.len() - k.len(), d.len() as int) == k
}

/// Key `j` of service `i` is a suffix of the domain `d`.
pub open spec fn suffix_hit(svcs: Seq<ServiceView>, d: Seq<char>, i: int, j: int) -> bool {
    0 <= i < svcs.len() && svcs[i].len() >= 1 && 0 <= j < svcs[i][0].len() && is_suffix(
        svcs[i][0][j],
        d,
    )
}

pub open spec fn key_len(svcs: Seq<ServiceView>, i: int, j: int) -> int {
    svcs[i][0][j].len() as int
}

/// Key `(i2, j2)` comes before key `(i, j)` in document order.
pub open spec fn before(i2: int, j2: int, i: int, j: int) -> bool {
    i2 < i || (i2 == i && j2 < j)
}

/// Key `j` of service `i` is the winning suffix: no matching key is longer, and every
/// matching key before it is shorter.
pub open spec fn is_longest_hit(svcs: Seq<ServiceView>, d: Seq<char>, i: int, j: int) -> bool {
    &&& suffix_hit(svcs, d, i, j)
    &&& forall|i2: int, j2: int|
        #[trigger] suffix_hit(svcs, d, i2, j2) ==> key_len(svcs, i2, j2) <= key_len(svcs, i, j)
    &&& forall|i2: int, j2: int|
        #[trigger] suffix_hit(svcs, d, i2, j2) && before(i2, j2, i, j) ==> key_len(svcs, i2, j2)
            < key_len(svcs, i, j)
}

/// What the domain lookup gives: `InvalidBootstrap` when some service is malformed, else
/// the URLs of the service that holds the winning suffix, else `BootstrapNotFound`.
pub open spec fn domain_outcome(
    svcs: Seq<ServiceView>,
    d: Seq<char>,
    r: Result<Seq<Seq<char>>, BootstrapError>,
) -> bool {
    match r {
        Err(BootstrapError::InvalidBootstrap) => exists|i: int|
            0 <= i < svcs.len() && !service_shaped(#[trigger] svcs[i]),
        Err(BootstrapError::BootstrapNotFound) => (forall|i: int|
            0 <= i < svcs.len() ==> service_shaped(#[trigger] svcs[i])) && forall|i: int, j: int|
            !#[trigger] suffix_hit(svcs, d, i, j),
        Ok(urls) => (forall|i: int| 0 <= i < svcs.len() ==> service_shaped(#[trigger] svcs[i]))
            && exists|i: int, j: int| #[trigger]
                is_longest_hit(svcs, d, i, j) && urls == urls_of(svcs[i]),
    }
}

/// The outcome of the lookup is a function of the registry and the domain: no two results
/// meet it.
pub proof fn lemma_domain_outcome_unique(
    svcs: Seq<ServiceView>,
    d: Seq<char>,
    r1: Result<Seq<Seq<char>>, BootstrapError>,
    r2: Result<Seq<Seq<char>>, BootstrapError>,
)
    requires
        domain_outcome(svcs, d, r1),
        domain_outcome(svcs, d, r2),
    ensures
        r1 == r2,
{
    if r1 is Ok && r2 is Ok {
        let (i1, j1) = choose|i: int, j: int| #[trigger] is_longest_hit(svcs, d, i, j) && r1->Ok_0 == urls_of(svcs[i]);
        let (i2, j2) = choose|i: int, j: int| #[trigger] is_longest_hit(svcs, d, i, j) && r2->Ok_0 == urls_of(svcs[i]);
        assert(suffix_hit(svcs, d, i1, j1));
        assert(suffix_hit(svcs, d, i2, j2));
        if before(i1, j1, i2, j2) {
            assert(key_len(svcs, i1, j1) < key_len(svcs, i2, j2));
        } else if before(i2, j2, i1, j1) {
            assert(key_len(svcs, i2, j2) < key_len(svcs, i1, j1));
        }
    } else if r1 is Ok {
        let (i1, j1) = choose|i: int, j: int| #[trigger] is_longest_hit(svcs, d, i, j) && r1->Ok_0 == urls_of(svcs[i]);
        assert(suffix_hit(svcs, d, i1, j1));
    } else if r2 is Ok {
        let (i2, j2) = choose|i: int, j: int| #[trigger] is_longest_hit(svcs, d, i, j) && r2->Ok_0 == urls_of(svcs[i]);
        assert(suffix_hit(svcs, d, i2, j2));
    }
}

/// The domain name that a domain or nameserver query names.
pub open spec fn domain_of(q: QueryType) -> Seq<char> {
    match q {
        QueryType::Domain(d) => d@,
        QueryType::Nameserver(n) => n@,
        _ => Seq::empty(),
    }
}

/// Invariant of the scan: `best` is the winning key among those before `(i, j)`.
spec fn best_so_far(
    svcs: Seq<ServiceView>,
    d: Seq<char>,
    i: int,
    j: int,
    found: bool,
    bi: int,
    bj: int,
) -> bool {
    &&& found <==> exists|i2: int, j2: int| #[trigger]
        suffix_hit(svcs, d, i2, j2) && before(i2, j2, i, j)
    &&& found ==> {
        &&& suffix_hit(svcs, d, bi, bj)
        &&& before(bi, bj, i, j)
        &&& forall|i2: int, j2: int|
            #[trigger] suffix_hit(svcs, d, i2, j2) && before(i2, j2, i, j) ==> key_len(svcs, i2, j2)
                <= key_len(svcs, bi, bj)
        &&& forall|i2: int, j2: int|
            #[trigger] suffix_hit(svcs, d, i2, j2) && before(i2, j2, bi, bj) ==> key_len(
                svcs,
                i2,
                j2,
            ) < key_len(svcs, bi, bj)
    }
}

/// Finds the URLs of the service whose key is the longest suffix of the queried domain;
/// among keys of equal length the first in document order wins. A malformed service
/// anywhere in the registry is `InvalidBootstrap`; no matching key is `BootstrapNotFound`.
pub fn get_domain_bootstrap_urls(iana: IanaRegistry, query_type: &QueryType) -> (r: Result<
    Vec<String>,
    BootstrapError,
>)
    requires
        query_type is Domain || query_type is Nameserver,
    ensures
        domain_outcome(iana@, domain_of(*query_type), urls_result(r)),
{
    let domain_name = match query_type {
        QueryType::Domain(domain) => domain,
        QueryType::Nameserver(ns) => ns,
        _ => {
            return Err(BootstrapError::InvalidBootstrap);
        },
    };
    let ghost d = domain_name@;
    let ghost svcs = iana@;
    let mut i: usize = 0;
    while i < iana.services.len()
        invariant
            svcs == iana@,
            i <= iana.services.len(),
            forall|j: int| 0 <= j < i ==> service_shaped(#[trigger] svcs[j]),
        decreases iana.services.len() - i,
    {
        let svc = &iana.services[i];
        assert(svc.deep_view() == svcs[i as int]);
        if svc.len() == 0 || svc[0].len() == 0 || svc[svc.len() - 1].len() == 0 {
            assert(!service_shaped(svcs[i as int]));
            return Err(BootstrapError::InvalidBootstrap);
        }
        i = i + 1;
    }
    let mut found = false;
    let mut best_i: usize = 0;
    let mut best_j: usize = 0;
    let mut best_len: usize = 0;
    let mut i: usize = 0;
    while i < iana.services.len()
        invariant
            svcs == iana@,
            d == domain_name@,
            domain_of(*query_type) == d,
            i <= iana.services.len(),
            forall|j: int| 0 <= j < svcs.len() ==> service_shaped(#[trigger] svcs[j]),
            best_so_far(svcs, d, i as int, 0, found, best_i as int, best_j as int),
            found ==> best_len == key_len(svcs, best_i as int, best_j as int),
        decreases iana.services.len() - i,
    {
        let svc = &iana.services[i];
        assert(svc.deep_view() == svcs[i as int]);
        assert(service_shaped(svcs[i as int]));
        let tlds = &svc[0];
        assert(tlds.deep_view() == svcs[i as int][0]);
        let mut j: usize = 0;
        while j < tlds.len()
            invariant
                svcs == iana@,
                d == domain_name@,
                i < svcs.len(),
                tlds.deep_view() == svcs[i as int][0],
                j <= tlds.len(),
                svcs[i as int].len() >= 1,
                best_so_far(svcs, d, i as int, j as int, found, best_i as int, best_j as int),
                found ==> best_len == key_len(svcs, best_i as int, best_j as int),
            decreases tlds.len() - j,
        {
            let tld = &tlds[j];
            assert(tld@ == svcs[i as int][0][j as int]);
            if ends_with(domain_name.as_str(), tld.as_str()) {
                assert(suffix_hit(svcs, d, i as int, j as int));
                let tl = tld.as_str().unicode_len();
                if !found || best_len < tl {
                    found = true;
                    best_i = i;
                    best_j = j;
                    best_len = tl;
                }
            }
            proof {
                assert forall|i2: int, j2: int|
                    #[trigger] suffix_hit(svcs, d, i2, j2) && before(i2, j2, i as int, j + 1)
                    implies before(i2, j2, i as int, j as int) || (i2 == i && j2 == j) by {}
            }
            j = j + 1;
        }
        proof {
            assert forall|i2: int, j2: int|
                #[trigger] suffix_hit(svcs, d, i2, j2) && before(i2, j2, i + 1, 0)
                implies before(i2, j2, i as int, j as int) by {}
        }
        i = i + 1;
    }
    if !found {
        return Err(BootstrapError::BootstrapNotFound);
    }
    assert(is_longest_hit(svcs, d, best_i as int, best_j as int)) by {
        assert forall|i2: int, j2: int| #[trigger] suffix_hit(svcs, d, i2, j2)
            implies before(i2, j2, i as int, 0) by {}
    }
    let urls = service_urls(&iana.services[best_i]);
    Ok(urls)
}

} // verus!
