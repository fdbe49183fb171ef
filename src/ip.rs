//! IP addresses and blocks: the longest published prefix that contains the query wins.
//! The prefixes live in a prefix trie of the prefix_trie crate, one trie per address
//! family; the text of addresses and blocks is read by the ipnet crate.

use vstd::prelude::*;
use vstd::arithmetic::power2::pow2;
use prefix_trie::PrefixMap;
use crate::registry::{
    service_shaped, service_urls, urls_of, urls_result, BootstrapError, IanaRegistry, QueryType,
    ServiceView,
};

verus! {

/// prefix_trie's `PrefixMap`, held opaque: what a trie holds is seen through `v4_entries`
/// and `v6_entries`.
#[verifier::external_type_specification]
#[verifier::external_body]
#[verifier::reject_recursive_types(P)]
#[verifier::reject_recursive_types(T)]
pub struct ExPrefixMap<P, T>(PrefixMap<P, T>);

/// A trie of IPv4 prefixes, each mapped to the index of a service.
pub type V4Trie = PrefixMap<(u32, u8), usize>;

/// A trie of IPv6 prefixes, each mapped to the index of a service.
pub type V6Trie = PrefixMap<(u128, u8), usize>;

/// What ipnet reads from the text of an IPv4 block (`a.b.c.d/len`): the address as a
/// number, host bits kept, and the prefix length.
pub uninterp spec fn ipv4_net_of(s: Seq<char>) -> Option<(u32, u8)>;

/// What ipnet reads from the text of an IPv6 block (`addr/len`): the address as a number,
/// host bits kept, and the prefix length.
pub uninterp spec fn ipv6_net_of(s: Seq<char>) -> Option<(u128, u8)>;

/// The entries of an IPv4 trie, by trie position.
pub uninterp spec fn v4_entries(m: V4Trie) -> Map<(int, int), usize>;

/// The entries of an IPv6 trie, by trie position.
pub uninterp spec fn v6_entries(m: V6Trie) -> Map<(int, int), usize>;

/// The trie position of a prefix of length `len` of an address `width` bits wide: its
/// first `len` bits, read as a number, and `len`.
pub open spec fn position(width: nat, addr: int, len: int) -> (int, int) {
    (addr / (pow2((width - len) as nat) as int), len)
}

/// The prefix at trie position `p` contains the network `q` (address and length).
pub open spec fn covers(width: nat, p: (int, int), q: (int, int)) -> bool {
    p.1 <= q.1 && position(width, q.0, p.1) == p
}

/// `k` is the longest prefix in `m` that contains `q`.
pub open spec fn is_longest_cover(m: Map<(int, int), usize>, width: nat, q: (int, int), k: (int, int)) -> bool {
    &&& m.contains_key(k)
    &&& covers(width, k, q)
    &&& forall|k2: (int, int)| #[trigger] m.contains_key(k2) && covers(width, k2, q) ==> k2.1 <= k.1
}

/// A longest-prefix lookup of `q` in `m` gives `r`.
pub open spec fn lpm_outcome(m: Map<(int, int), usize>, width: nat, q: (int, int), r: Option<usize>) -> bool {
    match r {
        Some(v) => exists|k: (int, int)| #[trigger] is_longest_cover(m, width, q, k) && m[k] == v,
        None => forall|k: (int, int)| #[trigger] m.contains_key(k) ==> !covers(width, k, q),
    }
}

/// Relies on ipnet's `FromStr for Ipv4Net`: on success the prefix length is at most 32.
#[verifier::external_body]
fn parse_ipv4_net(s: &str) -> (r: Option<(u32, u8)>)
    ensures
        r == ipv4_net_of(s@),
        r matches Some(n) ==> n.1 <= 32,
{
    match s.parse::<ipnet::Ipv4Net>() {
        Ok(net) => Some((u32::from(net.addr()), net.prefix_len())),
        Err(_) => None,
    }
}

/// Relies on ipnet's `FromStr for Ipv6Net`: on success the prefix length is at most 128.
#[verifier::external_body]
fn parse_ipv6_net(s: &str) -> (r: Option<(u128, u8)>)
    ensures
        r == ipv6_net_of(s@),
        r matches Some(n) ==> n.1 <= 128,
{
    match s.parse::<ipnet::Ipv6Net>() {
        Ok(net) => Some((u128::from(net.addr()), net.prefix_len())),
        Err(_) => None,
    }
}

/// Relies on prefix_trie's `PrefixMap::new`: a trie without entries.
#[verifier::external_body]
fn new_v4_trie() -> (r: V4Trie)
    ensures
        v4_entries(r) =~= Map::empty(),
{
    PrefixMap::new()
}

/// Relies on prefix_trie's `PrefixMap::new`: a trie without entries.
#[verifier::external_body]
fn new_v6_trie() -> (r: V6Trie)
    ensures
        v6_entries(r) =~= Map::empty(),
{
    PrefixMap::new()
}

/// Relies on prefix_trie's `PrefixMap::insert`: the value goes to the prefix's trie
/// position, host bits ignored, and replaces what was there.
#[verifier::external_body]
fn v4_insert(m: &mut V4Trie, net: (u32, u8), v: usize)
    requires
        net.1 <= 32,
    ensures
        v4_entries(*final(m)) == v4_entries(*old(m)).insert(position(32, net.0 as int, net.1 as int), v),
{
    m.insert(net, v);
}

/// Relies on prefix_trie's `PrefixMap::insert`: the value goes to the prefix's trie
/// position, host bits ignored, and replaces what was there.
#[verifier::external_body]
fn v6_insert(m: &mut V6Trie, net: (u128, u8), v: usize)
    requires
        net.1 <= 128,
    ensures
        v6_entries(*final(m)) == v6_entries(*old(m)).insert(position(128, net.0 as int, net.1 as int), v),
{
    m.insert(net, v);
}

/// Relies on prefix_trie's `PrefixMap::get_lpm`: the value of the longest prefix in the trie
/// that contains the query, if any does.
#[verifier::external_body]
fn v4_lpm(m: &V4Trie, q: (u32, u8)) -> (r: Option<usize>)
    requires
        q.1 <= 32,
    ensures
        lpm_outcome(v4_entries(*m), 32, (q.0 as int, q.1 as int), r),
{
    m.get_lpm(&q).map(|(_, v)| *v)
}

/// Relies on prefix_trie's `PrefixMap::get_lpm`: the value of the longest prefix in the trie
/// that contains the query, if any does.
#[verifier::external_body]
fn v6_lpm(m: &V6Trie, q: (u128, u8)) -> (r: Option<usize>)
    requires
        q.1 <= 128,
    ensures
        lpm_outcome(v6_entries(*m), 128, (q.0 as int, q.1 as int), r),
{
    m.get_lpm(&q).map(|(_, v)| *v)
}

/// A network read from text, for an address family `width` bits wide.
pub open spec fn net_of(width: nat, s: Seq<char>) -> Option<(int, int)> {
    if width == 32 {
        match ipv4_net_of(s) {
            Some(n) => Some((n.0 as int, n.1 as int)),
            None => None,
        }
    } else {
        match ipv6_net_of(s) {
            Some(n) => Some((n.0 as int, n.1 as int)),
            None => None,
        }
    }
}

/// A service is well formed and every one of its keys reads as a network.
pub open spec fn ip_service_ok(svc: ServiceView, width: nat) -> bool {
    service_shaped(svc) && forall|j: int| 0 <= j < svc[0].len() ==> #[trigger] net_of(width, svc[0][j]) is Some
}

pub open spec fn ip_registry_ok(svcs: Seq<ServiceView>, width: nat) -> bool {
    forall|i: int| 0 <= i < svcs.len() ==> #[trigger] ip_service_ok(svcs[i], width)
}

/// The trie once every key before key `j` of service `i` is in, each mapped to the index
/// of its service; a later key at the same position replaces an earlier one.
pub open spec fn trie_after(svcs: Seq<ServiceView>, width: nat, i: nat, j: nat) -> Map<(int, int), usize>
    decreases i, j,
{
    if j > 0 {
        let n = net_of(width, svcs[i as int][0][j - 1])->Some_0;
        trie_after(svcs, width, i, (j - 1) as nat).insert(position(width, n.0, n.1), i as usize)
    } else if i > 0 {
        trie_after(svcs, width, (i - 1) as nat, svcs[i - 1][0].len())
    } else {
        Map::empty()
    }
}

/// The trie of the whole registry.
pub open spec fn registry_trie(svcs: Seq<ServiceView>, width: nat) -> Map<(int, int), usize> {
    trie_after(svcs, width, svcs.len(), 0)
}

/// What the lookup of network `q` gives: `InvalidBootstrap` when a service is malformed or a
/// key or the query does not read as a network; else the URLs of the service of the longest
/// prefix that contains the query; else `BootstrapNotFound`.
pub open spec fn ip_outcome(
    svcs: Seq<ServiceView>,
    width: nat,
    q: Option<(int, int)>,
    r: Result<Seq<Seq<char>>, BootstrapError>,
) -> bool {
    if !ip_registry_ok(svcs, width) || q is None {
        r == Err::<Seq<Seq<char>>, BootstrapError>(BootstrapError::InvalidBootstrap)
    } else {
        let m = registry_trie(svcs, width);
        match r {
            Ok(urls) => exists|k: (int, int)|
                #[trigger] is_longest_cover(m, width, q->Some_0, k) && 0 <= m[k] < svcs.len() && urls
                    == urls_of(svcs[m[k] as int]),
            Err(BootstrapError::BootstrapNotFound) => forall|k: (int, int)|
                #[trigger] m.contains_key(k) ==> !covers(width, k, q->Some_0),
            Err(BootstrapError::InvalidBootstrap) => false,
        }
    }
}

/// Only one prefix of a map is the longest that contains a given network.
pub proof fn lemma_longest_cover_unique(m: Map<(int, int), usize>, width: nat, q: (int, int), k1: (int, int), k2: (int, int))
    requires
        is_longest_cover(m, width, q, k1),
        is_longest_cover(m, width, q, k2),
    ensures
        k1 == k2,
{
    assert(k1.1 <= k2.1 && k2.1 <= k1.1);
}

/// The outcome of the lookup is a function of the registry and the query: no two results
/// meet it.
pub proof fn lemma_ip_outcome_unique(
    svcs: Seq<ServiceView>,
    width: nat,
    q: Option<(int, int)>,
    r1: Result<Seq<Seq<char>>, BootstrapError>,
    r2: Result<Seq<Seq<char>>, BootstrapError>,
)
    requires
        ip_outcome(svcs, width, q, r1),
        ip_outcome(svcs, width, q, r2),
    ensures
        r1 == r2,
{
    if ip_registry_ok(svcs, width) && q is Some {
        let m = registry_trie(svcs, width);
        let qq = q->Some_0;
        if r1 is Ok {
            let k1 = choose|k: (int, int)| #[trigger] is_longest_cover(m, width, qq, k) && 0 <= m[k] < svcs.len()
                && r1->Ok_0 == urls_of(svcs[m[k] as int]);
            assert(m.contains_key(k1));
            if r2 is Ok {
                let k2 = choose|k: (int, int)| #[trigger] is_longest_cover(m, width, qq, k) && 0 <= m[k] < svcs.len()
                    && r2->Ok_0 == urls_of(svcs[m[k] as int]);
                lemma_longest_cover_unique(m, width, qq, k1, k2);
            }
        } else if r2 is Ok {
            let k2 = choose|k: (int, int)| #[trigger] is_longest_cover(m, width, qq, k) && 0 <= m[k] < svcs.len()
                && r2->Ok_0 == urls_of(svcs[m[k] as int]);
            assert(m.contains_key(k2));
        }
    }
}

/// The network that an IPv4 query names: an address as a /32, or a block as written.
pub open spec fn ipv4_query_net(q: QueryType) -> Option<(int, int)> {
    match q {
        QueryType::IpV4Addr(a) => net_of(32, a@ + "/32"@),
        QueryType::IpV4Cidr(c) => net_of(32, c@),
        _ => None,
    }
}

/// The network that an IPv6 query names: an address as a /128, or a block as written.
pub open spec fn ipv6_query_net(q: QueryType) -> Option<(int, int)> {
    match q {
        QueryType::IpV6Addr(a) => net_of(128, a@ + "/128"@),
        QueryType::IpV6Cidr(c) => net_of(128, c@),
        _ => None,
    }
}

proof fn lemma_trie_values_bounded(svcs: Seq<ServiceView>, width: nat, i: nat, j: nat)
    requires
        i <= svcs.len(),
        j > 0 ==> i < svcs.len(),
        svcs.len() <= usize::MAX,
    ensures
        forall|k: (int, int)| #[trigger] trie_after(svcs, width, i, j).contains_key(k)
            ==> trie_after(svcs, width, i, j)[k] < svcs.len(),
    decreases i, j,
{
    if j > 0 {
        lemma_trie_values_bounded(svcs, width, i, (j - 1) as nat);
        let n = net_of(width, svcs[i as int][0][j - 1])->Some_0;
        let prev = trie_after(svcs, width, i, (j - 1) as nat);
        let cur = trie_after(svcs, width, i, j);
        assert(cur == prev.insert(position(width, n.0, n.1), i as usize));
        assert(forall|k: (int, int)| #[trigger] cur.contains_key(k) ==> cur[k] < svcs.len()) by {
            assert forall|k: (int, int)| #[trigger] cur.contains_key(k) implies cur[k] < svcs.len() by {
                if k == position(width, n.0, n.1) {
                    assert(cur[k] == i as usize);
                } else {
                    assert(prev.contains_key(k));
                }
            }
        }
    } else if i > 0 {
        lemma_trie_values_bounded(svcs, width, (i - 1) as nat, svcs[i - 1][0].len());
        assert(trie_after(svcs, width, i, j) == trie_after(svcs, width, (i - 1) as nat, svcs[i - 1][0].len()));
    } else {
        assert(trie_after(svcs, width, i, j) == Map::<(int, int), usize>::empty());
    }
}

/// Finds the URLs of the service that publishes the longest IPv4 prefix containing the
/// queried address or block. A malformed service, a key or a query that does not read as a
/// network is `InvalidBootstrap`; no containing prefix is `BootstrapNotFound`. Where two
/// services publish the same prefix, the later one holds it.
pub fn get_ipv4_bootstrap_urls(iana: IanaRegistry, query_type: &QueryType) -> (r: Result<
    Vec<String>,
    BootstrapError,
>)
    requires
        query_type is IpV4Addr || query_type is IpV4Cidr,
    ensures
        ip_outcome(iana@, 32, ipv4_query_net(*query_type), urls_result(r)),
{
    let ghost svcs = iana@;
    let mut pm = new_v4_trie();
    let mut i: usize = 0;
    while i < iana.services.len()
        invariant
            svcs == iana@,
            i <= svcs.len(),
            v4_entries(pm) == trie_after(svcs, 32, i as nat, 0),
            forall|i2: int| 0 <= i2 < i ==> #[trigger] ip_service_ok(svcs[i2], 32),
        decreases iana.services.len() - i,
    {
        let svc = &iana.services[i];
        assert(svc.deep_view() == svcs[i as int]);
        if svc.len() == 0 || svc[0].len() == 0 || svc[svc.len() - 1].len() == 0 {
            assert(!ip_service_ok(svcs[i as int], 32));
            return Err(BootstrapError::InvalidBootstrap);
        }
        let cidrs = &svc[0];
        assert(cidrs.deep_view() == svcs[i as int][0]);
        let mut j: usize = 0;
        while j < cidrs.len()
            invariant
                svcs == iana@,
                i < svcs.len(),
                cidrs.deep_view() == svcs[i as int][0],
                j <= cidrs.len(),
                v4_entries(pm) == trie_after(svcs, 32, i as nat, j as nat),
                forall|j2: int| 0 <= j2 < j ==> #[trigger] net_of(32, svcs[i as int][0][j2]) is Some,
            decreases cidrs.len() - j,
        {
            assert(cidrs[j as int]@ == svcs[i as int][0][j as int]);
            match parse_ipv4_net(cidrs[j].as_str()) {
                None => {
                    assert(net_of(32, svcs[i as int][0][j as int]) is None);
                    assert(!ip_service_ok(svcs[i as int], 32));
                    return Err(BootstrapError::InvalidBootstrap);
                },
                Some(net) => {
                    v4_insert(&mut pm, net, i);
                },
            }
            j = j + 1;
        }
        assert(service_shaped(svcs[i as int]));
        assert(ip_service_ok(svcs[i as int], 32));
        assert(trie_after(svcs, 32, (i + 1) as nat, 0) == trie_after(svcs, 32, i as nat, j as nat));
        i = i + 1;
    }
    assert(ip_registry_ok(svcs, 32));
    let qnet = match query_type {
        QueryType::IpV4Addr(a) => {
            let full = String::from_str(a.as_str()).concat("/32");
            parse_ipv4_net(full.as_str())
        },
        QueryType::IpV4Cidr(c) => parse_ipv4_net(c.as_str()),
        _ => None,
    };
    assert(qnet matches Some(q) ==> ipv4_query_net(*query_type) == Some((q.0 as int, q.1 as int)));
    assert(qnet is None ==> (ipv4_query_net(*query_type) is None));
    let q = match qnet {
        None => {
            return Err(BootstrapError::InvalidBootstrap);
        },
        Some(q) => q,
    };
    assert(v4_entries(pm) == registry_trie(svcs, 32));
    match v4_lpm(&pm, q) {
        None => Err(BootstrapError::BootstrapNotFound),
        Some(idx) => {
            let ghost m = registry_trie(svcs, 32);
            let ghost qq = (q.0 as int, q.1 as int);
            let ghost k = choose|k: (int, int)| #[trigger] is_longest_cover(m, 32, qq, k) && m[k] == idx;
            proof {
                lemma_trie_values_bounded(svcs, 32, svcs.len(), 0);
                assert(m.contains_key(k));
                assert(ip_service_ok(svcs[idx as int], 32));
                assert(iana.services@[idx as int].deep_view() == svcs[idx as int]);
            }
            let urls = service_urls(&iana.services[idx]);
            assert(is_longest_cover(m, 32, qq, k) && 0 <= m[k] < svcs.len() && urls.deep_view() == urls_of(svcs[m[k] as int]));
            assert(ipv4_query_net(*query_type)->Some_0 == qq);
            assert(urls_result(Ok::<Vec<String>, BootstrapError>(urls)) == Ok::<Seq<Seq<char>>, BootstrapError>(urls.deep_view()));
            Ok(urls)
        },
    }
}

/// Finds the URLs of the service that publishes the longest IPv6 prefix containing the
/// queried address or block. A malformed service, a key or a query that does not read as a
/// network is `InvalidBootstrap`; no containing prefix is `BootstrapNotFound`. Where two
/// services publish the same prefix, the later one holds it.
pub fn get_ipv6_bootstrap_urls(iana: IanaRegistry, query_type: &QueryType) -> (r: Result<
    Vec<String>,
    BootstrapError,
>)
    requires
        query_type is IpV6Addr || query_type is IpV6Cidr,
    ensures
        ip_outcome(iana@, 128, ipv6_query_net(*query_type), urls_result(r)),
{
    let ghost svcs = iana@;
    let mut pm = new_v6_trie();
    let mut i: usize = 0;
    while i < iana.services.len()
        invariant
            svcs == iana@,
            i <= svcs.len(),
            v6_entries(pm) == trie_after(svcs, 128, i as nat, 0),
            forall|i2: int| 0 <= i2 < i ==> #[trigger] ip_service_ok(svcs[i2], 128),
        decreases iana.services.len() - i,
    {
        let svc = &iana.services[i];
        assert(svc.deep_view() == svcs[i as int]);
        if svc.len() == 0 || svc[0].len() == 0 || svc[svc.len() - 1].len() == 0 {
            assert(!ip_service_ok(svcs[i as int], 128));
            return Err(BootstrapError::InvalidBootstrap);
        }
        let cidrs = &svc[0];
        assert(cidrs.deep_view() == svcs[i as int][0]);
        let mut j: usize = 0;
        while j < cidrs.len()
            invariant
                svcs == iana@,
                i < svcs.len(),
                cidrs.deep_view() == svcs[i as int][0],
                j <= cidrs.len(),
                v6_entries(pm) == trie_after(svcs, 128, i as nat, j as nat),
                forall|j2: int| 0 <= j2 < j ==> #[trigger] net_of(128, svcs[i as int][0][j2]) is Some,
            decreases cidrs.len() - j,
        {
            assert(cidrs[j as int]@ == svcs[i as int][0][j as int]);
            match parse_ipv6_net(cidrs[j].as_str()) {
                None => {
                    assert(net_of(128, svcs[i as int][0][j as int]) is None);
                    assert(!ip_service_ok(svcs[i as int], 128));
                    return Err(BootstrapError::InvalidBootstrap);
                },
                Some(net) => {
                    v6_insert(&mut pm, net, i);
                },
            }
            j = j + 1;
        }
        assert(service_shaped(svcs[i as int]));
        assert(ip_service_ok(svcs[i as int], 128));
        assert(trie_after(svcs, 128, (i + 1) as nat, 0) == trie_after(svcs, 128, i as nat, j as nat));
        i = i + 1;
    }
    assert(ip_registry_ok(svcs, 128));
    let qnet = match query_type {
        QueryType::IpV6Addr(a) => {
            let full = String::from_str(a.as_str()).concat("/128");
            parse_ipv6_net(full.as_str())
        },
        QueryType::IpV6Cidr(c) => parse_ipv6_net(c.as_str()),
        _ => None,
    };
    assert(qnet matches Some(q) ==> ipv6_query_net(*query_type) == Some((q.0 as int, q.1 as int)));
    assert(qnet is None ==> (ipv6_query_net(*query_type) is None));
    let q = match qnet {
        None => {
            return Err(BootstrapError::InvalidBootstrap);
        },
        Some(q) => q,
    };
    assert(v6_entries(pm) == registry_trie(svcs, 128));
    match v6_lpm(&pm, q) {
        None => Err(BootstrapError::BootstrapNotFound),
        Some(idx) => {
            let ghost m = registry_trie(svcs, 128);
            let ghost qq = (q.0 as int, q.1 as int);
            let ghost k = choose|k: (int, int)| #[trigger] is_longest_cover(m, 128, qq, k) && m[k] == idx;
            proof {
                lemma_trie_values_bounded(svcs, 128, svcs.len(), 0);
                assert(m.contains_key(k));
                assert(ip_service_ok(svcs[idx as int], 128));
                assert(iana.services@[idx as int].deep_view() == svcs[idx as int]);
            }
            let urls = service_urls(&iana.services[idx]);
            assert(is_longest_cover(m, 128, qq, k) && 0 <= m[k] < svcs.len() && urls.deep_view() == urls_of(svcs[m[k] as int]));
            assert(ipv6_query_net(*query_type)->Some_0 == qq);
            assert(urls_result(Ok::<Vec<String>, BootstrapError>(urls)) == Ok::<Seq<Seq<char>>, BootstrapError>(urls.deep_view()));
            Ok(urls)
        },
    }
}

} // verus!
