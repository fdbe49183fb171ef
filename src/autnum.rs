//! Autonomous-system numbers: the first service whose range holds the number wins.

use vstd::prelude::*;
use crate::registry::{
    service_shaped, service_urls, urls_of, urls_result, BootstrapError, IanaRegistry, QueryType, ServiceView,
};
use crate::text::{
    after_last_index, after_last_index_of, first_index, first_index_of, parse_unsigned, to_chars,
    unsigned_of,
};

verus! {

/// `q` begins with the optional `as` marker, in any case.
pub open spec fn has_as_marker(q: Seq<char>) -> bool {
    q.len() >= 2 && (q[0] == 'a' || q[0] == 'A') && (q[1] == 's' || q[1] == 'S')
}

/// The number that an AS-number query names: one leading `as` marker, in any case,
/// dropped, and the rest read as a 32-bit unsigned integer.
pub open spec fn as_number_of(q: Seq<char>) -> Option<nat> {
    let body = if has_as_marker(q) {
        q.subrange(2, q.len() as int)
    } else {
        q
    };
    unsigned_of(body, u32::MAX as nat)
}

/// The inclusive range that a `start-end` key spells: exactly one hyphen, with a 32-bit
/// unsigned integer on each side of it.
pub open spec fn as_range_of(key: Seq<char>) -> Option<(nat, nat)> {
    let f = first_index_of(key, '-');
    if f < key.len() && after_last_index_of(key, '-') == f + 1 {
        let lo = unsigned_of(key.subrange(0, f), u32::MAX as nat);
        let hi = unsigned_of(key.subrange(f + 1, key.len() as int), u32::MAX as nat);
        if lo is Some && hi is Some {
            Some((lo->Some_0, hi->Some_0))
        } else {
            None
        }
    } else {
        None
    }
}

/// The range of a service of the ASN registry: its first key; `None` when the service is
/// malformed.
pub open spec fn service_range(svc: ServiceView) -> Option<(nat, nat)> {
    if service_shaped(svc) {
        as_range_of(svc[0][0])
    } else {
        None
    }
}

/// The scan stops at a service that is malformed or whose range holds `n`.
pub open spec fn stops_at(svc: ServiceView, n: nat) -> bool {
    match service_range(svc) {
        None => true,
        Some(r) => r.0 <= n <= r.1,
    }
}

/// `i` is the first service at which the scan for `n` stops.
pub open spec fn is_first_stop(svcs: Seq<ServiceView>, n: nat, i: int) -> bool {
    0 <= i < svcs.len() && stops_at(svcs[i], n) && forall|j: int|
        0 <= j < i ==> !stops_at(#[trigger] svcs[j], n)
}

/// What the scan for `n` gives: the URLs of the first service at which it stops when
/// that service's range holds `n`, `InvalidBootstrap` when that service is malformed, and
/// `BootstrapNotFound` when it never stops.
pub open spec fn asn_outcome(
    svcs: Seq<ServiceView>,
    n: nat,
    r: Result<Seq<Seq<char>>, BootstrapError>,
) -> bool {
    match r {
        Ok(urls) => exists|i: int|
            is_first_stop(svcs, n, i) && service_range(svcs[i]) is Some && urls == urls_of(svcs[i]),
        Err(BootstrapError::InvalidBootstrap) => exists|i: int|
            is_first_stop(svcs, n, i) && service_range(svcs[i]) is None,
        Err(BootstrapError::BootstrapNotFound) => forall|i: int|
            0 <= i < svcs.len() ==> !stops_at(#[trigger] svcs[i], n),
    }
}

proof fn lemma_first_stop_unique(svcs: Seq<ServiceView>, n: nat, i: int, j: int)
    requires
        is_first_stop(svcs, n, i),
        is_first_stop(svcs, n, j),
    ensures
        i == j,
{
    if i < j {
        assert(!stops_at(svcs[i], n));
    } else if j < i {
        assert(!stops_at(svcs[j], n));
    }
}

/// The outcome of the scan is a function of the registry and the number: no two results
/// meet it.
pub proof fn lemma_asn_outcome_unique(
    svcs: Seq<ServiceView>,
    n: nat,
    r1: Result<Seq<Seq<char>>, BootstrapError>,
    r2: Result<Seq<Seq<char>>, BootstrapError>,
)
    requires
        asn_outcome(svcs, n, r1),
        asn_outcome(svcs, n, r2),
    ensures
        r1 == r2,
{
    if exists|i: int| is_first_stop(svcs, n, i) {
        let i = choose|i: int| is_first_stop(svcs, n, i);
        assert(stops_at(svcs[i], n));
        assert forall|j: int| #[trigger] is_first_stop(svcs, n, j) implies j == i by {
            lemma_first_stop_unique(svcs, n, i, j);
        }
    }
}

/// A query that does not itself begin with the marker reads as the same AS number with
/// or without a leading `as`, in any case: the string and the numeric form of a query
/// resolve alike.
pub proof fn lemma_as_marker_ignored(m0: char, m1: char, q: Seq<char>)
    requires
        m0 == 'a' || m0 == 'A',
        m1 == 's' || m1 == 'S',
        !has_as_marker(q),
    ensures
        as_number_of(seq![m0, m1] + q) == as_number_of(q),
{
    let p = seq![m0, m1] + q;
    assert(has_as_marker(p));
    assert(p.subrange(2, p.len() as int) =~= q);
}

/// Where the number starts in `s`: 2 past a leading `as` marker, else 0.
fn skip_as_marker(s: &Vec<char>) -> (k: usize)
    ensures
        has_as_marker(s@) ==> k == 2,
        !has_as_marker(s@) ==> k == 0,
{
    if s.len() >= 2 && (s[0] == 'a' || s[0] == 'A') && (s[1] == 's' || s[1] == 'S') {
        2
    } else {
        0
    }
}

/// Reads the range of a `start-end` key.
fn parse_as_range(key: &String) -> (r: Option<(u64, u64)>)
    ensures
        r matches Some(p) ==> as_range_of(key@) == Some((p.0 as nat, p.1 as nat)),
        r is None ==> (as_range_of(key@) is None),
{
    let kc = to_chars(key.as_str());
    let f = first_index(&kc, '-');
    let l = after_last_index(&kc, '-');
    if f == kc.len() || l != f + 1 {
        return None;
    }
    let lo = parse_unsigned(&kc, 0, f, 0xffff_ffffu64);
    let hi = parse_unsigned(&kc, l, kc.len(), 0xffff_ffffu64);
    match (lo, hi) {
        (Some(a), Some(b)) => Some((a, b)),
        _ => None,
    }
}

/// Finds the URLs of the first service whose AS-number range holds the number that the
/// query names. A query that is no number, or a service met on the way that is malformed
/// or whose range does not parse, is `InvalidBootstrap`; when no range holds the number
/// the result is `BootstrapNotFound`.
pub fn get_asn_bootstrap_urls(iana: IanaRegistry, query_type: &QueryType) -> (r: Result<
    Vec<String>,
    BootstrapError,
>)
    requires
        query_type is AsNumber,
    ensures
        as_number_of(query_type->AsNumber_0@) is None ==> r == Err::<Vec<String>, BootstrapError>(
            BootstrapError::InvalidBootstrap,
        ),
        as_number_of(query_type->AsNumber_0@) matches Some(n) ==> asn_outcome(
            iana@,
            n,
            urls_result(r),
        ),
{
    let asn = match query_type {
        QueryType::AsNumber(a) => a,
        _ => {
            return Err(BootstrapError::InvalidBootstrap);
        },
    };
    let ghost svcs = iana@;
    let qc = to_chars(asn.as_str());
    let k = skip_as_marker(&qc);
    assert(k == 0 ==> qc@.subrange(0, qc@.len() as int) =~= qc@);
    let autnum = match parse_unsigned(&qc, k, qc.len(), 0xffff_ffffu64) {
        Some(n) => n,
        None => {
            return Err(BootstrapError::InvalidBootstrap);
        },
    };
    let ghost n = autnum as nat;
    let mut i: usize = 0;
    while i < iana.services.len()
        invariant
            svcs == iana@,
            query_type is AsNumber,
            query_type->AsNumber_0@ == asn@,
            as_number_of(asn@) == Some(n),
            n == autnum as nat,
            i <= iana.services.len(),
            forall|j: int| 0 <= j < i ==> !stops_at(#[trigger] svcs[j], n),
        decreases iana.services.len() - i,
    {
        let svc = &iana.services[i];
        assert(svc.deep_view() == svcs[i as int]);
        if svc.len() == 0 || svc[0].len() == 0 || svc[svc.len() - 1].len() == 0 {
            assert(!service_shaped(svcs[i as int]));
            assert(service_range(svcs[i as int]) is None);
            assert(stops_at(svcs[i as int], n));
            assert(is_first_stop(svcs, n, i as int));
            assert(is_first_stop(iana@, n, i as int) && service_range(iana@[i as int]) is None);
            return Err(BootstrapError::InvalidBootstrap);
        }
        assert(service_shaped(svcs[i as int]));
        assert(svcs[i as int][0][0] == svc@[0]@[0]@);
        match parse_as_range(&svc[0][0]) {
            None => {
                assert(service_range(svcs[i as int]) is None);
                assert(stops_at(svcs[i as int], n));
                assert(is_first_stop(svcs, n, i as int));
                assert(is_first_stop(iana@, n, i as int) && service_range(iana@[i as int]) is None);
                return Err(BootstrapError::InvalidBootstrap);
            },
            Some((start_as, end_as)) => {
                if start_as <= autnum && autnum <= end_as {
                    assert(stops_at(svcs[i as int], n));
                    assert(is_first_stop(svcs, n, i as int));
                    let urls = service_urls(svc);
                    return Ok(urls);
                }
            },
        }
        i = i + 1;
    }
    Err(BootstrapError::BootstrapNotFound)
}

} // verus!
