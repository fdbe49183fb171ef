//! Object tags: entity handles and explicit tags, matched without regard to ASCII case.

use vstd::prelude::*;
use crate::registry::{service_urls, urls_of, urls_result, BootstrapError, IanaRegistry, QueryType, ServiceView};
use crate::text::{after_last_index, after_last_index_of, to_chars};

verus! {

/// A character as `char::to_ascii_uppercase` gives it, as a code point.
pub open spec fn upper_code(c: char) -> int {
    if 'a' <= c && c <= 'z' {
        c as int - 32
    } else {
        c as int
    }
}

/// Two strings are equal once both are turned to ASCII upper case.
pub open spec fn eq_ignore_ascii_case(a: Seq<char>, b: Seq<char>) -> bool {
    a.len() == b.len() && forall|i: int| 0 <= i < a.len() ==> upper_code(#[trigger] a[i]) == upper_code(b[i])
}

/// A service of the object-tag registry carries a tag at position 1 and a non-empty URL
/// list.
pub open spec fn tag_service_shaped(svc: ServiceView) -> bool {
    svc.len() >= 2 && svc[1].len() >= 1 && svc.last().len() >= 1
}

/// The scan for `tag` stops at a service that is malformed or carries `tag`.
pub open spec fn tag_stops_at(svc: ServiceView, tag: Seq<char>) -> bool {
    !tag_service_shaped(svc) || eq_ignore_ascii_case(svc[1][0], tag)
}

pub open spec fn is_first_tag_stop(svcs: Seq<ServiceView>, tag: Seq<char>, i: int) -> bool {
    0 <= i < svcs.len() && tag_stops_at(svcs[i], tag) && forall|j: int|
        0 <= j < i ==> !tag_stops_at(#[trigger] svcs[j], tag)
}

/// What the scan for `tag` gives: the URLs of the first service at which it stops when
/// that service is well formed, `InvalidBootstrap` when it is not, and `BootstrapNotFound`
/// when the scan never stops.
pub open spec fn tag_outcome(
    svcs: Seq<ServiceView>,
    tag: Seq<char>,
    r: Result<Seq<Seq<char>>, BootstrapError>,
) -> bool {
    match r {
        Ok(urls) => exists|i: int|
            is_first_tag_stop(svcs, tag, i) && tag_service_shaped(svcs[i]) && urls == urls_of(svcs[i]),
        Err(BootstrapError::InvalidBootstrap) => exists|i: int|
            is_first_tag_stop(svcs, tag, i) && !tag_service_shaped(svcs[i]),
        Err(BootstrapError::BootstrapNotFound) => forall|i: int|
            0 <= i < svcs.len() ==> !tag_stops_at(#[trigger] svcs[i], tag),
    }
}

/// The outcome of the scan is a function of the registry and the tag: no two results meet
/// it.
pub proof fn lemma_tag_outcome_unique(
    svcs: Seq<ServiceView>,
    tag: Seq<char>,
    r1: Result<Seq<Seq<char>>, BootstrapError>,
    r2: Result<Seq<Seq<char>>, BootstrapError>,
)
    requires
        tag_outcome(svcs, tag, r1),
        tag_outcome(svcs, tag, r2),
    ensures
        r1 == r2,
{
    if exists|i: int| is_first_tag_stop(svcs, tag, i) {
        let i = choose|i: int| is_first_tag_stop(svcs, tag, i);
        assert(tag_stops_at(svcs[i], tag));
        assert forall|j: int| #[trigger] is_first_tag_stop(svcs, tag, j) implies j == i by {
            if i < j {
                assert(!tag_stops_at(svcs[i], tag));
            } else if j < i {
                assert(!tag_stops_at(svcs[j], tag));
            }
        }
    }
}

/// The object tag of an entity handle: the text after its last hyphen; `None` when it has
/// no hyphen.
pub open spec fn handle_tag(h: Seq<char>) -> Option<Seq<char>> {
    let k = after_last_index_of(h, '-');
    if k == 0 {
        None
    } else {
        Some(h.subrange(k, h.len() as int))
    }
}

fn upper_char(c: char) -> (r: u32)
    ensures
        r as int == upper_code(c),
{
    if 'a' <= c && c <= 'z' {
        c as u32 - 32
    } else {
        c as u32
    }
}

/// Whether two strings are equal once both are in ASCII upper case.
pub fn eq_ascii_upper(a: &str, b: &str) -> (r: bool)
    ensures
        r == eq_ignore_ascii_case(a@, b@),
{
    let ac = to_chars(a);
    let bc = to_chars(b);
    if ac.len() != bc.len() {
        return false;
    }
    let mut i: usize = 0;
    while i < ac.len()
        invariant
            ac@ == a@,
            bc@ == b@,
            ac.len() == bc.len(),
            i <= ac.len(),
            forall|j: int| 0 <= j < i ==> upper_code(#[trigger] a@[j]) == upper_code(b@[j]),
        decreases ac.len() - i,
    {
        if upper_char(ac[i]) != upper_char(bc[i]) {
            return false;
        }
        i = i + 1;
    }
    true
}

/// The object tag of an entity handle, copied out: the text after its last hyphen.
pub fn tag_of_handle(handle: &str) -> (r: Option<String>)
    ensures
        r matches Some(t) ==> handle_tag(handle@) == Some(t@),
        r is None ==> (handle_tag(handle@) is None),
{
    let hc = to_chars(handle);
    let k = after_last_index(&hc, '-');
    if k == 0 {
        return None;
    }
    let t = handle.substring_char(k, hc.len()).to_owned();
    Some(t)
}

/// Finds the URLs of the first service whose object tag equals `tag`, ignoring ASCII case.
/// A service met on the way without a tag or without URLs is `InvalidBootstrap`; no match is
/// `BootstrapNotFound`.
pub fn get_tag_bootstrap_urls(iana: IanaRegistry, tag: &str) -> (r: Result<
    Vec<String>,
    BootstrapError,
>)
    ensures
        tag_outcome(iana@, tag@, urls_result(r)),
{
    let ghost svcs = iana@;
    let mut i: usize = 0;
    while i < iana.services.len()
        invariant
            svcs == iana@,
            i <= iana.services.len(),
            forall|j: int| 0 <= j < i ==> !tag_stops_at(#[trigger] svcs[j], tag@),
        decreases iana.services.len() - i,
    {
        let svc = &iana.services[i];
        assert(svc.deep_view() == svcs[i as int]);
        if svc.len() < 2 || svc[1].len() == 0 || svc[svc.len() - 1].len() == 0 {
            assert(tag_stops_at(svcs[i as int], tag@));
            assert(is_first_tag_stop(svcs, tag@, i as int));
            return Err(BootstrapError::InvalidBootstrap);
        }
        assert(svcs[i as int][1][0] == svc@[1]@[0]@);
        if eq_ascii_upper(svc[1][0].as_str(), tag) {
            assert(tag_stops_at(svcs[i as int], tag@));
            assert(is_first_tag_stop(svcs, tag@, i as int));
            let urls = service_urls(svc);
            return Ok(urls);
        }
        i = i + 1;
    }
    Err(BootstrapError::BootstrapNotFound)
}

/// Finds the URLs for an entity handle through the object tag after its last hyphen; a
/// handle without a hyphen is `BootstrapNotFound` before the registry is read.
pub fn get_entity_handle_bootstrap_urls(iana: IanaRegistry, query_type: &QueryType) -> (r: Result<
    Vec<String>,
    BootstrapError,
>)
    requires
        query_type is Entity,
    ensures
        handle_tag(query_type->Entity_0@) is None ==> r == Err::<Vec<String>, BootstrapError>(
            BootstrapError::BootstrapNotFound,
        ),
        handle_tag(query_type->Entity_0@) matches Some(t) ==> tag_outcome(iana@, t, urls_result(r)),
{
    let handle = match query_type {
        QueryType::Entity(h) => h,
        _ => {
            return Err(BootstrapError::BootstrapNotFound);
        },
    };
    match tag_of_handle(handle.as_str()) {
        None => Err(BootstrapError::BootstrapNotFound),
        Some(t) => get_tag_bootstrap_urls(iana, t.as_str()),
    }
}

} // verus!
