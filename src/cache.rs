//! The registry cache: one slot per registry type, each holding a document and the time it
//! was fetched. A slot serves its document for seven days after the fetch; after that a read
//! asks for a fresh fetch, which overwrites the slot.

use vstd::prelude::*;
use crate::registry::IanaRegistryType;
use crate::text::{
    decimal, first_index_of, is_first_index, lemma_decimal, lemma_first_index_is, next_index,
    parse_unsigned, to_chars, to_decimal, unsigned_of,
};

verus! {

/// How long, in seconds, a cached registry document is served: seven days.
pub const BOOTSTRAP_TTL_SECS: u64 = 604800;

/// A document fetched at `received`, in seconds since the Unix epoch.
pub struct CacheRecord {
    pub received: u64,
    pub body: String,
}

/// What a read of the cache gives.
pub enum CacheLookup {
    /// The slot holds a document young enough to serve.
    Fresh(String),
    /// The slot is empty or stale: the document must be fetched again.
    Refetch,
}

/// One slot per registry type.
pub struct RegistryCache {
    pub dns: Option<CacheRecord>,
    pub asn: Option<CacheRecord>,
    pub ipv4: Option<CacheRecord>,
    pub ipv6: Option<CacheRecord>,
    pub object_tags: Option<CacheRecord>,
}

/// A document fetched at `received` may still be served at `now`.
pub open spec fn is_fresh(received: int, now: int) -> bool {
    now - received < BOOTSTRAP_TTL_SECS
}

/// A cache slot as a plain value: the fetch time and the document.
pub type SlotView = Option<(int, Seq<char>)>;

pub open spec fn record_view(r: Option<CacheRecord>) -> SlotView {
    match r {
        Some(rec) => Some((rec.received as int, rec.body@)),
        None => None,
    }
}

/// What a read of a slot gives at `now`: the document while it is fresh, else `None`, which
/// asks for a fetch.
pub open spec fn read_slot(s: SlotView, now: int) -> Option<Seq<char>> {
    match s {
        Some(p) => if is_fresh(p.0, now) {
            Some(p.1)
        } else {
            None
        },
        None => None,
    }
}

pub open spec fn lookup_view(l: CacheLookup) -> Option<Seq<char>> {
    match l {
        CacheLookup::Fresh(b) => Some(b@),
        CacheLookup::Refetch => None,
    }
}

impl View for RegistryCache {
    type V = Map<IanaRegistryType, (int, Seq<char>)>;

    /// The filled slots, by registry type.
    open spec fn view(&self) -> Map<IanaRegistryType, (int, Seq<char>)> {
        Map::new(|t: IanaRegistryType| self.slot(t) is Some, |t: IanaRegistryType| self.slot(t)->Some_0)
    }
}

/// Whether a document fetched at `received` may still be served at `now`.
pub fn fresh_at(received: u64, now: u64) -> (r: bool)
    ensures
        r == is_fresh(received as int, now as int),
{
    now < received || now - received < BOOTSTRAP_TTL_SECS
}

impl RegistryCache {
    pub open spec fn slot(&self, t: IanaRegistryType) -> SlotView {
        match t {
            IanaRegistryType::RdapBootstrapDns => record_view(self.dns),
            IanaRegistryType::RdapBootstrapAsn => record_view(self.asn),
            IanaRegistryType::RdapBootstrapIpv4 => record_view(self.ipv4),
            IanaRegistryType::RdapBootstrapIpv6 => record_view(self.ipv6),
            IanaRegistryType::RdapObjectTags => record_view(self.object_tags),
        }
    }

    /// A cache with every slot empty.
    pub fn new() -> (r: RegistryCache)
        ensures
            r@ == Map::<IanaRegistryType, (int, Seq<char>)>::empty(),
    {
        let r = RegistryCache { dns: None, asn: None, ipv4: None, ipv6: None, object_tags: None };
        assert(r@ =~= Map::<IanaRegistryType, (int, Seq<char>)>::empty());
        r
    }

    /// Reads the slot of `t` at `now`: its document while fresh, else a request to fetch.
    pub fn lookup(&self, t: IanaRegistryType, now: u64) -> (r: CacheLookup)
        ensures
            lookup_view(r) == read_slot(self.slot(t), now as int),
            lookup_view(r) == read_cache(self@, t, now as int),
    {
        let rec = match t {
            IanaRegistryType::RdapBootstrapDns => &self.dns,
            IanaRegistryType::RdapBootstrapAsn => &self.asn,
            IanaRegistryType::RdapBootstrapIpv4 => &self.ipv4,
            IanaRegistryType::RdapBootstrapIpv6 => &self.ipv6,
            IanaRegistryType::RdapObjectTags => &self.object_tags,
        };
        match rec {
            Some(rec) => if fresh_at(rec.received, now) {
                CacheLookup::Fresh(rec.body.clone())
            } else {
                CacheLookup::Refetch
            },
            None => CacheLookup::Refetch,
        }
    }

    /// Puts a document fetched at `now` in the slot of `t`, overwriting what it held.
    pub fn store(&mut self, t: IanaRegistryType, body: String, now: u64)
        ensures
            final(self)@ == old(self)@.insert(t, (now as int, body@)),
    {
        let rec = Some(CacheRecord { received: now, body });
        match t {
            IanaRegistryType::RdapBootstrapDns => self.dns = rec,
            IanaRegistryType::RdapBootstrapAsn => self.asn = rec,
            IanaRegistryType::RdapBootstrapIpv4 => self.ipv4 = rec,
            IanaRegistryType::RdapBootstrapIpv6 => self.ipv6 = rec,
            IanaRegistryType::RdapObjectTags => self.object_tags = rec,
        }
        assert(self@ =~= old(self)@.insert(t, (now as int, body@)));
    }
}

/// A read of a cache as a map of filled slots.
pub open spec fn read_cache(c: Map<IanaRegistryType, (int, Seq<char>)>, t: IanaRegistryType, now: int) -> Option<Seq<char>> {
    if c.contains_key(t) {
        read_slot(Some(c[t]), now)
    } else {
        None
    }
}

/// A document stored at `now` is served, unchanged, by every read before `now` plus the
/// time to live, and by none from then on.
pub proof fn lemma_fresh_until_ttl(
    c: Map<IanaRegistryType, (int, Seq<char>)>,
    t: IanaRegistryType,
    body: Seq<char>,
    now: int,
    later: int,
)
    requires
        now <= later,
    ensures
        later < now + BOOTSTRAP_TTL_SECS ==> read_cache(c.insert(t, (now, body)), t, later) == Some(body),
        later >= now + BOOTSTRAP_TTL_SECS ==> read_cache(c.insert(t, (now, body)), t, later) is None,
{
}

/// Once the time to live has passed, one read asks for a fetch, and after that fetch is
/// stored the next read is served from the cache: a stale slot costs exactly one fetch.
pub proof fn lemma_single_refetch(
    c: Map<IanaRegistryType, (int, Seq<char>)>,
    t: IanaRegistryType,
    old_body: Seq<char>,
    new_body: Seq<char>,
    stored_at: int,
    now: int,
)
    requires
        now >= stored_at + BOOTSTRAP_TTL_SECS,
    ensures
        read_cache(c.insert(t, (stored_at, old_body)), t, now) is None,
        read_cache(c.insert(t, (stored_at, old_body)).insert(t, (now, new_body)), t, now) == Some(
            new_body,
        ),
{
}

/// A cache file: the fetch time, where the document came from, its content type, and the
/// document itself.
pub struct CacheFile {
    pub received: u64,
    pub host: String,
    pub content_type: String,
    pub body: String,
}

pub open spec fn one_line(s: Seq<char>) -> bool {
    forall|i: int| 0 <= i < s.len() ==> s[i] != '\n'
}

pub open spec fn newline() -> Seq<char> {
    seq!['\n']
}

/// The text of a cache file: the fetch time in decimal, the host and the content type, one
/// per line, then the document.
pub open spec fn cache_text(received: nat, host: Seq<char>, content_type: Seq<char>, body: Seq<char>) -> Seq<char> {
    decimal(received) + newline() + host + newline() + content_type + newline() + body
}

/// The text after the first line end of `t`.
pub open spec fn after_line(t: Seq<char>) -> Seq<char> {
    t.subrange(first_index_of(t, '\n') + 1, t.len() as int)
}

/// The first line of `t`, without its end.
pub open spec fn first_line(t: Seq<char>) -> Seq<char> {
    t.subrange(0, first_index_of(t, '\n'))
}

pub open spec fn has_line_end(t: Seq<char>) -> bool {
    first_index_of(t, '\n') < t.len()
}

/// What a cache file's text holds: the fetch time, host, content type and document, or
/// `None` when there are not three line ends or the first line is no number.
pub open spec fn decoded(t: Seq<char>) -> Option<(nat, Seq<char>, Seq<char>, Seq<char>)> {
    let t1 = after_line(t);
    let t2 = after_line(t1);
    if has_line_end(t) && has_line_end(t1) && has_line_end(t2) && unsigned_of(first_line(t), u64::MAX as nat) is Some {
        Some((unsigned_of(first_line(t), u64::MAX as nat)->Some_0, first_line(t1), first_line(t2), after_line(t2)))
    } else {
        None
    }
}

/// The text of a cache file.
pub fn encode_cache_file(f: &CacheFile) -> (r: String)
    requires
        one_line(f.host@),
        one_line(f.content_type@),
    ensures
        r@ == cache_text(f.received as nat, f.host@, f.content_type@, f.body@),
{
    proof {
        reveal_strlit("\n");
        assert("\n"@ =~= newline());
    }
    let r = to_decimal(f.received).concat("\n").concat(f.host.as_str()).concat("\n").concat(
        f.content_type.as_str(),
    ).concat("\n").concat(f.body.as_str());
    r
}

proof fn lemma_line_split(pre: Seq<char>, rest: Seq<char>)
    requires
        one_line(pre),
    ensures
        has_line_end(pre + newline() + rest),
        first_line(pre + newline() + rest) == pre,
        after_line(pre + newline() + rest) == rest,
{
    let t = pre + newline() + rest;
    assert(t[pre.len() as int] == '\n');
    assert forall|j: int| 0 <= j < pre.len() implies #[trigger] t[j] != '\n' by {
        assert(t[j] == pre[j]);
    }
    assert(is_first_index(t, '\n', pre.len() as int));
    lemma_first_index_is(t, '\n', pre.len() as int);
    assert(t.subrange(0, pre.len() as int) =~= pre);
    assert(t.subrange(pre.len() as int + 1, t.len() as int) =~= rest);
}

/// Reading back the text of a cache file gives exactly what was written: the same fetch
/// time, host, content type and document.
pub proof fn lemma_cache_file_round_trip(received: nat, host: Seq<char>, content_type: Seq<char>, body: Seq<char>)
    requires
        received <= u64::MAX,
        one_line(host),
        one_line(content_type),
    ensures
        decoded(cache_text(received, host, content_type, body)) == Some((received, host, content_type, body)),
{
    lemma_decimal(received);
    let d = decimal(received);
    assert forall|i: int| 0 <= i < d.len() implies d[i] != '\n' by {
        assert(crate::text::is_digit(d[i]));
    }
    let t2 = content_type + newline() + body;
    let t1 = host + newline() + t2;
    let t = d + newline() + t1;
    assert(cache_text(received, host, content_type, body) =~= t);
    lemma_line_split(d, t1);
    lemma_line_split(host, t2);
    lemma_line_split(content_type, body);
}

/// Reads the text of a cache file.
pub fn decode_cache_file(text: &str) -> (r: Option<CacheFile>)
    ensures
        r matches Some(f) ==> decoded(text@) == Some(
            (f.received as nat, f.host@, f.content_type@, f.body@),
        ),
        r is None ==> (decoded(text@) is None),
{
    let tc = to_chars(text);
    let ghost t = text@;
    let n = tc.len();
    let a = next_index(&tc, '\n', 0);
    assert(t.subrange(0, n as int) =~= t);
    if a == n {
        return None;
    }
    let b = next_index(&tc, '\n', a + 1);
    let ghost t1 = after_line(t);
    assert(t1 == t.subrange(a + 1, n as int));
    if b == n {
        assert(first_index_of(t1, '\n') == t1.len());
        return None;
    }
    let c = next_index(&tc, '\n', b + 1);
    let ghost t2 = after_line(t1);
    assert(t2 =~= t.subrange(b + 1, n as int));
    if c == n {
        assert(first_index_of(t2, '\n') == t2.len());
        return None;
    }
    assert(first_line(t) =~= t.subrange(0, a as int));
    assert(first_line(t1) =~= t.subrange(a + 1, b as int));
    assert(first_line(t2) =~= t.subrange(b + 1, c as int));
    assert(after_line(t2) =~= t.subrange(c + 1, n as int));
    let received = match parse_unsigned(&tc, 0, a, u64::MAX) {
        Some(v) => v,
        None => {
            return None;
        },
    };
    let host = text.substring_char(a + 1, b).to_owned();
    let content_type = text.substring_char(b + 1, c).to_owned();
    let body = text.substring_char(c + 1, n).to_owned();
    Some(CacheFile { received, host, content_type, body })
}

} // verus!
