use crate::cache::{Cache, CacheEntry, CacheStore, DEFAULT_TTL_MS};
use crate::dns::{ascii_alnum, interpret_lookup, lookup_name, lookup_name_of, outcome_meaning, validate_domain, valid_domain, LookupOutcome};
use crate::error::MailGuardError;
use crate::threat::ThreatType;
use vstd::prelude::*;
use vstd::string::*;

verus! {

/// Default timeout of a block-list lookup: five seconds, in milliseconds.
pub const DEFAULT_DNS_TIMEOUT_MS: u64 = 5000;

/// A character allowed in the local part of a mailbox.
pub open spec fn local_char(c: char) -> bool {
    ascii_alnum(c) || c == '.' || c == '!' || c == '#' || c == '$' || c == '%' || c == '&'
        || c == '\'' || c == '*' || c == '+' || c == '/' || c == '=' || c == '?' || c == '^'
        || c == '_' || c == '`' || c == '{' || c == '|' || c == '}' || c == '~' || c == '-'
}

/// Some dot stands at a position from `lo` up to, not including, `hi`.
pub open spec fn has_dot_between(d: Seq<char>, lo: int, hi: int) -> bool {
    exists|j: int| lo <= j < hi && d[j] == '.'
}

/// Dot-separated labels, each of 1 to 63 ASCII letters, digits and hyphens
/// that starts and ends with a letter or digit.
pub open spec fn host_name(d: Seq<char>) -> bool {
    &&& d.len() > 0
    &&& forall|i: int| 0 <= i < d.len() ==> ascii_alnum(#[trigger] d[i]) || d[i] == '-' || d[i] == '.'
    &&& ascii_alnum(d[0])
    &&& ascii_alnum(d[d.len() - 1])
    &&& forall|i: int| 0 <= i < d.len() - 1 && #[trigger] d[i] == '.' ==> ascii_alnum(d[i + 1])
    &&& forall|i: int| 0 < i < d.len() && #[trigger] d[i] == '.' ==> ascii_alnum(d[i - 1])
    &&& forall|i: int| 0 <= i && i + 64 <= d.len() ==> #[trigger] has_dot_between(d, i, i + 64)
}

/// `s` is a mailbox: a non-empty local part, an `@`, and a host name.
pub open spec fn is_mailbox(s: Seq<char>) -> bool {
    exists|i: int|
        0 < i < s.len() && s[i] == '@' && (forall|j: int| 0 <= j < i ==> local_char(#[trigger] s[j]))
            && host_name(#[trigger] s.subrange(i + 1, s.len() as int))
}

fn is_ascii_alnum(c: char) -> (r: bool)
    ensures
        r == ascii_alnum(c),
{
    ('a' <= c && c <= 'z') || ('A' <= c && c <= 'Z') || ('0' <= c && c <= '9')
}

fn is_local_char(c: char) -> (r: bool)
    ensures
        r == local_char(c),
{
    is_ascii_alnum(c) || c == '.' || c == '!' || c == '#' || c == '$' || c == '%' || c == '&'
        || c == '\'' || c == '*' || c == '+' || c == '/' || c == '=' || c == '?' || c == '^'
        || c == '_' || c == '`' || c == '{' || c == '|' || c == '}' || c == '~' || c == '-'
}

/// Whether `d` is a host name: dot-separated labels of 1 to 63 ASCII letters,
/// digits and hyphens, each starting and ending with a letter or digit.
pub fn is_host_name(d: &str) -> (r: bool)
    ensures
        r == host_name(d@),
{
    let m = d.unicode_len();
    if m == 0 {
        return false;
    }
    if !is_ascii_alnum(d.get_char(0)) || !is_ascii_alnum(d.get_char(m - 1)) {
        return false;
    }
    let mut k: usize = 0;
    let mut run: usize = 0;
    while k < m
        invariant
            m == d@.len(),
            m > 0,
            k <= m,
            ascii_alnum(d@[0]),
            ascii_alnum(d@[m - 1]),
            forall|i: int| 0 <= i < k ==> ascii_alnum(#[trigger] d@[i]) || d@[i] == '-' || d@[i] == '.',
            forall|i: int| 0 <= i < k && i < m - 1 && #[trigger] d@[i] == '.' ==> ascii_alnum(d@[i + 1]),
            forall|i: int| 0 < i < k && #[trigger] d@[i] == '.' ==> ascii_alnum(d@[i - 1]),
            run <= k,
            run <= 63,
            forall|j: int| k - run <= j < k ==> #[trigger] d@[j] != '.',
            run < k ==> d@[k - run - 1] == '.',
            forall|i: int| 0 <= i && i + 64 <= k ==> #[trigger] has_dot_between(d@, i, i + 64),
        decreases m - k,
    {
        let c = d.get_char(k);
        if !(is_ascii_alnum(c) || c == '-' || c == '.') {
            return false;
        }
        if c == '.' {
            if !is_ascii_alnum(d.get_char(k + 1)) || !is_ascii_alnum(d.get_char(k - 1)) {
                return false;
            }
            proof {
                if k + 1 >= 64 {
                    assert(d@[k as int] == '.');
                    assert(has_dot_between(d@, k + 1 - 64, k + 1));
                }
            }
            run = 0;
        } else {
            if run == 63 {
                proof {
                    let i = k - 63;
                    assert forall|j: int| i <= j < i + 64 implies d@[j] != '.' by {
                        if j < k {
                            assert(k - run <= j);
                        }
                    }
                    assert(!has_dot_between(d@, i, i + 64));
                }
                return false;
            }
            proof {
                if k + 1 >= 64 {
                    assert(d@[k - run - 1] == '.');
                    assert(has_dot_between(d@, k + 1 - 64, k + 1));
                }
            }
            run = run + 1;
        }
        k = k + 1;
    }
    true
}

/// Whether `s` is a mailbox: a non-empty local part, an `@`, and a host name.
pub fn is_mailbox_address(s: &str) -> (r: bool)
    ensures
        r == is_mailbox(s@),
{
    let n = s.unicode_len();
    let mut i: usize = 0;
    while i < n && is_local_char(s.get_char(i))
        invariant
            n == s@.len(),
            i <= n,
            forall|j: int| 0 <= j < i ==> local_char(#[trigger] s@[j]),
        decreases n - i,
    {
        i = i + 1;
    }
    if i == 0 || i >= n || s.get_char(i) != '@' {
        proof {
            if is_mailbox(s@) {
                let w = choose|w: int|
                    0 < w < s@.len() && s@[w] == '@' && (forall|j: int| 0 <= j < w ==> local_char(#[trigger] s@[j]))
                        && host_name(#[trigger] s@.subrange(w + 1, s@.len() as int));
                if w < i {
                    assert(local_char(s@[w]));
                } else if w > i {
                    assert(local_char(s@[i as int]));
                }
            }
        }
        return false;
    }
    let host = s.substring_char(i + 1, n);
    let r = is_host_name(host);
    proof {
        if r {
            assert(host_name(s@.subrange(i + 1, n as int)));
        }
        if is_mailbox(s@) {
            let w = choose|w: int|
                0 < w < s@.len() && s@[w] == '@' && (forall|j: int| 0 <= j < w ==> local_char(#[trigger] s@[j]))
                    && host_name(#[trigger] s@.subrange(w + 1, s@.len() as int));
            if w < i {
                assert(local_char(s@[w]));
            } else if w > i {
                assert(local_char(s@[i as int]));
            }
            assert(w == i);
        }
    }
    r
}

/// Result of `str::to_lowercase`: it depends on the characters alone.
pub uninterp spec fn lower_of(s: Seq<char>) -> Seq<char>;

/// Relies on str::to_lowercase, to make the cache key case-insensitive.
#[verifier::external_body]
fn to_lowercase(s: &str) -> (r: String)
    ensures
        r@ == lower_of(s@),
{
    s.to_lowercase()
}

/// Position of the last `c` in `s`, or -1.
pub open spec fn last_index_of(s: Seq<char>, c: char) -> int
    decreases s.len(),
{
    if s.len() == 0 {
        -1
    } else if s[s.len() - 1] == c {
        s.len() - 1
    } else {
        last_index_of(s.drop_last(), c)
    }
}

/// What follows the last `@`, when there is an `@` and something after it.
pub open spec fn domain_part(s: Seq<char>) -> Option<Seq<char>> {
    let k = last_index_of(s, '@');
    if k < 0 || k == s.len() - 1 {
        None
    } else {
        Some(s.subrange(k + 1, s.len() as int))
    }
}

proof fn lemma_last_index_bounds(s: Seq<char>, c: char)
    ensures
        -1 <= last_index_of(s, c) < s.len(),
        last_index_of(s, c) >= 0 ==> s[last_index_of(s, c)] == c,
    decreases s.len(),
{
    if s.len() > 0 && s[s.len() - 1] != c {
        lemma_last_index_bounds(s.drop_last(), c);
    }
}

/// The domain of an address: what follows its last `@`.
pub fn extract_domain(email: &str) -> (r: Result<String, MailGuardError>)
    ensures
        r is Ok <==> domain_part(email@) is Some,
        r matches Ok(d) ==> d@ == domain_part(email@)->0,
        r matches Err(e) ==> e is InvalidEmail,
{
    let n = email.unicode_len();
    let mut i: usize = n;
    assert(email@.subrange(0, n as int) =~= email@);
    while i > 0
        invariant
            n == email@.len(),
            i <= n,
            last_index_of(email@, '@') == last_index_of(email@.subrange(0, i as int), '@'),
        decreases i,
    {
        if email.get_char(i - 1) == '@' {
            if i == n {
                return Err(MailGuardError::InvalidEmail(String::from_str("Empty domain part")));
            }
            return Ok(String::from_str(email.substring_char(i, n)));
        }
        assert(email@.subrange(0, i as int).drop_last() =~= email@.subrange(0, i - 1));
        i = i - 1;
    }
    Err(MailGuardError::InvalidEmail(String::from_str("Missing @ in address")))
}

/// Checks an address and returns its domain.
pub fn email_domain(email: &str) -> (r: Result<String, MailGuardError>)
    ensures
        r is Ok <==> is_mailbox(email@) && domain_part(email@) is Some,
        r matches Ok(d) ==> d@ == domain_part(email@)->0,
        r matches Err(e) ==> e is InvalidEmail,
{
    if !is_mailbox_address(email) {
        return Err(MailGuardError::InvalidEmail(String::from_str(email)));
    }
    extract_domain(email)
}

/// Result of checking an address.
#[derive(Debug, Clone, PartialEq, Eq)]
pub struct EmailStatus {
    /// The address as given.
    pub email: String,
    /// Its domain, lower-cased.
    pub domain: String,
    /// Whether the domain is listed.
    pub is_threat: bool,
    /// The category, if listed.
    pub threat_type: Option<ThreatType>,
    /// Whether the answer came from the cache.
    pub from_cache: bool,
}

/// Result of checking a domain.
#[derive(Debug, Clone, PartialEq, Eq)]
pub struct DomainStatus {
    /// The domain, lower-cased.
    pub domain: String,
    /// Whether the domain is listed.
    pub is_threat: bool,
    /// The category, if listed.
    pub threat_type: Option<ThreatType>,
    /// Whether the answer came from the cache.
    pub from_cache: bool,
}

/// The status of a domain freshly looked up, given what the lookup meant.
pub open spec fn fresh_status(domain: String, meaning: Result<Option<ThreatType>, MailGuardError>) -> Result<DomainStatus, MailGuardError> {
    match meaning {
        Ok(t) => Ok(DomainStatus { domain, is_threat: t is Some, threat_type: t, from_cache: false }),
        Err(e) => Err(e),
    }
}

/// What the first half of a domain check does against a store holding `old`
/// at time `now`, leaving it holding `new`: a malformed domain is refused and
/// the store left alone; a live entry for the lower-cased domain answers from
/// the cache; otherwise (a stale entry being dropped) the lookup is named.
pub open spec fn begins_domain_check(
    old: Map<Seq<char>, CacheEntry>,
    new: Map<Seq<char>, CacheEntry>,
    domain: Seq<char>,
    now: u64,
    r: Result<DomainStep, MailGuardError>,
) -> bool {
    if !valid_domain(domain) {
        new == old && r matches Err(MailGuardError::InvalidDomain(_))
    } else {
        let k = lower_of(domain);
        if old.contains_key(k) && !old[k].expired_at(now) {
            &&& new == old
            &&& match r {
                Ok(DomainStep::Cached(s)) => s.domain@ == k && s.threat_type == old[k].threat_type
                    && s.is_threat == (old[k].threat_type is Some) && s.from_cache,
                _ => false,
            }
        } else {
            &&& new == (if old.contains_key(k) { old.remove(k) } else { old })
            &&& match r {
                Ok(DomainStep::Lookup { domain: d, query: q }) => d@ == k && q@ == lookup_name_of(k),
                _ => false,
            }
        }
    }
}

/// The first half of an address check: a malformed address is refused and the
/// store left alone; a well-formed one is checked as its domain is.
pub open spec fn begins_email_check(
    old: Map<Seq<char>, CacheEntry>,
    new: Map<Seq<char>, CacheEntry>,
    email: Seq<char>,
    now: u64,
    r: Result<DomainStep, MailGuardError>,
) -> bool {
    if is_mailbox(email) && domain_part(email) is Some {
        begins_domain_check(old, new, domain_part(email)->0, now, r)
    } else {
        new == old && r matches Err(MailGuardError::InvalidEmail(_))
    }
}

/// What the second half of a domain check leaves in a store holding `old`: the
/// classification, a clean one too, stamped `now`, after a successful lookup;
/// nothing new after a failed one.
pub open spec fn completes_domain_check(
    old: Map<Seq<char>, CacheEntry>,
    new: Map<Seq<char>, CacheEntry>,
    ttl: u64,
    domain: Seq<char>,
    outcome: LookupOutcome,
    now: u64,
) -> bool {
    match outcome_meaning(outcome) {
        Ok(t) => new == old.insert(domain, CacheEntry { threat_type: t, timestamp: now, ttl }),
        Err(_) => new == old,
    }
}

/// The first check of a well-formed domain against an empty store is no cache
/// hit: it names a lookup.
pub proof fn lemma_first_check_misses(
    new: Map<Seq<char>, CacheEntry>,
    domain: Seq<char>,
    now: u64,
    r: Result<DomainStep, MailGuardError>,
)
    requires
        valid_domain(domain),
        begins_domain_check(Map::empty(), new, domain, now, r),
    ensures
        r matches Ok(DomainStep::Lookup { .. }),
{
}

/// After a successful lookup of a domain has been stored, a later check of
/// the same domain in any letter case, within the entry's lifetime, is
/// answered from the cache with the stored classification.
pub proof fn lemma_repeat_check_hits_cache(
    stored: Map<Seq<char>, CacheEntry>,
    after: Map<Seq<char>, CacheEntry>,
    later: Map<Seq<char>, CacheEntry>,
    ttl: u64,
    domain: Seq<char>,
    again: Seq<char>,
    outcome: LookupOutcome,
    stored_at: u64,
    read_at: u64,
    r: Result<DomainStep, MailGuardError>,
)
    requires
        outcome_meaning(outcome) is Ok,
        completes_domain_check(stored, after, ttl, lower_of(domain), outcome, stored_at),
        valid_domain(again),
        lower_of(again) == lower_of(domain),
        read_at as int - stored_at as int <= ttl as int,
        begins_domain_check(after, later, again, read_at, r),
    ensures
        later == after,
        match r {
            Ok(DomainStep::Cached(s)) => s.from_cache && s.domain@ == lower_of(domain)
                && s.threat_type == outcome_meaning(outcome)->Ok_0,
            _ => false,
        },
{
}

/// Validates a domain and lower-cases it.
fn normalized_domain(domain: &str) -> (r: Result<String, MailGuardError>)
    ensures
        r is Err <==> !valid_domain(domain@),
        r matches Err(e) ==> e is InvalidDomain,
        r matches Ok(d) ==> d@ == lower_of(domain@),
{
    match validate_domain(domain) {
        Err(e) => Err(e),
        Ok(()) => Ok(to_lowercase(domain)),
    }
}

/// First half of a domain check against `store` at time `now`.
pub fn begin_domain_check_at(store: &mut CacheStore, domain: &str, now: u64) -> (r: Result<DomainStep, MailGuardError>)
    requires
        old(store).wf(),
    ensures
        final(store).wf(),
        final(store).ttl() == old(store).ttl(),
        final(store)@.dom().finite(),
        begins_domain_check(old(store)@, final(store)@, domain@, now, r),
{
    proof {
        store.lemma_finite();
    }
    let lowered = match normalized_domain(domain) {
        Err(e) => return Err(e),
        Ok(d) => d,
    };
    match store.get_at(lowered.as_str(), now) {
        Some(t) => Ok(
            DomainStep::Cached(
                DomainStatus { domain: lowered, is_threat: t.is_some(), threat_type: t, from_cache: true },
            ),
        ),
        None => {
            let query = lookup_name(lowered.as_str());
            Ok(DomainStep::Lookup { domain: lowered, query })
        },
    }
}

/// First half of an address check against `store` at time `now`.
pub fn begin_email_check_at(store: &mut CacheStore, email: &str, now: u64) -> (r: Result<DomainStep, MailGuardError>)
    requires
        old(store).wf(),
    ensures
        final(store).wf(),
        final(store).ttl() == old(store).ttl(),
        final(store)@.dom().finite(),
        begins_email_check(old(store)@, final(store)@, email@, now, r),
{
    proof {
        store.lemma_finite();
    }
    let domain = match email_domain(email) {
        Err(e) => return Err(e),
        Ok(d) => d,
    };
    begin_domain_check_at(store, domain.as_str(), now)
}

/// Second half of a domain check against `store` at time `now`: reads the
/// answer and stores the classification when the lookup succeeded.
pub fn complete_domain_check_at(store: &mut CacheStore, domain: String, outcome: &LookupOutcome, now: u64) -> (r: Result<DomainStatus, MailGuardError>)
    requires
        old(store).wf(),
    ensures
        final(store).wf(),
        final(store).ttl() == old(store).ttl(),
        final(store)@.dom().finite(),
        r == fresh_status(domain, outcome_meaning(*outcome)),
        completes_domain_check(old(store)@, final(store)@, old(store).ttl(), domain@, *outcome, now),
{
    proof {
        store.lemma_finite();
    }
    match interpret_lookup(outcome) {
        Err(e) => Err(e),
        Ok(t) => {
            store.set_at(domain.clone(), t, now);
            Ok(DomainStatus { domain, is_threat: t.is_some(), threat_type: t, from_cache: false })
        },
    }
}

impl Cache {
    /// `begin_domain_check_at` on the cache's store, under its lock, now.
    pub fn begin_domain_check(&self, domain: &str) -> (r: Result<DomainStep, MailGuardError>)
        ensures
            exists|old: Map<Seq<char>, CacheEntry>, new: Map<Seq<char>, CacheEntry>, now: u64|
                begins_domain_check(old, new, domain@, now, r),
    {
        let (mut store, handle) = self.lock.acquire_write();
        let ghost before = store@;
        let now = self.now();
        let r = begin_domain_check_at(&mut store, domain, now);
        let ghost after = store@;
        handle.release_write(store);
        assert(begins_domain_check(before, after, domain@, now, r));
        r
    }

    /// `begin_email_check_at` on the cache's store, under its lock, now.
    pub fn begin_email_check(&self, email: &str) -> (r: Result<DomainStep, MailGuardError>)
        ensures
            exists|old: Map<Seq<char>, CacheEntry>, new: Map<Seq<char>, CacheEntry>, now: u64|
                begins_email_check(old, new, email@, now, r),
    {
        let (mut store, handle) = self.lock.acquire_write();
        let ghost before = store@;
        let now = self.now();
        let r = begin_email_check_at(&mut store, email, now);
        let ghost after = store@;
        handle.release_write(store);
        assert(begins_email_check(before, after, email@, now, r));
        r
    }

    /// `complete_domain_check_at` on the cache's store, under its lock, now.
    pub fn complete_domain_check(&self, domain: String, outcome: &LookupOutcome) -> (r: Result<DomainStatus, MailGuardError>)
        ensures
            r == fresh_status(domain, outcome_meaning(*outcome)),
    {
        let (mut store, handle) = self.lock.acquire_write();
        let r = complete_domain_check_at(&mut store, domain, outcome, self.now());
        handle.release_write(store);
        r
    }
}

/// Detector settings.
#[derive(Debug, Clone, Copy)]
pub struct MailGuardConfig {
    /// Lookup timeout, in milliseconds.
    pub dns_timeout: u64,
    /// Whether classifications are cached.
    pub enable_cache: bool,
    /// Lifetime of a cached classification, in milliseconds.
    pub cache_ttl: u64,
}

impl Default for MailGuardConfig {
    fn default() -> (r: MailGuardConfig)
        ensures
            r.dns_timeout == DEFAULT_DNS_TIMEOUT_MS,
            r.enable_cache,
            r.cache_ttl == DEFAULT_TTL_MS,
    {
        MailGuardConfig { dns_timeout: DEFAULT_DNS_TIMEOUT_MS, enable_cache: true, cache_ttl: DEFAULT_TTL_MS }
    }
}

/// What a domain check needs next.
#[derive(Debug)]
pub enum DomainStep {
    /// The cache answered; nothing is left to do.
    Cached(DomainStatus),
    /// `query` must be looked up; `domain` is the lower-cased domain to hand
    /// back with the answer.
    Lookup { domain: String, query: String },
}

/// The detector: validation, the cache, and the reading of block-list
/// answers. The lookups themselves are made by the caller, between
/// `begin_domain_check` and `complete_domain_check`.
pub struct MailGuard {
    cache: Option<Cache>,
    config: MailGuardConfig,
}

impl MailGuard {
    /// Whether this detector caches classifications.
    pub closed spec fn caching(&self) -> bool {
        self.cache is Some
    }

    /// The lifetime of its cache entries, when it caches.
    pub closed spec fn cache_ttl(&self) -> Option<u64> {
        match self.cache {
            Some(c) => Some(c.ttl()),
            None => None,
        }
    }

    /// The settings it was made with.
    pub closed spec fn settings(&self) -> MailGuardConfig {
        self.config
    }

    /// A detector with the default settings.
    pub fn new() -> (r: MailGuard)
        ensures
            r.caching(),
            r.settings().dns_timeout == DEFAULT_DNS_TIMEOUT_MS,
            r.settings().cache_ttl == DEFAULT_TTL_MS,
    {
        MailGuard::with_config(MailGuardConfig::default())
    }

    /// A detector with the given settings.
    pub fn with_config(config: MailGuardConfig) -> (r: MailGuard)
        ensures
            r.caching() == config.enable_cache,
            r.settings() == config,
            config.enable_cache ==> r.cache_ttl() == Some(config.cache_ttl),
    {
        let cache = if config.enable_cache {
            Some(Cache::with_ttl(config.cache_ttl))
        } else {
            None
        };
        MailGuard { cache, config }
    }

    /// The settings it was made with.
    pub fn config(&self) -> (r: &MailGuardConfig)
        ensures
            *r == self.settings(),
    {
        &self.config
    }

    /// First half of a domain check: validates the domain, lower-cases it,
    /// and answers from the cache when it holds a live entry; otherwise names
    /// the lookup to make. Without a cache it acts as on an empty store.
    pub fn begin_domain_check(&self, domain: &str) -> (r: Result<DomainStep, MailGuardError>)
        ensures
            self.caching() ==> exists|old: Map<Seq<char>, CacheEntry>, new: Map<Seq<char>, CacheEntry>, now: u64|
                begins_domain_check(old, new, domain@, now, r),
            !self.caching() ==> begins_domain_check(Map::empty(), Map::empty(), domain@, 0, r),
    {
        match &self.cache {
            Some(cache) => cache.begin_domain_check(domain),
            None => {
                let mut empty = CacheStore::with_ttl(0);
                begin_domain_check_at(&mut empty, domain, 0)
            },
        }
    }

    /// Second half of a domain check: reads the lookup's answer, caches the
    /// classification when caching is on (a clean answer too; nothing on a
    /// failure), and gives the status.
    pub fn complete_domain_check(&self, domain: String, outcome: &LookupOutcome) -> (r: Result<DomainStatus, MailGuardError>)
        ensures
            r == fresh_status(domain, outcome_meaning(*outcome)),
    {
        match &self.cache {
            Some(cache) => cache.complete_domain_check(domain, outcome),
            None => {
                let mut empty = CacheStore::with_ttl(0);
                complete_domain_check_at(&mut empty, domain, outcome, 0)
            },
        }
    }

    /// First half of an address check: validates the address, takes its
    /// domain, and goes on as `begin_domain_check` does with it.
    pub fn begin_email_check(&self, email: &str) -> (r: Result<DomainStep, MailGuardError>)
        ensures
            self.caching() ==> exists|old: Map<Seq<char>, CacheEntry>, new: Map<Seq<char>, CacheEntry>, now: u64|
                begins_email_check(old, new, email@, now, r),
            !self.caching() ==> begins_email_check(Map::empty(), Map::empty(), email@, 0, r),
    {
        match &self.cache {
            Some(cache) => cache.begin_email_check(email),
            None => {
                let mut empty = CacheStore::with_ttl(0);
                begin_email_check_at(&mut empty, email, 0)
            },
        }
    }

    /// Removes the stale entries of the cache, if there is one.
    pub fn cleanup_cache(&self) {
        if let Some(cache) = &self.cache {
            cache.cleanup_expired();
        }
    }

    /// Number of cached entries; `None` when caching is off.
    pub fn cache_stats(&self) -> (r: Option<usize>)
        ensures
            r is Some <==> self.caching(),
    {
        match &self.cache {
            Some(cache) => Some(cache.size()),
            None => None,
        }
    }

    /// Empties the cache, if there is one.
    pub fn clear_cache(&self) {
        if let Some(cache) = &self.cache {
            cache.clear();
        }
    }
}

impl Default for MailGuard {
    fn default() -> (r: MailGuard)
        ensures
            r.caching(),
            r.settings().dns_timeout == DEFAULT_DNS_TIMEOUT_MS,
            r.settings().cache_ttl == DEFAULT_TTL_MS,
    {
        MailGuard::new()
    }
}

/// The status of an address, from the status of its domain.
pub fn email_status(email: &str, status: DomainStatus) -> (r: EmailStatus)
    ensures
        r.email@ == email@,
        r.domain == status.domain,
        r.is_threat == status.is_threat,
        r.threat_type == status.threat_type,
        r.from_cache == status.from_cache,
{
    EmailStatus {
        email: String::from_str(email),
        domain: status.domain,
        is_threat: status.is_threat,
        threat_type: status.threat_type,
        from_cache: status.from_cache,
    }
}

} // verus!
