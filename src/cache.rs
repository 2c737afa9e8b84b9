use crate::threat::ThreatType;
use vstd::prelude::*;
use vstd::rwlock::{RwLock, RwLockPredicate};

verus! {

/// Default lifetime of a cached classification: five minutes, in milliseconds.
pub const DEFAULT_TTL_MS: u64 = 300000;

/// The monotonic clock's reading, carried through as an opaque value.
#[verifier::external_type_specification]
#[verifier::external_body]
pub struct ExInstant(std::time::Instant);

/// Relies on std::time::Instant::now: a reading of the monotonic clock.
pub assume_specification[ std::time::Instant::now ]() -> std::time::Instant;

/// Relies on std::time::Instant::elapsed: the time since a reading.
pub assume_specification[ std::time::Instant::elapsed ](i: &std::time::Instant) -> core::time::Duration;

/// Relies on core::time::Duration::as_millis: a duration in whole milliseconds.
pub assume_specification[ core::time::Duration::as_millis ](d: &core::time::Duration) -> u128;

/// A cached classification with the time it was made and how long it stays
/// valid, both in milliseconds (the time on the owning cache's clock).
#[derive(Debug, Clone, Copy)]
pub struct CacheEntry {
    pub threat_type: Option<ThreatType>,
    pub timestamp: u64,
    pub ttl: u64,
}

impl CacheEntry {
    /// The entry is stale at `now`: more than `ttl` has passed since it was made.
    pub open spec fn expired_at(self, now: u64) -> bool {
        now as int - self.timestamp as int > self.ttl as int
    }

    /// A new entry made at time `timestamp`.
    pub fn new(threat_type: Option<ThreatType>, ttl: u64, timestamp: u64) -> (r: CacheEntry)
        ensures
            r == (CacheEntry { threat_type, timestamp, ttl }),
    {
        CacheEntry { threat_type, timestamp, ttl }
    }

    /// Whether the entry is stale at time `now`.
    pub fn is_expired(&self, now: u64) -> (r: bool)
        ensures
            r == self.expired_at(now),
    {
        now > self.timestamp && now - self.timestamp > self.ttl
    }
}

/// One key of the store with its entry.
#[derive(Debug)]
pub struct CacheSlot {
    pub key: String,
    pub entry: CacheEntry,
}

/// The map that a sequence of slots stands for.
pub open spec fn slots_map(s: Seq<CacheSlot>) -> Map<Seq<char>, CacheEntry> {
    Map::new(
        |k: Seq<char>| exists|i: int| 0 <= i < s.len() && s[i].key@ == k,
        |k: Seq<char>| s[choose|i: int| 0 <= i < s.len() && s[i].key@ == k].entry,
    )
}

/// No key occurs twice.
pub open spec fn keys_distinct(s: Seq<CacheSlot>) -> bool {
    forall|i: int, j: int| 0 <= i < s.len() && 0 <= j < s.len() && i != j ==> s[i].key@ != s[j].key@
}

/// The entries of `m` that are still valid at `now`.
pub open spec fn live_part(m: Map<Seq<char>, CacheEntry>, now: u64) -> Map<Seq<char>, CacheEntry> {
    Map::new(|k: Seq<char>| m.contains_key(k) && !m[k].expired_at(now), |k: Seq<char>| m[k])
}

proof fn lemma_slots_map_at(s: Seq<CacheSlot>, i: int)
    requires
        keys_distinct(s),
        0 <= i < s.len(),
    ensures
        slots_map(s).contains_key(s[i].key@),
        slots_map(s)[s[i].key@] == s[i].entry,
{
    let k = s[i].key@;
    assert(exists|j: int| 0 <= j < s.len() && s[j].key@ == k);
    let j = choose|j: int| 0 <= j < s.len() && s[j].key@ == k;
    assert(j == i);
}

proof fn lemma_slots_map_absent(s: Seq<CacheSlot>, k: Seq<char>)
    requires
        forall|i: int| 0 <= i < s.len() ==> s[i].key@ != k,
    ensures
        !slots_map(s).contains_key(k),
{
}

proof fn lemma_slots_map_len(s: Seq<CacheSlot>)
    requires
        keys_distinct(s),
    ensures
        slots_map(s).dom().finite(),
        slots_map(s).dom().len() == s.len(),
{
    let keys = s.map_values(|c: CacheSlot| c.key@);
    assert(keys.no_duplicates()) by {
        assert forall|i: int, j: int| 0 <= i < keys.len() && 0 <= j < keys.len() && i != j
            implies keys[i] != keys[j] by {}
    }
    assert(slots_map(s).dom() =~= keys.to_set()) by {
        assert forall|k: Seq<char>| keys.to_set().contains(k) implies slots_map(s).dom().contains(k) by {
            let i = choose|i: int| 0 <= i < keys.len() && keys[i] == k;
            assert(s[i].key@ == k);
        }
        assert forall|k: Seq<char>| slots_map(s).dom().contains(k) implies keys.to_set().contains(k) by {
            let i = choose|i: int| 0 <= i < s.len() && s[i].key@ == k;
            assert(keys[i] == k);
        }
    }
    keys.unique_seq_to_set();
}

/// A store of classifications keyed by domain. Reads and writes take the
/// current time as an argument, so that what they do is fixed by it.
pub struct CacheStore {
    slots: Vec<CacheSlot>,
    default_ttl: u64,
}

impl View for CacheStore {
    type V = Map<Seq<char>, CacheEntry>;

    closed spec fn view(&self) -> Map<Seq<char>, CacheEntry> {
        slots_map(self.slots@)
    }
}

impl CacheStore {
    /// Each key is held once.
    pub closed spec fn wf(&self) -> bool {
        keys_distinct(self.slots@)
    }

    /// A well-formed store holds finitely many keys.
    pub proof fn lemma_finite(&self)
        requires
            self.wf(),
        ensures
            self@.dom().finite(),
    {
        lemma_slots_map_len(self.slots@);
    }

    /// The lifetime given to new entries.
    pub closed spec fn ttl(&self) -> u64 {
        self.default_ttl
    }

    /// An empty store whose entries live for `ttl` milliseconds.
    pub fn with_ttl(ttl: u64) -> (r: CacheStore)
        ensures
            r.wf(),
            r@.dom().finite(),
            r@ == Map::<Seq<char>, CacheEntry>::empty(),
            r.ttl() == ttl,
    {
        let r = CacheStore { slots: Vec::new(), default_ttl: ttl };
        assert(r@ =~= Map::<Seq<char>, CacheEntry>::empty());
        r
    }

    /// Position of `key`, if held.
    fn find(&self, key: &str) -> (r: Option<usize>)
        requires
            self.wf(),
        ensures
            match r {
                Some(i) => i < self.slots@.len() && self.slots@[i as int].key@ == key@,
                None => forall|i: int| 0 <= i < self.slots@.len() ==> self.slots@[i].key@ != key@,
            },
    {
        let target = key.to_owned();
        let mut i: usize = 0;
        while i < self.slots.len()
            invariant
                i <= self.slots@.len(),
                target@ == key@,
                forall|j: int| 0 <= j < i ==> self.slots@[j].key@ != key@,
            decreases self.slots@.len() - i,
        {
            if self.slots[i].key == target {
                return Some(i);
            }
            i = i + 1;
        }
        None
    }

    /// Looks `key` up at time `now`. A valid entry gives its classification;
    /// a stale one is removed and counts as absent.
    pub fn get_at(&mut self, key: &str, now: u64) -> (r: Option<Option<ThreatType>>)
        requires
            old(self).wf(),
        ensures
            final(self).wf(),
            final(self)@.dom().finite(),
            final(self).ttl() == old(self).ttl(),
            old(self)@.contains_key(key@) && !old(self)@[key@].expired_at(now) ==> r == Some(
                old(self)@[key@].threat_type,
            ) && final(self)@ == old(self)@,
            old(self)@.contains_key(key@) && old(self)@[key@].expired_at(now) ==> r is None
                && final(self)@ == old(self)@.remove(key@),
            !old(self)@.contains_key(key@) ==> r is None && final(self)@ == old(self)@,
    {
        let r = match self.find(key) {
            None => {
                proof {
                    lemma_slots_map_absent(self.slots@, key@);
                }
                None
            },
            Some(i) => {
                proof {
                    lemma_slots_map_at(self.slots@, i as int);
                }
                if !self.slots[i].entry.is_expired(now) {
                    Some(self.slots[i].entry.threat_type)
                } else {
                    let ghost before = self.slots@;
                    self.slots.remove(i);
                    proof {
                        let after = self.slots@;
                        assert(after =~= before.remove(i as int));
                        assert(keys_distinct(after));
                        assert(self@ =~= slots_map(before).remove(key@)) by {
                            assert forall|k: Seq<char>| #[trigger] self@.contains_key(k) implies slots_map(before).remove(key@).contains_key(k) && self@[k] == slots_map(before).remove(key@)[k] by {
                                let j = choose|j: int| 0 <= j < after.len() && after[j].key@ == k;
                                lemma_slots_map_at(after, j);
                                let jj = if j < i { j } else { j + 1 };
                                assert(before[jj] == after[j]);
                                lemma_slots_map_at(before, jj);
                            }
                            assert forall|k: Seq<char>| #[trigger] slots_map(before).remove(key@).contains_key(k) implies self@.contains_key(k) by {
                                let j = choose|j: int| 0 <= j < before.len() && before[j].key@ == k;
                                assert(j != i);
                                let jj = if j < i { j } else { j - 1 };
                                assert(after[jj] == before[j]);
                            }
                        }
                    }
                    None
                }
            },
        };
        proof {
            self.lemma_finite();
        }
        r
    }

    /// Stores `threat_type` under `key`, stamped `now`, replacing any entry.
    pub fn set_at(&mut self, key: String, threat_type: Option<ThreatType>, now: u64)
        requires
            old(self).wf(),
        ensures
            final(self).wf(),
            final(self)@.dom().finite(),
            final(self).ttl() == old(self).ttl(),
            final(self)@ == old(self)@.insert(
                key@,
                CacheEntry { threat_type, timestamp: now, ttl: old(self).ttl() },
            ),
    {
        let entry = CacheEntry { threat_type, timestamp: now, ttl: self.default_ttl };
        let ghost before = self.slots@;
        let ghost k = key@;
        match self.find(key.as_str()) {
            Some(i) => {
                self.slots.set(i, CacheSlot { key, entry });
                proof {
                    let after = self.slots@;
                    assert(keys_distinct(after));
                    assert(self@ =~= slots_map(before).insert(k, entry)) by {
                        assert forall|q: Seq<char>| #[trigger] self@.contains_key(q) implies slots_map(before).insert(k, entry).contains_key(q) && self@[q] == slots_map(before).insert(k, entry)[q] by {
                            let j = choose|j: int| 0 <= j < after.len() && after[j].key@ == q;
                            lemma_slots_map_at(after, j);
                            if j != i {
                                lemma_slots_map_at(before, j);
                            }
                        }
                        assert forall|q: Seq<char>| #[trigger] slots_map(before).insert(k, entry).contains_key(q) implies self@.contains_key(q) by {
                            if q != k {
                                let j = choose|j: int| 0 <= j < before.len() && before[j].key@ == q;
                                assert(after[j].key@ == q);
                            } else {
                                assert(after[i as int].key@ == q);
                            }
                        }
                    }
                }
            },
            None => {
                self.slots.push(CacheSlot { key, entry });
                proof {
                    let after = self.slots@;
                    assert(keys_distinct(after));
                    assert(self@ =~= slots_map(before).insert(k, entry)) by {
                        assert forall|q: Seq<char>| #[trigger] self@.contains_key(q) implies slots_map(before).insert(k, entry).contains_key(q) && self@[q] == slots_map(before).insert(k, entry)[q] by {
                            let j = choose|j: int| 0 <= j < after.len() && after[j].key@ == q;
                            lemma_slots_map_at(after, j);
                            if j < before.len() {
                                assert(before[j] == after[j]);
                                lemma_slots_map_at(before, j);
                            }
                        }
                        assert forall|q: Seq<char>| #[trigger] slots_map(before).insert(k, entry).contains_key(q) implies self@.contains_key(q) by {
                            if q != k {
                                let j = choose|j: int| 0 <= j < before.len() && before[j].key@ == q;
                                assert(after[j].key@ == q);
                            } else {
                                assert(after[before.len() as int].key@ == q);
                            }
                        }
                    }
                }
            },
        }
        proof {
            self.lemma_finite();
        }
    }

    /// Removes every entry that is stale at `now`.
    pub fn cleanup_at(&mut self, now: u64)
        requires
            old(self).wf(),
        ensures
            final(self).wf(),
            final(self)@.dom().finite(),
            final(self).ttl() == old(self).ttl(),
            final(self)@ == live_part(old(self)@, now),
    {
        let ghost before = self.slots@;
        let mut kept: Vec<CacheSlot> = Vec::new();
        let mut rest: Vec<CacheSlot> = Vec::new();
        std::mem::swap(&mut rest, &mut self.slots);
        assert(rest@ == before);
        let ghost orig = rest@;
        let mut i: usize = 0;
        let n: usize = rest.len();
        while i < n
            invariant
                n == orig.len(),
                rest@.len() == n - i,
                i <= n,
                rest@ == orig.subrange(0, n - i),
                keys_distinct(orig),
                forall|j: int| #![trigger kept@[j]] 0 <= j < kept@.len() ==> exists|m: int| n - i <= m < n && orig[m] == kept@[j],
                keys_distinct(kept@),
                forall|m: int| #![trigger orig[m]] n - i <= m < n && !orig[m].entry.expired_at(now) ==> exists|j: int| 0 <= j < kept@.len() && kept@[j] == orig[m],
                forall|j: int| 0 <= j < kept@.len() ==> !kept@[j].entry.expired_at(now),
            decreases n - i,
        {
            let slot = rest.pop().unwrap();
            assert(slot == orig[n - 1 - i]);
            if !slot.entry.is_expired(now) {
                let ghost kb = kept@;
                proof {
                    assert forall|j: int| 0 <= j < kb.len() implies kb[j].key@ != slot.key@ by {
                        let m = choose|m: int| n - i <= m < n && orig[m] == kb[j];
                        assert(m != n - 1 - i);
                    }
                }
                kept.push(slot);
                proof {
                    assert forall|j: int| #![trigger kept@[j]] 0 <= j < kept@.len() implies exists|m: int| n - (i + 1) <= m < n && orig[m] == kept@[j] by {
                        if j < kb.len() {
                            let m = choose|m: int| n - i <= m < n && orig[m] == kb[j];
                            assert(orig[m] == kept@[j]);
                        } else {
                            assert(orig[n - 1 - i] == kept@[j]);
                        }
                    }
                    assert forall|m: int| #![trigger orig[m]] n - (i + 1) <= m < n && !orig[m].entry.expired_at(now) implies exists|j: int| 0 <= j < kept@.len() && kept@[j] == orig[m] by {
                        if m == n - 1 - i {
                            assert(kept@[kb.len() as int] == orig[m]);
                        } else {
                            let j = choose|j: int| 0 <= j < kb.len() && kb[j] == orig[m];
                            assert(kept@[j] == orig[m]);
                        }
                    }
                }
            }
            i = i + 1;
        }
        self.slots = kept;
        proof {
            let after = self.slots@;
            assert(self@ =~= live_part(slots_map(orig), now)) by {
                assert forall|q: Seq<char>| #[trigger] self@.contains_key(q) implies live_part(slots_map(orig), now).contains_key(q) && self@[q] == live_part(slots_map(orig), now)[q] by {
                    let j = choose|j: int| 0 <= j < after.len() && after[j].key@ == q;
                    lemma_slots_map_at(after, j);
                    let m = choose|m: int| 0 <= m < n && orig[m] == after[j];
                    lemma_slots_map_at(orig, m);
                }
                assert forall|q: Seq<char>| #[trigger] live_part(slots_map(orig), now).contains_key(q) implies self@.contains_key(q) by {
                    let m = choose|m: int| 0 <= m < orig.len() && orig[m].key@ == q;
                    lemma_slots_map_at(orig, m);
                    let j = choose|j: int| 0 <= j < after.len() && after[j] == orig[m];
                    assert(after[j].key@ == q);
                }
            }
        }
        proof {
            self.lemma_finite();
        }
    }

    /// Number of entries held, stale ones included.
    pub fn len(&self) -> (r: usize)
        requires
            self.wf(),
        ensures
            r == self@.len(),
    {
        proof {
            lemma_slots_map_len(self.slots@);
        }
        self.slots.len()
    }

    /// Removes every entry.
    pub fn clear(&mut self)
        ensures
            final(self).wf(),
            final(self)@.dom().finite(),
            final(self).ttl() == old(self).ttl(),
            final(self)@ == Map::<Seq<char>, CacheEntry>::empty(),
    {
        self.slots = Vec::new();
        assert(self@ =~= Map::<Seq<char>, CacheEntry>::empty());
    }
}

/// Cleaning up removes exactly the stale entries: an entry whose age exceeds
/// its lifetime is gone afterwards, and every other entry stays as it was.
pub proof fn lemma_cleanup_removes_stale(m: Map<Seq<char>, CacheEntry>, k: Seq<char>, now: u64)
    ensures
        m.contains_key(k) && m[k].expired_at(now) ==> !live_part(m, now).contains_key(k),
        m.contains_key(k) && !m[k].expired_at(now) ==> live_part(m, now).contains_key(k)
            && live_part(m, now)[k] == m[k],
        !m.contains_key(k) ==> !live_part(m, now).contains_key(k),
{
}

/// Right after a classification is stored, a lookup of the same key within
/// the entry's lifetime finds it: it is present, not stale, and holds what
/// was stored.
pub proof fn lemma_get_after_set(
    m: Map<Seq<char>, CacheEntry>,
    k: Seq<char>,
    t: Option<ThreatType>,
    stored_at: u64,
    ttl: u64,
    read_at: u64,
)
    requires
        read_at as int - stored_at as int <= ttl as int,
    ensures
        ({
            let m2 = m.insert(k, CacheEntry { threat_type: t, timestamp: stored_at, ttl });
            &&& m2.contains_key(k)
            &&& !m2[k].expired_at(read_at)
            &&& m2[k].threat_type == t
        }),
{
}

/// A second cleanup at the same time changes nothing.
pub proof fn lemma_cleanup_idempotent(m: Map<Seq<char>, CacheEntry>, now: u64)
    ensures
        live_part(live_part(m, now), now) == live_part(m, now),
{
    assert(live_part(live_part(m, now), now) =~= live_part(m, now));
}

/// The lock's invariant: the store it guards is well formed and gives new
/// entries the lifetime `ttl`.
pub struct StoreWellFormed {
    pub ttl: u64,
}

impl RwLockPredicate<CacheStore> for StoreWellFormed {
    open spec fn inv(self, v: CacheStore) -> bool {
        v.wf() && v.ttl() == self.ttl
    }
}

/// A classification cache that many threads can share. Each operation holds
/// the lock for its own duration only and reads the clock once.
pub struct Cache {
    pub(crate) lock: RwLock<CacheStore, StoreWellFormed>,
    pub(crate) origin: std::time::Instant,
}

impl Cache {
    /// The lifetime given to new entries, in milliseconds.
    pub closed spec fn ttl(&self) -> u64 {
        self.lock.pred().ttl
    }

    /// An empty cache whose entries live for five minutes.
    pub fn new() -> (r: Cache)
        ensures
            r.ttl() == DEFAULT_TTL_MS,
    {
        Cache::with_ttl(DEFAULT_TTL_MS)
    }

    /// An empty cache whose entries live for `ttl` milliseconds.
    pub fn with_ttl(ttl: u64) -> (r: Cache)
        ensures
            r.ttl() == ttl,
    {
        Cache {
            lock: RwLock::new(CacheStore::with_ttl(ttl), Ghost(StoreWellFormed { ttl })),
            origin: std::time::Instant::now(),
        }
    }

    /// Milliseconds since the cache was made, on the monotonic clock
    /// (saturating at the largest `u64`).
    pub(crate) fn now(&self) -> u64 {
        let ms = self.origin.elapsed().as_millis();
        if ms > u64::MAX as u128 {
            u64::MAX
        } else {
            ms as u64
        }
    }

    /// The classification stored under `key`, unless it is absent or stale;
    /// a stale entry is removed.
    pub fn get(&self, key: &str) -> (r: Option<Option<ThreatType>>) {
        let (mut store, handle) = self.lock.acquire_write();
        let r = store.get_at(key, self.now());
        handle.release_write(store);
        r
    }

    /// Stores a classification under `key`, stamped now, replacing any entry.
    pub fn set(&self, key: String, threat_type: Option<ThreatType>) {
        let (mut store, handle) = self.lock.acquire_write();
        store.set_at(key, threat_type, self.now());
        handle.release_write(store);
    }

    /// Removes every stale entry.
    pub fn cleanup_expired(&self) {
        let (mut store, handle) = self.lock.acquire_write();
        store.cleanup_at(self.now());
        handle.release_write(store);
    }

    /// Number of entries held.
    pub fn size(&self) -> (r: usize) {
        let handle = self.lock.acquire_read();
        let r = handle.borrow().len();
        handle.release_read();
        r
    }

    /// Removes every entry.
    pub fn clear(&self) {
        let (mut store, handle) = self.lock.acquire_write();
        store.clear();
        handle.release_write(store);
    }
}

impl Default for Cache {
    fn default() -> (r: Cache)
        ensures
            r.ttl() == DEFAULT_TTL_MS,
    {
        Cache::new()
    }
}

} // verus!
