//! The HTTP response cache: response bodies keyed by request fingerprint,
//! with time-based eviction. Time is supplied by the caller as unix
//! milliseconds, so freshness is a pure function of the entry and the clock.
//!
//! Entries live in insertion order. When the cache is full and a new key
//! arrives, the entry at the front — oldest by insertion — is evicted;
//! storing a key again moves it to the back and restarts its TTL clock.
//! A TTL of zero disables caching entirely: nothing is stored and every
//! lookup misses.

use crate::codec::{
    decode_entries, encode_entries, entry_views, spec_decode, spec_encode, KeyVal, SavedEntry,
};
use vstd::prelude::*;
use vstd::utf8::encode_utf8;

verus! {

/// Options for building a cache-backed HTTP client. Durations are in
/// milliseconds.
#[derive(Debug, Clone, Default)]
pub struct Opts {
    /// How long to wait between requests to the same site.
    pub request_delay: u64,
    /// How long to wait before timing out a request.
    pub request_timeout: u64,
    /// Time to live for a cached response; zero disables caching.
    pub cache_ttl: u64,
    /// Maximum resident entries.
    pub cache_capacity: usize,
    /// Where to save the cache between runs; `None` disables saving/loading.
    pub cache_path: Option<String>,
}

/// One resident cache entry: a request fingerprint, the raw response body,
/// and the time the entry was stored.
#[derive(Debug, Clone, PartialEq)]
pub struct CacheEntry {
    pub key: String,
    pub value: Vec<u8>,
    pub inserted_at: u64,
}

/// The mathematical content of one entry: key characters, value bytes, and
/// insertion time.
pub type EntryView = (Seq<char>, Seq<u8>, u64);

/// The entries' contents, in order.
pub open spec fn views_of(es: Seq<CacheEntry>) -> Seq<EntryView> {
    es.map_values(|e: CacheEntry| (e.key@, e.value@, e.inserted_at))
}

/// No two entries share a key.
pub open spec fn unique_keys(v: Seq<EntryView>) -> bool {
    forall|i: int, j: int|
        0 <= i < j < v.len() ==> (#[trigger] v[i]).0 != (#[trigger] v[j]).0
}

/// Some entry has this key.
pub open spec fn has_key(v: Seq<EntryView>, key: Seq<char>) -> bool {
    exists|i: int| 0 <= i < v.len() && (#[trigger] v[i]).0 == key
}

/// Whether an entry still answers lookups at time `now`: it was stored less
/// than `ttl` milliseconds ago (a clock that moved backwards counts as
/// fresh), and caching is enabled at all.
pub open spec fn fresh_view(e: EntryView, ttl: u64, now: u64) -> bool {
    ttl > 0 && (now as int) < e.2 + ttl
}

/// What a lookup returns: the value stored under the key, provided that
/// entry is still fresh at `now`.
pub open spec fn spec_lookup(v: Seq<EntryView>, ttl: u64, key: Seq<char>, now: u64) -> Option<
    Seq<u8>,
> {
    if exists|i: int|
        0 <= i < v.len() && (#[trigger] v[i]).0 == key && fresh_view(v[i], ttl, now) {
        let i = choose|i: int|
            0 <= i < v.len() && (#[trigger] v[i]).0 == key && fresh_view(v[i], ttl, now);
        Some(v[i].1)
    } else {
        None
    }
}

/// The entries with the given key taken out, order kept.
pub open spec fn remove_key(v: Seq<EntryView>, key: Seq<char>) -> Seq<EntryView>
    decreases v.len(),
{
    if v.len() == 0 {
        Seq::empty()
    } else {
        let rest = remove_key(v.drop_last(), key);
        if v.last().0 == key {
            rest
        } else {
            rest.push(v.last())
        }
    }
}

/// What storing a response does to the entries: with caching disabled,
/// nothing; otherwise any entry under the same key is dropped, the oldest
/// entry is evicted if the cache is full, and the new entry goes to the
/// back, stamped `now`.
pub open spec fn insert_view(
    v: Seq<EntryView>,
    key: Seq<char>,
    value: Seq<u8>,
    now: u64,
    ttl: u64,
    capacity: int,
) -> Seq<EntryView> {
    if ttl == 0 {
        v
    } else {
        let cleared = remove_key(v, key);
        if capacity <= 0 {
            cleared
        } else {
            let room = if cleared.len() >= capacity {
                cleared.drop_first()
            } else {
                cleared
            };
            room.push((key, value, now))
        }
    }
}

/// The entries that survive an expiry sweep at time `now`, order kept.
pub open spec fn sweep_view(v: Seq<EntryView>, ttl: u64, now: u64) -> Seq<EntryView>
    decreases v.len(),
{
    if v.len() == 0 {
        Seq::empty()
    } else {
        let rest = sweep_view(v.drop_last(), ttl, now);
        if fresh_view(v.last(), ttl, now) {
            rest.push(v.last())
        } else {
            rest
        }
    }
}

/// What a cache preloaded from saved records holds: each record stored in
/// order, every one stamped with the reload time `now` — a reload resets
/// each entry's TTL clock, so stale data can look fresh after a restart.
pub open spec fn preload_view(ps: Seq<KeyVal>, ttl: u64, capacity: int, now: u64) -> Seq<
    EntryView,
>
    decreases ps.len(),
{
    if ps.len() == 0 {
        Seq::empty()
    } else {
        insert_view(
            preload_view(ps.drop_last(), ttl, capacity, now),
            ps.last().0,
            ps.last().1,
            now,
            ttl,
            capacity,
        )
    }
}

/// The entries as snapshot records: their keys and values, times dropped.
pub open spec fn saved_views(v: Seq<EntryView>) -> Seq<KeyVal> {
    v.map_values(|e: EntryView| (e.0, e.1))
}

/// Removing an absent key changes nothing.
proof fn lemma_remove_key_absent(v: Seq<EntryView>, key: Seq<char>)
    requires
        !has_key(v, key),
    ensures
        remove_key(v, key) == v,
    decreases v.len(),
{
    if v.len() > 0 {
        assert(!has_key(v.drop_last(), key)) by {
            if has_key(v.drop_last(), key) {
                let i = choose|i: int|
                    0 <= i < v.drop_last().len() && (#[trigger] v.drop_last()[i]).0 == key;
                assert(v[i].0 == key);
            }
        }
        lemma_remove_key_absent(v.drop_last(), key);
        assert(v[v.len() - 1].0 != key);
        assert(remove_key(v, key) =~= v);
    }
}

/// A key found after removal was there before removal.
proof fn lemma_remove_key_has_key(v: Seq<EntryView>, key: Seq<char>, other: Seq<char>)
    requires
        has_key(remove_key(v, key), other),
    ensures
        has_key(v, other),
    decreases v.len(),
{
    if v.len() > 0 {
        let rest = remove_key(v.drop_last(), key);
        if v.last().0 == key {
            lemma_remove_key_has_key(v.drop_last(), key, other);
            let i = choose|i: int| 0 <= i < v.drop_last().len() && (#[trigger] v.drop_last()[i]).0 == other;
            assert(v[i].0 == other);
        } else {
            let r = remove_key(v, key);
            let j = choose|j: int| 0 <= j < r.len() && (#[trigger] r[j]).0 == other;
            if j < rest.len() {
                lemma_remove_key_has_key(v.drop_last(), key, other);
                let i = choose|i: int| 0 <= i < v.drop_last().len() && (#[trigger] v.drop_last()[i]).0 == other;
                assert(v[i].0 == other);
            } else {
                assert(v[v.len() - 1].0 == other);
            }
        }
    }
}

/// Removal keeps keys unique, never grows the entries, and leaves no entry
/// under the removed key.
proof fn lemma_remove_key_props(v: Seq<EntryView>, key: Seq<char>)
    requires
        unique_keys(v),
    ensures
        unique_keys(remove_key(v, key)),
        remove_key(v, key).len() <= v.len(),
        !has_key(remove_key(v, key), key),
    decreases v.len(),
{
    if v.len() > 0 {
        assert(unique_keys(v.drop_last()));
        lemma_remove_key_props(v.drop_last(), key);
        let rest = remove_key(v.drop_last(), key);
        if v.last().0 != key {
            let r = rest.push(v.last());
            assert(unique_keys(r)) by {
                assert forall|i: int, j: int| 0 <= i < j < r.len() implies (#[trigger] r[i]).0 != (
                #[trigger] r[j]).0 by {
                    if j == r.len() - 1 {
                        if r[i].0 == v.last().0 {
                            lemma_remove_key_has_key(v.drop_last(), key, r[i].0);
                            let m = choose|m: int|
                                0 <= m < v.drop_last().len() && (#[trigger] v.drop_last()[m]).0
                                    == r[i].0;
                            assert(v[m].0 == v[v.len() - 1].0);
                        }
                    }
                }
            }
            assert(!has_key(r, key)) by {
                if has_key(r, key) {
                    let i = choose|i: int| 0 <= i < r.len() && (#[trigger] r[i]).0 == key;
                    assert(0 <= i < rest.len());
                }
            }
        }
    }
}

/// When keys are unique, removing the key found at index `i` is exactly
/// taking that one entry out.
proof fn lemma_remove_key_at(v: Seq<EntryView>, key: Seq<char>, i: int)
    requires
        unique_keys(v),
        0 <= i < v.len(),
        v[i].0 == key,
    ensures
        remove_key(v, key) == v.remove(i),
    decreases v.len(),
{
    if i == v.len() - 1 {
        assert(!has_key(v.drop_last(), key)) by {
            if has_key(v.drop_last(), key) {
                let j = choose|j: int|
                    0 <= j < v.drop_last().len() && (#[trigger] v.drop_last()[j]).0 == key;
                assert(v[j].0 == v[i].0);
            }
        }
        lemma_remove_key_absent(v.drop_last(), key);
        assert(remove_key(v, key) =~= v.remove(i));
    } else {
        assert(unique_keys(v.drop_last()));
        lemma_remove_key_at(v.drop_last(), key, i);
        assert(v.last().0 != key);
        assert(remove_key(v, key) =~= v.remove(i)) by {
            assert(v.drop_last().remove(i).push(v.last()) =~= v.remove(i));
        }
    }
}

/// The response cache itself. `wf` is its invariant: keys unique, no more
/// entries than the capacity, and none at all when caching is disabled.
#[derive(Debug, Clone)]
pub struct Cache {
    /// Time to live in milliseconds; zero disables caching.
    pub ttl: u64,
    /// Maximum resident entries.
    pub capacity: usize,
    /// Resident entries, oldest insertion first.
    pub entries: Vec<CacheEntry>,
}

impl Cache {
    /// The entries' contents, in order.
    pub open spec fn contents(self) -> Seq<EntryView> {
        views_of(self.entries@)
    }

    /// The cache's invariant.
    pub open spec fn wf(self) -> bool {
        &&& unique_keys(self.contents())
        &&& self.entries@.len() <= self.capacity
        &&& self.ttl == 0 ==> self.entries@.len() == 0
    }

    /// How many entries are resident.
    pub fn len(&self) -> (n: usize)
        ensures
            n == self.contents().len(),
    {
        self.entries.len()
    }

    /// The cached response under `key`, provided it is still fresh at `now`;
    /// a miss means the caller must go to the network.
    pub fn lookup(&self, key: &String, now: u64) -> (r: Option<Vec<u8>>)
        requires
            self.wf(),
        ensures
            match r {
                Some(val) => spec_lookup(self.contents(), self.ttl, key@, now) == Some(val@),
                None => spec_lookup(self.contents(), self.ttl, key@, now) is None,
            },
            self.ttl == 0 ==> r is None,
    {
        let ghost v = self.contents();
        let mut i: usize = 0;
        while i < self.entries.len()
            invariant
                self.wf(),
                v == self.contents(),
                i <= v.len(),
                forall|j: int|
                    0 <= j < i ==> !((#[trigger] v[j]).0 == key@ && fresh_view(
                        v[j],
                        self.ttl,
                        now,
                    )),
            decreases v.len() - i,
        {
            let e = &self.entries[i];
            if e.key == *key && is_fresh(e, self.ttl, now) {
                let val = clone_bytes(&e.value);
                proof {
                    assert(v[i as int].0 == key@ && fresh_view(v[i as int], self.ttl, now));
                    let w = choose|w: int|
                        0 <= w < v.len() && (#[trigger] v[w]).0 == key@ && fresh_view(
                            v[w],
                            self.ttl,
                            now,
                        );
                    assert(w == i as int);
                }
                return Some(val);
            }
            i = i + 1;
        }
        None
    }

    /// Store the response fetched for `key`, stamped `now`. With caching
    /// disabled (TTL zero) nothing is stored.
    pub fn insert(&mut self, key: &String, value: Vec<u8>, now: u64)
        requires
            old(self).wf(),
        ensures
            final(self).wf(),
            final(self).ttl == old(self).ttl,
            final(self).capacity == old(self).capacity,
            final(self).contents() == insert_view(
                old(self).contents(),
                key@,
                value@,
                now,
                old(self).ttl,
                old(self).capacity as int,
            ),
            old(self).ttl == 0 ==> *final(self) == *old(self),
    {
        let ghost v0 = self.contents();
        if self.ttl == 0 {
            return ;
        }
        proof {
            lemma_remove_key_props(v0, key@);
        }
        // drop any entry already stored under this key
        let mut i: usize = 0;
        let mut removed = false;
        while i < self.entries.len() && !removed
            invariant
                i <= self.entries@.len(),
                !removed ==> self.contents() == v0 && forall|j: int|
                    0 <= j < i ==> (#[trigger] v0[j]).0 != key@,
                removed ==> self.contents() == remove_key(v0, key@),
                unique_keys(v0),
                self.entries@.len() <= old(self).capacity,
                self.ttl == old(self).ttl,
                self.capacity == old(self).capacity,
                self.ttl > 0,
            decreases self.entries@.len() - i,
        {
            if self.entries[i].key == *key {
                proof {
                    lemma_remove_key_at(v0, key@, i as int);
                }
                self.entries.remove(i);
                proof {
                    assert(self.contents() =~= v0.remove(i as int));
                }
                removed = true;
            } else {
                i = i + 1;
            }
        }
        proof {
            if !removed {
                assert(v0.len() == self.entries@.len());
                assert(i >= v0.len());
                assert(!has_key(v0, key@)) by {
                    if has_key(v0, key@) {
                        let w = choose|w: int| 0 <= w < v0.len() && (#[trigger] v0[w]).0 == key@;
                        assert(v0[w].0 != key@);
                    }
                }
                lemma_remove_key_absent(v0, key@);
            }
            assert(self.contents() == remove_key(v0, key@));
        }
        let ghost cleared = remove_key(v0, key@);
        if self.capacity == 0 {
            return ;
        }
        if self.entries.len() >= self.capacity {
            self.entries.remove(0);
            proof {
                assert(self.contents() =~= cleared.drop_first());
            }
        }
        self.entries.push(
            CacheEntry { key: key.clone(), value, inserted_at: now },
        );
        proof {
            let roomed = if cleared.len() >= old(self).capacity {
                cleared.drop_first()
            } else {
                cleared
            };
            assert(self.contents() =~= roomed.push((key@, value@, now)));
            lemma_insert_view_unique(v0, key@, value@, now, self.ttl, self.capacity as int);
        }
    }

    /// Build a cache from options and the records of a loaded snapshot,
    /// storing each record in order at time `now`. Every preloaded entry's
    /// TTL clock starts at `now`, not at its original insertion time: a very
    /// old snapshot still gives "valid" results until the TTL expires after
    /// the load.
    pub fn build(opts: &Opts, preloaded: Vec<SavedEntry>, now: u64) -> (c: Cache)
        ensures
            c.wf(),
            c.ttl == opts.cache_ttl,
            c.capacity == opts.cache_capacity,
            c.contents() == preload_view(
                entry_views(preloaded@),
                opts.cache_ttl,
                opts.cache_capacity as int,
                now,
            ),
    {
        let mut c = Cache { ttl: opts.cache_ttl, capacity: opts.cache_capacity, entries: Vec::new() };
        let ghost ps = entry_views(preloaded@);
        proof {
            assert(c.contents() =~= Seq::<EntryView>::empty());
            assert(ps.take(0) =~= Seq::<KeyVal>::empty());
        }
        let mut i: usize = 0;
        while i < preloaded.len()
            invariant
                i <= preloaded@.len(),
                ps == entry_views(preloaded@),
                c.wf(),
                c.ttl == opts.cache_ttl,
                c.capacity == opts.cache_capacity,
                c.contents() == preload_view(
                    ps.take(i as int),
                    opts.cache_ttl,
                    opts.cache_capacity as int,
                    now,
                ),
            decreases preloaded@.len() - i,
        {
            let e = &preloaded[i];
            let val = clone_bytes(&e.value);
            c.insert(&e.key, val, now);
            proof {
                assert(ps.take(i + 1).drop_last() =~= ps.take(i as int));
                assert(ps.take(i + 1).last() == ps[i as int]);
            }
            i = i + 1;
        }
        proof {
            assert(ps.take(ps.len() as int) =~= ps);
        }
        c
    }

    /// Drop every entry that is no longer fresh at `now`.
    pub fn sweep(&mut self, now: u64)
        requires
            old(self).wf(),
        ensures
            final(self).wf(),
            final(self).ttl == old(self).ttl,
            final(self).capacity == old(self).capacity,
            final(self).contents() == sweep_view(old(self).contents(), old(self).ttl, now),
    {
        let ghost v0 = self.contents();
        let mut kept: Vec<CacheEntry> = Vec::new();
        let mut i: usize = 0;
        while i < self.entries.len()
            invariant
                i <= self.entries@.len(),
                v0 == self.contents(),
                views_of(kept@) == sweep_view(v0.take(i as int), self.ttl, now),
            decreases self.entries@.len() - i,
        {
            let e = &self.entries[i];
            if is_fresh(e, self.ttl, now) {
                kept.push(
                    CacheEntry {
                        key: e.key.clone(),
                        value: clone_bytes(&e.value),
                        inserted_at: e.inserted_at,
                    },
                );
            }
            proof {
                assert(v0.take(i + 1).drop_last() =~= v0.take(i as int));
                assert(v0.take(i + 1).last() == v0[i as int]);
                assert(views_of(kept@) =~= sweep_view(v0.take(i + 1), self.ttl, now));
            }
            i = i + 1;
        }
        proof {
            assert(v0.take(v0.len() as int) =~= v0);
        }
        self.entries = kept;
        proof {
            lemma_sweep_props(v0, self.ttl, now);
        }
    }
}

/// Whether the entry is still fresh at `now`.
fn is_fresh(e: &CacheEntry, ttl: u64, now: u64) -> (r: bool)
    ensures
        r == fresh_view((e.key@, e.value@, e.inserted_at), ttl, now),
{
    ttl > 0 && (now < e.inserted_at || now - e.inserted_at < ttl)
}

/// A fresh vector with the same bytes.
fn clone_bytes(v: &Vec<u8>) -> (r: Vec<u8>)
    ensures
        r@ == v@,
{
    let mut out: Vec<u8> = Vec::new();
    let mut i: usize = 0;
    while i < v.len()
        invariant
            i <= v@.len(),
            out@ == v@.take(i as int),
        decreases v@.len() - i,
    {
        out.push(v[i]);
        proof {
            assert(out@ =~= v@.take(i + 1));
        }
        i = i + 1;
    }
    proof {
        assert(v@.take(v@.len() as int) =~= v@);
    }
    out
}

/// Collects entries on their way between a [`Cache`] and a snapshot file.
/// The file I/O itself is the caller's business; the builder only turns
/// entries into snapshot bytes and back.
pub struct CacheBuilder {
    pub store: Vec<SavedEntry>,
}

impl CacheBuilder {
    /// An empty builder with room reserved for `cap` entries.
    pub fn with_capacity(cap: usize) -> (b: CacheBuilder)
        ensures
            b.store@.len() == 0,
    {
        CacheBuilder { store: Vec::with_capacity(cap) }
    }

    /// Run the cache's expiry sweep, then copy every entry still resident
    /// into the builder, for saving to a file. The sweep comes first so that
    /// expired-but-not-yet-purged entries are not persisted.
    pub fn from_cache(cache: &mut Cache, now: u64) -> (b: CacheBuilder)
        requires
            old(cache).wf(),
        ensures
            final(cache).wf(),
            final(cache).ttl == old(cache).ttl,
            final(cache).capacity == old(cache).capacity,
            final(cache).contents() == sweep_view(old(cache).contents(), old(cache).ttl, now),
            entry_views(b.store@) == saved_views(final(cache).contents()),
    {
        cache.sweep(now);
        let ghost v = cache.contents();
        let mut store: Vec<SavedEntry> = Vec::new();
        proof {
            assert(entry_views(store@) =~= saved_views(v.take(0)));
        }
        let mut i: usize = 0;
        while i < cache.entries.len()
            invariant
                i <= cache.entries@.len(),
                v == cache.contents(),
                entry_views(store@) == saved_views(v.take(i as int)),
            decreases cache.entries@.len() - i,
        {
            let ghost store0 = store@;
            let e = &cache.entries[i];
            let record = SavedEntry { key: e.key.clone(), value: clone_bytes(&e.value) };
            let ghost grecord = record;
            store.push(record);
            proof {
                assert(store@ == store0.push(grecord));
                assert(grecord.key@ == cache.entries@[i as int].key@);
                assert(grecord.value@ == cache.entries@[i as int].value@);
                assert(v[i as int] == (cache.entries@[i as int].key@, cache.entries@[
                    i as int
                ].value@, cache.entries@[i as int].inserted_at));
                lemma_entry_views_push(store0, grecord);
                lemma_saved_views_take_push(v, i as int);
                assert(entry_views(store@) == saved_views(v.take(i + 1)));
            }
            i = i + 1;
        }
        proof {
            assert(v.take(v.len() as int) =~= v);
        }
        CacheBuilder { store }
    }

    /// Serialize the collected entries into the snapshot format.
    pub fn save(self) -> (out: Vec<u8>)
        ensures
            out@ == spec_encode(entry_views(self.store@)),
    {
        encode_entries(&self.store)
    }

    /// Replace the collected entries with the records of a snapshot. On a
    /// malformed snapshot the builder is left unchanged and `false` comes
    /// back: the caller logs a warning and proceeds with an empty cache.
    pub fn load(&mut self, bytes: &Vec<u8>) -> (ok: bool)
        ensures
            ok ==> spec_decode(bytes@) == Some(entry_views(final(self).store@)),
            !ok ==> spec_decode(bytes@) is None && *final(self) == *old(self),
    {
        match decode_entries(bytes) {
            Some(es) => {
                self.store = es;
                true
            },
            None => false,
        }
    }
}

/// Appending a record appends its contents.
proof fn lemma_entry_views_push(es: Seq<SavedEntry>, e: SavedEntry)
    ensures
        entry_views(es.push(e)) == entry_views(es).push((e.key@, e.value@)),
{
    assert(entry_views(es.push(e)) =~= entry_views(es).push((e.key@, e.value@)));
}

/// Extending a prefix by one entry appends that entry's record.
proof fn lemma_saved_views_take_push(v: Seq<EntryView>, i: int)
    requires
        0 <= i < v.len(),
    ensures
        saved_views(v.take(i + 1)) == saved_views(v.take(i)).push((v[i].0, v[i].1)),
{
    assert(saved_views(v.take(i + 1)) =~= saved_views(v.take(i)).push((v[i].0, v[i].1)));
}

/// An entry stored under `key` at time `t` answers every
/// lookup strictly before `t + ttl` with its value, and no lookup at
/// `t + ttl` or later.
pub proof fn lemma_cache_ttl(
    v: Seq<EntryView>,
    ttl: u64,
    key: Seq<char>,
    value: Seq<u8>,
    t: u64,
    i: int,
    now: u64,
)
    requires
        unique_keys(v),
        0 <= i < v.len(),
        v[i] == (key, value, t),
        ttl > 0,
    ensures
        (now as int) < t + ttl ==> spec_lookup(v, ttl, key, now) == Some(value),
        (now as int) >= t + ttl ==> spec_lookup(v, ttl, key, now) is None,
{
    if (now as int) < t + ttl {
        assert(v[i].0 == key && fresh_view(v[i], ttl, now));
        let w = choose|w: int|
            0 <= w < v.len() && (#[trigger] v[w]).0 == key && fresh_view(v[w], ttl, now);
        assert(w == i);
    } else {
        if spec_lookup(v, ttl, key, now) is Some {
            let w = choose|w: int|
                0 <= w < v.len() && (#[trigger] v[w]).0 == key && fresh_view(v[w], ttl, now);
            assert(w == i);
            assert(false);
        }
    }
}

/// Storing keeps keys unique and puts the new entry at the back.
proof fn lemma_insert_view_unique(
    v: Seq<EntryView>,
    key: Seq<char>,
    value: Seq<u8>,
    t: u64,
    ttl: u64,
    capacity: int,
)
    requires
        unique_keys(v),
        ttl > 0,
        capacity > 0,
    ensures
        unique_keys(insert_view(v, key, value, t, ttl, capacity)),
        insert_view(v, key, value, t, ttl, capacity).len() > 0,
        insert_view(v, key, value, t, ttl, capacity).last() == (key, value, t),
{
    lemma_remove_key_props(v, key);
    let cleared = remove_key(v, key);
    let room = if cleared.len() >= capacity {
        cleared.drop_first()
    } else {
        cleared
    };
    let r = room.push((key, value, t));
    assert(unique_keys(r)) by {
        assert forall|a: int, b: int| 0 <= a < b < r.len() implies (#[trigger] r[a]).0 != (
        #[trigger] r[b]).0 by {
            if b == r.len() - 1 {
                assert(r[a] == room[a]);
                if cleared.len() >= capacity {
                    assert(room[a] == cleared[a + 1]);
                }
                assert(has_key(cleared, r[a].0) ==> r[a].0 != key);
            } else {
                if cleared.len() >= capacity {
                    assert(r[a] == cleared[a + 1] && r[b] == cleared[b + 1]);
                } else {
                    assert(r[a] == cleared[a] && r[b] == cleared[b]);
                }
            }
        }
    }
}

/// For all entries: one stored under `key` at time `t` is returned — with
/// no network involved — by every lookup strictly before `t + ttl`, and by
/// none at `t + ttl` or later, whatever else the cache held.
pub proof fn lemma_insert_then_lookup(
    v: Seq<EntryView>,
    key: Seq<char>,
    value: Seq<u8>,
    t: u64,
    ttl: u64,
    capacity: int,
    now: u64,
)
    requires
        unique_keys(v),
        ttl > 0,
        capacity > 0,
    ensures
        (now as int) < t + ttl ==> spec_lookup(
            insert_view(v, key, value, t, ttl, capacity),
            ttl,
            key,
            now,
        ) == Some(value),
        (now as int) >= t + ttl ==> spec_lookup(
            insert_view(v, key, value, t, ttl, capacity),
            ttl,
            key,
            now,
        ) is None,
{
    lemma_insert_view_unique(v, key, value, t, ttl, capacity);
    let v2 = insert_view(v, key, value, t, ttl, capacity);
    lemma_cache_ttl(v2, ttl, key, value, t, v2.len() - 1, now);
}

/// With a TTL of zero every lookup misses and storing
/// a response leaves the cache unchanged, so every request goes to the
/// network.
pub proof fn lemma_cache_disabled(
    v: Seq<EntryView>,
    key: Seq<char>,
    value: Seq<u8>,
    now: u64,
    capacity: int,
)
    ensures
        spec_lookup(v, 0, key, now) is None,
        insert_view(v, key, value, now, 0, capacity) == v,
{
    if spec_lookup(v, 0, key, now) is Some {
        let w = choose|w: int|
            0 <= w < v.len() && (#[trigger] v[w]).0 == key && fresh_view(v[w], 0, now);
        assert(false);
    }
}

/// A snapshot's records, preloaded into an empty cache with room for all of
/// them, are all restored, each stamped with the load time.
proof fn lemma_preload_restores(ps: Seq<KeyVal>, ttl: u64, capacity: int, now: u64)
    requires
        ttl > 0,
        capacity >= ps.len(),
        forall|i: int, j: int|
            0 <= i < j < ps.len() ==> (#[trigger] ps[i]).0 != (#[trigger] ps[j]).0,
    ensures
        preload_view(ps, ttl, capacity, now) == ps.map_values(|p: KeyVal| (p.0, p.1, now)),
    decreases ps.len(),
{
    if ps.len() > 0 {
        let front = ps.drop_last();
        lemma_preload_restores(front, ttl, capacity, now);
        let prev = preload_view(front, ttl, capacity, now);
        assert(!has_key(prev, ps.last().0)) by {
            if has_key(prev, ps.last().0) {
                let w = choose|w: int|
                    0 <= w < prev.len() && (#[trigger] prev[w]).0 == ps.last().0;
                assert(prev[w] == (front[w].0, front[w].1, now));
                assert(ps[w].0 == ps[ps.len() - 1].0);
            }
        }
        lemma_remove_key_absent(prev, ps.last().0);
        assert(preload_view(ps, ttl, capacity, now) =~= ps.map_values(
            |p: KeyVal| (p.0, p.1, now),
        ));
    } else {
        assert(preload_view(ps, ttl, capacity, now) =~= ps.map_values(
            |p: KeyVal| (p.0, p.1, now),
        ));
    }
}

/// Encoding a cache's surviving entries and
/// rebuilding a fresh cache from the decoded snapshot restores exactly the
/// same keys and values, with every entry's TTL clock reset to the load
/// time — the documented quirk that stale data can look fresh after a
/// restart. The length bounds only keep each record addressable by the
/// snapshot format's 64-bit length prefixes.
pub proof fn lemma_save_build_round_trip(
    v: Seq<EntryView>,
    ttl: u64,
    now: u64,
    ttl2: u64,
    capacity2: int,
    now2: u64,
)
    requires
        unique_keys(v),
        ttl2 > 0,
        capacity2 >= v.len(),
        forall|i: int|
            0 <= i < v.len() ==> encode_utf8((#[trigger] v[i]).0).len() <= u64::MAX && v[
                i
            ].1.len() <= u64::MAX,
    ensures
        spec_decode(spec_encode(saved_views(sweep_view(v, ttl, now)))) == Some(
            saved_views(sweep_view(v, ttl, now)),
        ),
        preload_view(saved_views(sweep_view(v, ttl, now)), ttl2, capacity2, now2) == sweep_view(
            v,
            ttl,
            now,
        ).map_values(|e: EntryView| (e.0, e.1, now2)),
{
    let s = sweep_view(v, ttl, now);
    lemma_sweep_props(v, ttl, now);
    let ps = saved_views(s);
    assert forall|i: int|
        0 <= i < ps.len() implies encode_utf8((#[trigger] ps[i]).0).len() <= u64::MAX && ps[
        i
    ].1.len() <= u64::MAX by {
        let w = choose|w: int| 0 <= w < v.len() && v[w] == s[i];
        assert(encode_utf8(v[w].0).len() <= u64::MAX && v[w].1.len() <= u64::MAX);
    }
    crate::codec::lemma_encode_decode(ps);
    assert(forall|i: int, j: int|
        0 <= i < j < ps.len() ==> (#[trigger] ps[i]).0 != (#[trigger] ps[j]).0);
    lemma_preload_restores(ps, ttl2, capacity2, now2);
    assert(ps.map_values(|p: KeyVal| (p.0, p.1, now2)) =~= s.map_values(
        |e: EntryView| (e.0, e.1, now2),
    ));
}

/// A sweep keeps keys unique, never grows the entries, and keeps only
/// entries that were already resident.
proof fn lemma_sweep_props(v: Seq<EntryView>, ttl: u64, now: u64)
    requires
        unique_keys(v),
    ensures
        unique_keys(sweep_view(v, ttl, now)),
        sweep_view(v, ttl, now).len() <= v.len(),
        forall|j: int|
            0 <= j < sweep_view(v, ttl, now).len() ==> exists|i: int|
                0 <= i < v.len() && v[i] == #[trigger] sweep_view(v, ttl, now)[j],
    decreases v.len(),
{
    if v.len() > 0 {
        assert(unique_keys(v.drop_last()));
        lemma_sweep_props(v.drop_last(), ttl, now);
        let rest = sweep_view(v.drop_last(), ttl, now);
        let s = sweep_view(v, ttl, now);
        assert forall|j: int| 0 <= j < s.len() implies exists|i: int|
            0 <= i < v.len() && v[i] == #[trigger] s[j] by {
            if fresh_view(v.last(), ttl, now) && j == s.len() - 1 {
                assert(v[v.len() - 1] == s[j]);
            } else {
                let i = choose|i: int| 0 <= i < v.drop_last().len() && v.drop_last()[i] == rest[j];
                assert(v[i] == s[j]);
            }
        }
        if fresh_view(v.last(), ttl, now) {
            assert(unique_keys(s)) by {
                assert forall|a: int, b: int| 0 <= a < b < s.len() implies (#[trigger] s[a]).0 != (
                #[trigger] s[b]).0 by {
                    if b == s.len() - 1 {
                        let i = choose|i: int|
                            0 <= i < v.drop_last().len() && v.drop_last()[i] == rest[a];
                        assert(v[i] == s[a]);
                        assert(v[i].0 != v[v.len() - 1].0);
                    }
                }
            }
        }
    }
}

} // verus!
