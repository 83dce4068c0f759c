use rlunch::cache::{Cache, CacheBuilder, Opts};
use rlunch::codec::SavedEntry;

fn opts(ttl: u64, capacity: usize) -> Opts {
    Opts {
        request_delay: 0,
        request_timeout: 5_000,
        cache_ttl: ttl,
        cache_capacity: capacity,
        cache_path: None,
    }
}

#[test]
fn ttl_hit_before_expiry_miss_after() {
    // TTL = 30s: insert at t=0, a read at 29s hits without the network,
    // a read at 31s misses.
    let mut c = Cache::build(&opts(30_000, 16), Vec::new(), 0);
    let key = String::from("http://example.test/menu");
    c.insert(&key, vec![1, 2, 3], 0);
    assert_eq!(c.lookup(&key, 29_000), Some(vec![1, 2, 3]));
    assert_eq!(c.lookup(&key, 31_000), None);
    // the boundary itself counts as expired: fresh means strictly within TTL
    assert_eq!(c.lookup(&key, 30_000), None);
}

#[test]
fn ttl_zero_disables_caching() {
    // with TTL = 0 nothing is ever stored and every lookup misses, so every
    // request goes to the network
    let mut c = Cache::build(&opts(0, 16), Vec::new(), 0);
    let key = String::from("http://example.test/menu");
    c.insert(&key, vec![1, 2, 3], 0);
    assert_eq!(c.len(), 0);
    assert_eq!(c.lookup(&key, 0), None);
    c.insert(&key, vec![4, 5], 1);
    assert_eq!(c.len(), 0);
    assert_eq!(c.lookup(&key, 1), None);
}

#[test]
fn capacity_evicts_oldest_by_insertion() {
    let mut c = Cache::build(&opts(60_000, 2), Vec::new(), 0);
    let a = String::from("a");
    let b = String::from("b");
    let d = String::from("d");
    c.insert(&a, vec![1], 1);
    c.insert(&b, vec![2], 2);
    c.insert(&d, vec![3], 3);
    // the front entry - oldest by insertion - was evicted
    assert_eq!(c.lookup(&a, 4), None);
    assert_eq!(c.lookup(&b, 4), Some(vec![2]));
    assert_eq!(c.lookup(&d, 4), Some(vec![3]));
    assert_eq!(c.len(), 2);
}

#[test]
fn reinsert_replaces_value_and_restarts_clock() {
    let mut c = Cache::build(&opts(10_000, 4), Vec::new(), 0);
    let key = String::from("k");
    c.insert(&key, vec![1], 0);
    c.insert(&key, vec![2], 9_000);
    assert_eq!(c.len(), 1);
    // the clock restarted at 9s, so at 15s the entry is still fresh
    assert_eq!(c.lookup(&key, 15_000), Some(vec![2]));
    assert_eq!(c.lookup(&key, 19_001), None);
}

#[test]
fn sweep_purges_expired_entries() {
    let mut c = Cache::build(&opts(10_000, 4), Vec::new(), 0);
    let a = String::from("a");
    let b = String::from("b");
    c.insert(&a, vec![1], 0);
    c.insert(&b, vec![2], 8_000);
    c.sweep(12_000);
    assert_eq!(c.len(), 1);
    assert_eq!(c.lookup(&b, 12_000), Some(vec![2]));
}

#[test]
fn save_then_build_round_trip_restores_entries() {
    // save() followed by a fresh build() with the same bytes restores the
    // same keys and values, modulo the TTL clock reset
    let mut c = Cache::build(&opts(30_000, 8), Vec::new(), 0);
    let a = String::from("http://example.test/a");
    let b = String::from("http://example.test/b");
    c.insert(&a, vec![10, 20], 0);
    c.insert(&b, vec![30], 1_000);
    let bytes = CacheBuilder::from_cache(&mut c, 2_000).save();

    let mut builder = CacheBuilder::with_capacity(8);
    assert!(builder.load(&bytes));
    assert_eq!(builder.store.len(), 2);

    // reload far past the original TTL: every entry's clock resets to the
    // reload time, so stale data looks fresh after a restart
    let reload_at = 1_000_000;
    let c2 = Cache::build(&opts(30_000, 8), builder.store, reload_at);
    assert_eq!(c2.lookup(&a, reload_at + 29_000), Some(vec![10, 20]));
    assert_eq!(c2.lookup(&b, reload_at + 29_000), Some(vec![30]));
    assert_eq!(c2.lookup(&a, reload_at + 31_000), None);
}

#[test]
fn save_sweeps_expired_entries_first() {
    let mut c = Cache::build(&opts(10_000, 8), Vec::new(), 0);
    let a = String::from("a");
    let b = String::from("b");
    c.insert(&a, vec![1], 0);
    c.insert(&b, vec![2], 20_000);
    // at save time only b is fresh; the expired entry must not be persisted
    let builder = CacheBuilder::from_cache(&mut c, 25_000);
    assert_eq!(builder.store.len(), 1);
    assert_eq!(builder.store[0].key, "b");
}

#[test]
fn malformed_snapshot_is_recoverable() {
    let mut builder = CacheBuilder::with_capacity(4);
    builder.store.push(SavedEntry { key: String::from("x"), value: vec![9] });
    // a truncated snapshot loads nothing and leaves the builder unchanged
    let ok = builder.load(&vec![1, 2, 3]);
    assert!(!ok);
    assert_eq!(builder.store.len(), 1);
}

#[test]
fn preload_respects_capacity() {
    let records = vec![
        SavedEntry { key: String::from("a"), value: vec![1] },
        SavedEntry { key: String::from("b"), value: vec![2] },
        SavedEntry { key: String::from("c"), value: vec![3] },
    ];
    let c = Cache::build(&opts(60_000, 2), records, 0);
    assert_eq!(c.len(), 2);
    // the front - oldest preloaded - was evicted
    assert_eq!(c.lookup(&String::from("a"), 1), None);
    assert_eq!(c.lookup(&String::from("c"), 1), Some(vec![3]));
}
