//! Tests of the decorator stack: cache coherence and invalidation observed
//! through a counting backend, write-lease behaviour, namespace prefixing,
//! rate limiting, and the composed standard stack.

use blobstack::build_stack;
use blobstack::fetch_concat;
use blobstack::store;
use blobstack::Blobstore;
use blobstack::CacheBlobstore;
use blobstack::CacheConfig;
use blobstack::CoreContext;
use blobstack::FetchKey;
use blobstack::FilestoreConfig;
use blobstack::LeaseBlobstore;
use blobstack::LeaseMode;
use blobstack::LruCache;
use blobstack::LruSet;
use blobstack::Memblob;
use blobstack::PrefixBlobstore;
use blobstack::Presence;
use blobstack::PutBehaviour;
use blobstack::PutStatus;
use blobstack::RateLimiter;
use blobstack::StackConfig;
use blobstack::StorageError;
use blobstack::StoreRequest;
use blobstack::ThrottleOptions;
use blobstack::ThrottledBlob;

fn ctx() -> CoreContext {
    CoreContext::new(0)
}

fn cache_config(n: usize) -> CacheConfig {
    CacheConfig {
        presence_capacity: n,
        content_capacity: n,
    }
}

#[test]
fn cache_coherence_get_after_put_skips_backend() {
    // After a successful put, an immediate get through the same stack
    // returns the written bytes without a backend round trip.
    let mut cached = CacheBlobstore::new(Memblob::new(), cache_config(8));
    let key = b"k".to_vec();
    let value = b"payload".to_vec();
    cached
        .put(&ctx(), &key, value.clone(), PutBehaviour::Overwrite)
        .unwrap();
    let gets_before = cached.inner_store().read_gets();
    let got = cached.get(&ctx(), &key).unwrap().unwrap();
    assert_eq!(got, value);
    assert_eq!(cached.inner_store().read_gets(), gets_before);
}

#[test]
fn cache_read_through_populates_on_miss() {
    let mut inner = Memblob::new();
    let key = b"k".to_vec();
    inner
        .put(&ctx(), &key, b"v".to_vec(), PutBehaviour::Overwrite)
        .unwrap();
    let mut cached = CacheBlobstore::new(inner, cache_config(8));
    assert_eq!(cached.get(&ctx(), &key).unwrap().unwrap(), b"v".to_vec());
    assert_eq!(cached.inner_store().read_gets(), 1);
    // The second read is served from the cache.
    assert_eq!(cached.get(&ctx(), &key).unwrap().unwrap(), b"v".to_vec());
    assert_eq!(cached.inner_store().read_gets(), 1);
}

#[test]
fn cache_invalidation_next_get_reaches_backend() {
    // After "drop caches", a get for a previously cached key reaches the
    // backend at least once.
    let mut cached = CacheBlobstore::new(Memblob::new(), cache_config(8));
    let key = b"k".to_vec();
    cached
        .put(&ctx(), &key, b"v".to_vec(), PutBehaviour::Overwrite)
        .unwrap();
    let gets_before = cached.inner_store().read_gets();
    cached.get(&ctx(), &key).unwrap();
    assert_eq!(cached.inner_store().read_gets(), gets_before);
    cached.drop_caches();
    cached.get(&ctx(), &key).unwrap();
    assert!(cached.inner_store().read_gets() > gets_before);
}

#[test]
fn cache_is_present_answers_from_the_regions() {
    let mut cached = CacheBlobstore::new(Memblob::new(), cache_config(8));
    let key = b"k".to_vec();
    assert_eq!(cached.is_present(&ctx(), &key).unwrap(), Presence::Absent);
    cached
        .put(&ctx(), &key, b"v".to_vec(), PutBehaviour::Overwrite)
        .unwrap();
    let checks_before = cached.inner_store().read_checks();
    assert_eq!(cached.is_present(&ctx(), &key).unwrap(), Presence::Present);
    assert_eq!(cached.inner_store().read_checks(), checks_before);
}

#[test]
fn cache_never_caches_speculatively_on_failed_put() {
    let mut cached = CacheBlobstore::new(Memblob::with_faults(vec![true]), cache_config(8));
    let key = b"k".to_vec();
    let r = cached.put(&ctx(), &key, b"v".to_vec(), PutBehaviour::Overwrite);
    assert_eq!(r.unwrap_err(), StorageError::IoFailure);
    // The failed value was not cached: the next get asks the backend.
    let gets_before = cached.inner_store().read_gets();
    assert!(cached.get(&ctx(), &key).unwrap().is_none());
    assert!(cached.inner_store().read_gets() > gets_before);
}

#[test]
fn lru_cache_displaces_least_recently_used() {
    let mut lru = LruCache::new(2);
    let (a, b, c) = (b"a".to_vec(), b"b".to_vec(), b"c".to_vec());
    lru.insert(&a, b"1".to_vec());
    lru.insert(&b, b"2".to_vec());
    let evicted = lru.insert(&c, b"3".to_vec());
    assert_eq!(evicted.unwrap(), a);
    assert!(lru.get_touch(&a).is_none());
    assert_eq!(lru.get_touch(&b).unwrap(), b"2".to_vec());
    assert_eq!(lru.get_touch(&c).unwrap(), b"3".to_vec());
}

#[test]
fn lru_cache_touch_refreshes_recency() {
    let mut lru = LruCache::new(2);
    let (a, b, c) = (b"a".to_vec(), b"b".to_vec(), b"c".to_vec());
    lru.insert(&a, b"1".to_vec());
    lru.insert(&b, b"2".to_vec());
    // Touching `a` makes `b` the least recently used.
    lru.get_touch(&a).unwrap();
    let evicted = lru.insert(&c, b"3".to_vec());
    assert_eq!(evicted.unwrap(), b);
    assert_eq!(lru.get_touch(&a).unwrap(), b"1".to_vec());
}

#[test]
fn lru_set_tracks_and_displaces() {
    let mut set = LruSet::new(2);
    let (a, b, c) = (b"a".to_vec(), b"b".to_vec(), b"c".to_vec());
    set.insert(&a);
    set.insert(&b);
    assert!(set.contains(&a));
    set.insert(&c);
    assert!(!set.contains(&a));
    assert!(set.contains(&b) && set.contains(&c));
}

#[test]
fn zero_capacity_cache_is_a_pass_through() {
    let mut cached = CacheBlobstore::new(Memblob::new(), cache_config(0));
    let key = b"k".to_vec();
    cached
        .put(&ctx(), &key, b"v".to_vec(), PutBehaviour::Overwrite)
        .unwrap();
    let gets_before = cached.inner_store().read_gets();
    assert_eq!(cached.get(&ctx(), &key).unwrap().unwrap(), b"v".to_vec());
    assert!(cached.inner_store().read_gets() > gets_before);
}

#[test]
fn prefix_rewrites_keys_syntactically() {
    let mut prefixed = PrefixBlobstore::new(Memblob::new(), b"ns.".to_vec());
    let key = b"k".to_vec();
    prefixed
        .put(&ctx(), &key, b"v".to_vec(), PutBehaviour::Overwrite)
        .unwrap();
    assert_eq!(prefixed.get(&ctx(), &key).unwrap().unwrap(), b"v".to_vec());
    // The inner store holds the value under the rewritten key only.
    assert_eq!(
        prefixed.inner_store().probe(&b"ns.k".to_vec()),
        Some(b"v".to_vec())
    );
    assert_eq!(prefixed.inner_store().probe(&b"k".to_vec()), None);
}

#[test]
fn lease_timeout_while_foreign_writer_holds_the_lease() {
    let mut leased = LeaseBlobstore::new(Memblob::new(), LeaseMode::Lease);
    let key = b"k".to_vec();
    leased.observe_writer(key.clone(), 1_000, false);
    let r = leased.put(&CoreContext::new(0), &key, b"v".to_vec(), PutBehaviour::Overwrite);
    assert_eq!(r.unwrap_err(), StorageError::LeaseTimeout);
    // Once the claim expires, the write proceeds.
    let r2 = leased.put(&CoreContext::new(2_000), &key, b"v".to_vec(), PutBehaviour::Overwrite);
    assert_eq!(r2.unwrap(), PutStatus::Inserted);
}

#[test]
fn lease_adopts_the_holders_result_for_identical_content() {
    let mut inner = Memblob::new();
    let key = b"k".to_vec();
    // The foreign holder's write already landed.
    inner
        .put(&ctx(), &key, b"v".to_vec(), PutBehaviour::Overwrite)
        .unwrap();
    let mut leased = LeaseBlobstore::new(inner, LeaseMode::Lease);
    leased.observe_writer(key.clone(), 1_000, true);
    let r = leased.put(&CoreContext::new(0), &key, b"v".to_vec(), PutBehaviour::Overwrite);
    assert_eq!(r.unwrap(), PutStatus::Deduped);
    // Different content cannot adopt the holder's result.
    let r2 = leased.put(&CoreContext::new(0), &key, b"w".to_vec(), PutBehaviour::Overwrite);
    assert_eq!(r2.unwrap_err(), StorageError::LeaseTimeout);
}

#[test]
fn no_lease_mode_skips_coordination() {
    let mut leased = LeaseBlobstore::new(Memblob::new(), LeaseMode::NoLease);
    let key = b"k".to_vec();
    leased.observe_writer(key.clone(), 1_000, false);
    let r = leased.put(&CoreContext::new(0), &key, b"v".to_vec(), PutBehaviour::Overwrite);
    assert_eq!(r.unwrap(), PutStatus::Inserted);
}

#[test]
fn throttle_slots_are_fifo_and_spaced_at_the_rate() {
    // Five callers arrive at once against 2 queries per second: completions
    // keep arrival order and consecutive slots are one interval apart, so
    // throughput beyond the one burst token never exceeds the rate.
    let mut limiter = RateLimiter::new(Some(2));
    let mut slots: Vec<u64> = Vec::new();
    for _ in 0..5 {
        slots.push(limiter.acquire(0));
    }
    for i in 1..5 {
        assert!(slots[i - 1] <= slots[i]);
        assert_eq!(slots[i] - slots[i - 1], 500_000);
    }
    assert_eq!(slots[0], 0);
    // A caller arriving after the backlog drains completes at its own time.
    assert_eq!(limiter.acquire(10_000_000), 10_000_000);
}

#[test]
fn unconfigured_rate_never_delays() {
    let mut limiter = RateLimiter::new(None);
    assert_eq!(limiter.acquire(7), 7);
    assert_eq!(limiter.acquire(7), 7);
    assert_eq!(limiter.acquire(9), 9);
}

#[test]
fn throttled_store_behaves_like_the_inner_store() {
    let options = ThrottleOptions {
        read_qps: Some(1_000),
        write_qps: Some(1_000),
    };
    let mut throttled = ThrottledBlob::new(Memblob::new(), options);
    let key = b"k".to_vec();
    throttled
        .put(&ctx(), &key, b"v".to_vec(), PutBehaviour::Overwrite)
        .unwrap();
    assert_eq!(throttled.get(&ctx(), &key).unwrap().unwrap(), b"v".to_vec());
    assert_eq!(throttled.is_present(&ctx(), &key).unwrap(), Presence::Present);
}

#[test]
fn full_stack_round_trip_and_invalidation() {
    let config = StackConfig {
        prefix: b"flat/bench.".to_vec(),
        lease: LeaseMode::Lease,
        cache: cache_config(16),
        throttle: ThrottleOptions {
            read_qps: Some(10_000),
            write_qps: Some(10_000),
        },
    };
    let mut stack = build_stack(Memblob::new(), config);
    let data = b"abcdefghij".to_vec();
    let fs_config = FilestoreConfig {
        chunk_size: Some(4),
        concurrency: 2,
    };
    let req = StoreRequest::new(10);
    let meta = store(&mut stack, fs_config, &ctx(), &req, data.clone(), PutBehaviour::Overwrite)
        .unwrap();
    let key = FetchKey::Canonical(meta.content_id.clone());

    // The write-through populated the cache: the fetch reads nothing from
    // the physical backend.
    let backend_gets = |s: &blobstack::StandardStack<Memblob>| {
        s.inner_store().inner_store().inner_store().inner_store().read_gets()
    };
    let gets_before = backend_gets(&stack);
    let got = fetch_concat(&mut stack, &ctx(), &key).unwrap().unwrap();
    assert_eq!(got, data);
    assert_eq!(backend_gets(&stack), gets_before);

    // Dropping the caches sends the next fetch back to the backend.
    stack.inner_store_mut().drop_caches();
    let got_again = fetch_concat(&mut stack, &ctx(), &key).unwrap().unwrap();
    assert_eq!(got_again, data);
    assert!(backend_gets(&stack) > gets_before);
}
