//! Tests of the physical backends, the shard router, the write policies, the
//! service-front decisions and the progress arithmetic.

use blobstack::calculate_websocket_accept;
use blobstack::control_decision;
use blobstack::hostname_scheme;
use blobstack::progress_due;
use blobstack::progress_rate;
use blobstack::route;
use blobstack::AcceptedConnection;
use blobstack::Acceptor;
use blobstack::Blobstore;
use blobstack::ConnectionStrategy;
use blobstack::ControlDecision;
use blobstack::CoreContext;
use blobstack::Memblob;
use blobstack::Method;
use blobstack::MononokeHttpService;
use blobstack::PendingConnection;
use blobstack::Presence;
use blobstack::Progress;
use blobstack::PutBehaviour;
use blobstack::PutStatus;
use blobstack::ShardedBlob;
use blobstack::StorageError;

fn ctx() -> CoreContext {
    CoreContext::new(0)
}

#[test]
fn memblob_put_get_is_present() {
    let mut blob = Memblob::new();
    let key = b"key".to_vec();
    assert!(blob.get(&ctx(), &key).unwrap().is_none());
    assert_eq!(blob.is_present(&ctx(), &key).unwrap(), Presence::Absent);
    let st = blob
        .put(&ctx(), &key, b"value".to_vec(), PutBehaviour::Overwrite)
        .unwrap();
    assert_eq!(st, PutStatus::Inserted);
    assert_eq!(blob.get(&ctx(), &key).unwrap().unwrap(), b"value".to_vec());
    assert_eq!(blob.is_present(&ctx(), &key).unwrap(), Presence::Present);
}

#[test]
fn put_behaviour_governs_replacement() {
    let mut blob = Memblob::new();
    let key = b"key".to_vec();
    blob.put(&ctx(), &key, b"v1".to_vec(), PutBehaviour::Overwrite)
        .unwrap();
    // Identical content under IfAbsent is idempotent.
    let st = blob
        .put(&ctx(), &key, b"v1".to_vec(), PutBehaviour::IfAbsent)
        .unwrap();
    assert_eq!(st, PutStatus::Deduped);
    // Different content under IfAbsent conflicts.
    let err = blob
        .put(&ctx(), &key, b"v2".to_vec(), PutBehaviour::IfAbsent)
        .unwrap_err();
    assert_eq!(err, StorageError::AlreadyPresent);
    assert_eq!(blob.get(&ctx(), &key).unwrap().unwrap(), b"v1".to_vec());
    // An overwriting policy replaces.
    let st = blob
        .put(&ctx(), &key, b"v2".to_vec(), PutBehaviour::OverwriteAndLog)
        .unwrap();
    assert_eq!(st, PutStatus::Overwrote);
    assert_eq!(blob.get(&ctx(), &key).unwrap().unwrap(), b"v2".to_vec());
}

#[test]
fn injected_fault_fails_exactly_one_put() {
    let mut blob = Memblob::with_faults(vec![true, false]);
    let key = b"key".to_vec();
    let err = blob
        .put(&ctx(), &key, b"v".to_vec(), PutBehaviour::Overwrite)
        .unwrap_err();
    assert_eq!(err, StorageError::IoFailure);
    assert!(blob.get(&ctx(), &key).unwrap().is_none());
    blob.put(&ctx(), &key, b"v".to_vec(), PutBehaviour::Overwrite)
        .unwrap();
    assert_eq!(blob.get(&ctx(), &key).unwrap().unwrap(), b"v".to_vec());
}

#[test]
fn shard_routing_is_deterministic() {
    // The same key always routes to the same shard within one configuration.
    let key = b"some/blob/key".to_vec();
    let first = route(&key, 16);
    for _ in 0..10 {
        assert_eq!(route(&key, 16), first);
    }
    assert!(first < 16);
}

#[test]
fn shard_routing_matches_the_hash_formula() {
    // Exact values of the fold: the empty key hashes to the offset, and each
    // byte folds in with xor and the wrapping multiply.
    assert_eq!(route(&Vec::new(), 16), 14695981039346656037u64 % 16);
    assert_eq!(route(&b"abc".to_vec(), 16), 16654208175385433931u64 % 16);
}

#[test]
fn storage_errors_describe_themselves() {
    assert_eq!(
        StorageError::IoFailure.describe(),
        "transport or storage failure"
    );
    assert_eq!(
        StorageError::AlreadyPresent.describe(),
        "key already holds different content"
    );
    assert_eq!(
        StorageError::LeaseTimeout.describe(),
        "write lease did not resolve in time"
    );
}

#[test]
fn shard_routing_depends_only_on_the_key_bytes() {
    let k1 = b"identical".to_vec();
    let k2 = b"identical".to_vec();
    assert_eq!(route(&k1, 7), route(&k2, 7));
}

#[test]
fn sharded_backend_round_trips() {
    let mut blob = ShardedBlob::new(4, ConnectionStrategy::Pooled).unwrap();
    for i in 0..20u8 {
        let key = vec![b'k', i];
        let value = vec![b'v', i];
        blob.put(&ctx(), &key, value, PutBehaviour::Overwrite).unwrap();
    }
    for i in 0..20u8 {
        let key = vec![b'k', i];
        assert_eq!(blob.get(&ctx(), &key).unwrap().unwrap(), vec![b'v', i]);
        assert_eq!(blob.is_present(&ctx(), &key).unwrap(), Presence::Present);
    }
    assert!(blob.get(&ctx(), &b"absent".to_vec()).unwrap().is_none());
}

#[test]
fn sharded_backend_shard_assignment_is_stable() {
    let blob = ShardedBlob::new(8, ConnectionStrategy::ShardMapDirect).unwrap();
    let key = b"stable key".to_vec();
    let s = blob.shard_of_key(&key);
    assert_eq!(blob.shard_of_key(&key), s);
    assert!(s < 8);
}

#[test]
fn sharded_backend_rejects_zero_shards() {
    assert!(ShardedBlob::new(0, ConnectionStrategy::Proxied).is_err());
}

#[test]
fn strategies_are_behaviorally_identical() {
    let strategies = [
        ConnectionStrategy::Proxied,
        ConnectionStrategy::Pooled,
        ConnectionStrategy::ShardMapDirect,
    ];
    let key = b"key".to_vec();
    for strategy in strategies {
        let mut blob = ShardedBlob::new(3, strategy).unwrap();
        blob.put(&ctx(), &key, b"v".to_vec(), PutBehaviour::Overwrite)
            .unwrap();
        assert_eq!(blob.get(&ctx(), &key).unwrap().unwrap(), b"v".to_vec());
        assert_eq!(blob.shard_of_key(&key), route(&key, 3));
    }
}

fn service(will_exit: bool) -> MononokeHttpService<()> {
    MononokeHttpService::new(AcceptedConnection {
        pending: PendingConnection {
            acceptor: Acceptor {
                will_exit,
                server_hostname: String::from("host.example"),
            },
        },
        is_trusted: false,
    })
}

#[test]
fn health_check_reports_draining() {
    assert_eq!(service(false).health_response(), "I_AM_ALIVE");
    assert_eq!(service(true).health_response(), "EXITING");
}

#[test]
fn control_requests_route_to_the_cache_drop() {
    assert_eq!(
        control_decision(Method::Post, b"/drop_bookmarks_cache"),
        ControlDecision::DropCaches
    );
    assert_eq!(
        control_decision(Method::Get, b"/drop_bookmarks_cache"),
        ControlDecision::NotAcceptable
    );
    assert_eq!(
        control_decision(Method::Post, b"/something_else"),
        ControlDecision::NotFound
    );
}

#[test]
fn websocket_accept_matches_the_handshake_example() {
    // The example exchange from the websocket protocol specification.
    let key = b"dGhlIHNhbXBsZSBub25jZQ==".to_vec();
    let accept = calculate_websocket_accept(Some(&key));
    assert_eq!(accept, "s3pPLMBiTxaQ9kYGzzhZRbK+xOo=");
}

#[test]
fn websocket_accept_without_client_key() {
    // Still answers; the result is the digest of the magic suffix alone.
    let accept = calculate_websocket_accept(None);
    assert_eq!(accept.len(), 28);
}

#[test]
fn hostname_scheme_takes_the_alphabetic_prefix() {
    assert_eq!(
        hostname_scheme(b"devvm001.lla1.example.com"),
        b"devvm".to_vec()
    );
    assert_eq!(hostname_scheme(b"hg001.lla1.example.com"), b"hg".to_vec());
    assert_eq!(hostname_scheme(b"allletters"), b"allletters".to_vec());
    assert_eq!(hostname_scheme(b"123"), Vec::<u8>::new());
    assert_eq!(hostname_scheme(b""), Vec::<u8>::new());
}

#[test]
fn progress_totals_and_deltas() {
    let run = Progress {
        success: 10,
        missing: 3,
        error: 2,
    };
    assert_eq!(run.total(), 15);
    let earlier = Progress {
        success: 4,
        missing: 1,
        error: 0,
    };
    let delta = run.minus(&earlier);
    assert_eq!(delta.success, 6);
    assert_eq!(delta.missing, 2);
    assert_eq!(delta.error, 2);
    let sum = earlier.plus(&delta);
    assert_eq!(sum.total(), 15);
    let zero = Progress::default();
    assert_eq!(zero.total(), 0);
}

#[test]
fn progress_report_arithmetic() {
    assert_eq!(progress_rate(150, 30), 5);
    assert_eq!(progress_rate(150, 0), 0);
    assert!(progress_due(30, false));
    assert!(!progress_due(29, false));
    assert!(progress_due(0, true));
}
