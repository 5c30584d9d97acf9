//! Tests of the chunked content store: round trips at the chunk-size
//! boundaries, durability under injected write faults, idempotent re-store,
//! and the error taxonomy.

use blobstack::fetch;
use blobstack::fetch_concat;
use blobstack::make_chunk_key;
use blobstack::make_meta_key;
use blobstack::store;
use blobstack::Alias;
use blobstack::Blobstore;
use blobstack::ContentId;
use blobstack::CoreContext;
use blobstack::FetchError;
use blobstack::FetchKey;
use blobstack::FilestoreConfig;
use blobstack::Memblob;
use blobstack::Presence;
use blobstack::PutBehaviour;
use blobstack::StoreError;
use blobstack::StoreRequest;

fn ctx() -> CoreContext {
    CoreContext::new(0)
}

fn config4() -> FilestoreConfig {
    FilestoreConfig {
        chunk_size: Some(4),
        concurrency: 2,
    }
}

fn store_ok(blob: &mut Memblob, data: &[u8], config: FilestoreConfig) -> blobstack::ContentMetadata {
    let req = StoreRequest::new(data.len() as u64);
    store(
        blob,
        config,
        &ctx(),
        &req,
        data.to_vec(),
        PutBehaviour::Overwrite,
    )
    .expect("store should succeed")
}

fn round_trip_at(len: usize) {
    let data: Vec<u8> = (0..len).map(|i| (i % 251) as u8).collect();
    let mut blob = Memblob::new();
    let meta = store_ok(&mut blob, &data, config4());
    assert_eq!(meta.total_size, len as u64);
    let key = FetchKey::Canonical(meta.content_id.clone());
    let got = fetch_concat(&mut blob, &ctx(), &key)
        .expect("fetch should succeed")
        .expect("content should be there");
    assert_eq!(got, data);
}

#[test]
fn round_trip_empty() {
    round_trip_at(0);
}

#[test]
fn round_trip_one_byte() {
    round_trip_at(1);
}

#[test]
fn round_trip_chunk_size_minus_one() {
    round_trip_at(3);
}

#[test]
fn round_trip_chunk_size() {
    round_trip_at(4);
}

#[test]
fn round_trip_chunk_size_plus_one() {
    round_trip_at(5);
}

#[test]
fn round_trip_unchunked() {
    let data = b"a larger body stored as a single chunk".to_vec();
    let mut blob = Memblob::new();
    let config = FilestoreConfig {
        chunk_size: None,
        concurrency: 1,
    };
    let meta = store_ok(&mut blob, &data, config);
    assert_eq!(meta.chunks.len(), 1);
    let key = FetchKey::Canonical(meta.content_id.clone());
    let got = fetch_concat(&mut blob, &ctx(), &key).unwrap().unwrap();
    assert_eq!(got, data);
}

#[test]
fn concrete_two_chunk_scenario() {
    // chunk_size 4, concurrency 2, eight bytes: two chunks, "abcd" and
    // "efgh"; metadata carries the full size; a fetch reproduces the bytes.
    let data = b"abcdefgh".to_vec();
    let mut blob = Memblob::new();
    let meta = store_ok(&mut blob, &data, config4());
    assert_eq!(meta.total_size, 8);
    assert_eq!(meta.chunks.len(), 2);
    assert_eq!(meta.chunks[0].index, 0);
    assert_eq!(meta.chunks[1].index, 1);

    let mut reader = fetch(&mut blob, &ctx(), &FetchKey::Canonical(meta.content_id.clone()))
        .expect("fetch should succeed")
        .expect("content should be there");
    let first = reader.next_chunk(&mut blob, &ctx()).unwrap().unwrap();
    assert_eq!(first, b"abcd".to_vec());
    let second = reader.next_chunk(&mut blob, &ctx()).unwrap().unwrap();
    assert_eq!(second, b"efgh".to_vec());
    assert!(reader.next_chunk(&mut blob, &ctx()).unwrap().is_none());

    let got = fetch_concat(&mut blob, &ctx(), &FetchKey::Canonical(meta.content_id.clone()))
        .unwrap()
        .unwrap();
    assert_eq!(got, b"abcdefgh".to_vec());
}

#[test]
fn content_id_is_the_sha1_digest() {
    // The digest of "abc" is pinned by the SHA-1 test vectors; a wrapper that
    // handed its input back unchanged would fail here.
    let data = b"abc".to_vec();
    let id = ContentId::from_data(&data);
    let expected: Vec<u8> = vec![
        0xa9, 0x99, 0x3e, 0x36, 0x47, 0x06, 0x81, 0x6a, 0xba, 0x3e, 0x25, 0x71, 0x78, 0x50, 0xc2,
        0x6c, 0x9c, 0xd0, 0xd8, 0x9d,
    ];
    assert_eq!(id.digest_bytes().clone(), expected);
}

#[test]
fn fetch_by_alias() {
    let data = b"aliased content".to_vec();
    let mut blob = Memblob::new();
    let config = FilestoreConfig {
        chunk_size: Some(4),
        concurrency: 1,
    };
    let _meta = store_ok(&mut blob, &data, config);
    let alias = Alias::from_data(&data);
    let got = fetch_concat(&mut blob, &ctx(), &FetchKey::Aliased(alias))
        .unwrap()
        .unwrap();
    assert_eq!(got, data);
}

#[test]
fn fetch_absent_content_is_none_not_error() {
    let mut blob = Memblob::new();
    let id = ContentId::from_data(&b"never stored".to_vec());
    let r = fetch_concat(&mut blob, &ctx(), &FetchKey::Canonical(id)).unwrap();
    assert!(r.is_none());
}

#[test]
fn fetch_by_unknown_alias_is_none() {
    let mut blob = Memblob::new();
    let alias = Alias::from_data(&b"never stored".to_vec());
    let r = fetch_concat(&mut blob, &ctx(), &FetchKey::Aliased(alias)).unwrap();
    assert!(r.is_none());
}

#[test]
fn durability_no_metadata_after_injected_chunk_fault() {
    // The second chunk write fails: the store reports the failure and the
    // metadata record is never observable afterward.
    let data = b"abcdefgh".to_vec();
    let mut blob = Memblob::with_faults(vec![false, true]);
    let req = StoreRequest::new(8);
    let r = store(
        &mut blob,
        config4(),
        &ctx(),
        &req,
        data.clone(),
        PutBehaviour::Overwrite,
    );
    assert_eq!(r.unwrap_err(), StoreError::IoFailure);

    let id = ContentId::from_data(&data);
    let fetched = fetch_concat(&mut blob, &ctx(), &FetchKey::Canonical(id.clone())).unwrap();
    assert!(fetched.is_none());
    let meta_key = make_meta_key(&id);
    assert_eq!(blob.is_present(&ctx(), &meta_key).unwrap(), Presence::Absent);
}

#[test]
fn durability_no_metadata_when_every_write_fails() {
    let data = b"abcdefgh".to_vec();
    let mut blob = Memblob::with_faults(vec![true]);
    let req = StoreRequest::new(8);
    let r = store(
        &mut blob,
        config4(),
        &ctx(),
        &req,
        data.clone(),
        PutBehaviour::Overwrite,
    );
    assert_eq!(r.unwrap_err(), StoreError::IoFailure);
    let id = ContentId::from_data(&data);
    assert!(fetch_concat(&mut blob, &ctx(), &FetchKey::Canonical(id)).unwrap().is_none());
}

#[test]
fn idempotent_overwrite_same_content_id() {
    // Storing identical content twice under Overwrite succeeds both times
    // and yields the same content id.
    let data = b"stored twice".to_vec();
    let mut blob = Memblob::new();
    let config = FilestoreConfig {
        chunk_size: Some(5),
        concurrency: 1,
    };
    let first = store_ok(&mut blob, &data, config);
    let config_again = FilestoreConfig {
        chunk_size: Some(5),
        concurrency: 1,
    };
    let second = store_ok(&mut blob, &data, config_again);
    assert_eq!(first.content_id.digest_bytes(), second.content_id.digest_bytes());
    assert_eq!(first.total_size, second.total_size);
    let got = fetch_concat(&mut blob, &ctx(), &FetchKey::Canonical(second.content_id.clone()))
        .unwrap()
        .unwrap();
    assert_eq!(got, data);
}

#[test]
fn store_if_absent_twice_is_idempotent() {
    let data = b"dedupable".to_vec();
    let mut blob = Memblob::new();
    let config = FilestoreConfig {
        chunk_size: Some(4),
        concurrency: 1,
    };
    let req = StoreRequest::new(data.len() as u64);
    store(&mut blob, config, &ctx(), &req, data.clone(), PutBehaviour::IfAbsent).unwrap();
    let config_again = FilestoreConfig {
        chunk_size: Some(4),
        concurrency: 1,
    };
    let req_again = StoreRequest::new(data.len() as u64);
    store(&mut blob, config_again, &ctx(), &req_again, data.clone(), PutBehaviour::IfAbsent)
        .unwrap();
}

#[test]
fn corrupt_input_on_declared_length_mismatch() {
    let data = b"abcdefgh".to_vec();
    let mut blob = Memblob::new();
    let req = StoreRequest::new(7);
    let r = store(&mut blob, config4(), &ctx(), &req, data, PutBehaviour::Overwrite);
    assert_eq!(r.unwrap_err(), StoreError::CorruptInput);
}

#[test]
fn corrupt_input_on_expected_id_mismatch() {
    let data = b"abcdefgh".to_vec();
    let wrong = ContentId::from_data(&b"something else".to_vec());
    let mut blob = Memblob::new();
    let req = StoreRequest {
        total_size: 8,
        expected_id: Some(wrong),
    };
    let r = store(&mut blob, config4(), &ctx(), &req, data, PutBehaviour::Overwrite);
    assert_eq!(r.unwrap_err(), StoreError::CorruptInput);
}

#[test]
fn store_with_matching_expected_id_succeeds() {
    let data = b"abcdefgh".to_vec();
    let expected = ContentId::from_data(&data);
    let mut blob = Memblob::new();
    let req = StoreRequest {
        total_size: 8,
        expected_id: Some(expected),
    };
    store(&mut blob, config4(), &ctx(), &req, data, PutBehaviour::Overwrite).unwrap();
}

#[test]
fn already_present_on_conflicting_record_under_if_absent() {
    let data = b"abcdefgh".to_vec();
    let id = ContentId::from_data(&data);
    let mut blob = Memblob::new();
    // A foreign write planted different bytes at the first chunk's key.
    let chunk_key = make_chunk_key(&id, 0);
    blob.put(&ctx(), &chunk_key, b"not the chunk".to_vec(), PutBehaviour::Overwrite)
        .unwrap();
    let req = StoreRequest::new(8);
    let r = store(&mut blob, config4(), &ctx(), &req, data, PutBehaviour::IfAbsent);
    assert_eq!(r.unwrap_err(), StoreError::AlreadyPresent);
}

#[test]
fn lease_timeout_surfaces_through_store() {
    // A foreign writer holds the lease for the first chunk's key: the store
    // cannot proceed and reports the coordination failure.
    let data = b"abcdefgh".to_vec();
    let id = ContentId::from_data(&data);
    let chunk_key = make_chunk_key(&id, 0);
    let mut leased = blobstack::LeaseBlobstore::new(Memblob::new(), blobstack::LeaseMode::Lease);
    leased.observe_writer(chunk_key, 1_000_000, false);
    let req = StoreRequest::new(8);
    let r = store(&mut leased, config4(), &ctx(), &req, data, PutBehaviour::Overwrite);
    assert_eq!(r.unwrap_err(), StoreError::LeaseTimeout);
}

#[test]
fn not_found_at_the_missing_chunk() {
    // Plant a metadata record whose chunks were never written: the reader
    // fails at the first missing chunk.
    let data = b"abcdefgh".to_vec();
    let mut source = Memblob::new();
    let meta = store_ok(&mut source, &data, config4());
    let meta_key = make_meta_key(&meta.content_id);
    let record = source.get(&ctx(), &meta_key).unwrap().unwrap();

    let mut hollow = Memblob::new();
    hollow
        .put(&ctx(), &meta_key, record, PutBehaviour::Overwrite)
        .unwrap();
    let r = fetch_concat(&mut hollow, &ctx(), &FetchKey::Canonical(meta.content_id.clone()));
    assert_eq!(r.unwrap_err(), FetchError::NotFound);
}

#[test]
fn corrupt_record_on_undecodable_metadata() {
    let data = b"abcdefgh".to_vec();
    let id = ContentId::from_data(&data);
    let meta_key = make_meta_key(&id);
    let mut blob = Memblob::new();
    blob.put(&ctx(), &meta_key, b"garbage".to_vec(), PutBehaviour::Overwrite)
        .unwrap();
    let r = fetch_concat(&mut blob, &ctx(), &FetchKey::Canonical(id));
    assert_eq!(r.unwrap_err(), FetchError::CorruptRecord);
}

#[test]
fn corrupt_record_on_malformed_alias_record() {
    let data = b"abcdefgh".to_vec();
    let alias = Alias::from_data(&data);
    let alias_key = blobstack::make_alias_key(&alias);
    let mut blob = Memblob::new();
    blob.put(&ctx(), &alias_key, b"abc".to_vec(), PutBehaviour::Overwrite)
        .unwrap();
    let r = fetch_concat(&mut blob, &ctx(), &FetchKey::Aliased(alias));
    assert_eq!(r.unwrap_err(), FetchError::CorruptRecord);
}

#[test]
fn metadata_codec_round_trip() {
    let data = b"codec subject".to_vec();
    let mut blob = Memblob::new();
    let meta = store_ok(
        &mut blob,
        &data,
        FilestoreConfig {
            chunk_size: Some(4),
            concurrency: 1,
        },
    );
    let encoded = blobstack::encode_meta(&meta);
    let decoded = blobstack::decode_meta_record(&encoded).expect("record should decode");
    assert_eq!(decoded.content_id.digest_bytes(), meta.content_id.digest_bytes());
    assert_eq!(decoded.total_size, meta.total_size);
    assert_eq!(decoded.num_chunks, meta.chunks.len() as u64);
    assert_eq!(decoded.aliases.len(), meta.aliases.len());
    assert_eq!(decoded.aliases[0].digest_bytes(), meta.aliases[0].digest_bytes());
}
