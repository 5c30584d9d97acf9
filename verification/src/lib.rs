//! A composable, content-addressed blob storage layer.
//!
//! A uniform `put` / `get` / `is_present` interface over physical backends
//! (in-memory, sharded), wrapped by stackable decorators that add namespace
//! prefixing, read-through/write-through caching, write-lease deduplication,
//! and rate limiting. On top sits a chunked content store that splits large
//! byte streams into fixed-size content-addressed chunks plus a metadata
//! record, with a durability guarantee: a readable metadata record never
//! points at a missing chunk.

mod blobstore;
mod cache;
mod chunk;
mod digest;
mod filestore;
mod lease;
mod limits;
mod lru;
mod memblob;
mod metadata;
mod prefix;
mod progress;
mod service;
mod shard;
mod stack;
mod throttle;
mod types;
mod util;

pub use limits::hostname_scheme;
pub use service::calculate_websocket_accept;
pub use service::control_decision;
pub use service::AcceptedConnection;
pub use service::Acceptor;
pub use service::ControlDecision;
pub use service::Method;
pub use service::MononokeHttpService;
pub use service::PendingConnection;
pub use progress::progress_due;
pub use progress::progress_rate;
pub use progress::Progress;

pub use lease::LeaseBlobstore;
pub use lease::LeaseMode;
pub use prefix::PrefixBlobstore;
pub use stack::build_stack;
pub use stack::PhysicalBlob;
pub use stack::StackConfig;
pub use stack::StandardStack;

pub use shard::lemma_shard_deterministic;
pub use shard::route;
pub use shard::shard_hash;
pub use shard::shard_of;
pub use shard::ConnectionStrategy;
pub use shard::ShardConfigError;
pub use shard::ShardedBlob;

pub use metadata::decode_meta;
pub use metadata::lemma_meta_round_trip;
pub use metadata::spec_encode_meta;
pub use metadata::MetaAbs;
pub use prefix::prefixed_view;
pub use throttle::lemma_throttle_fifo;
pub use throttle::lemma_throttle_rate;
pub use throttle::slots_of;
pub use throttle::RateLimiter;
pub use throttle::ThrottleOptions;
pub use throttle::ThrottledBlob;

pub use cache::CacheBlobstore;
pub use cache::CacheConfig;
pub use lru::LruCache;
pub use lru::LruSet;

pub use blobstore::get_post;
pub use blobstore::lemma_read_your_writes;
pub use blobstore::presence_post;
pub use blobstore::put_admissible;
pub use blobstore::put_post;
pub use blobstore::BlobMap;
pub use blobstore::Blobstore;
pub use chunk::chunk_count;
pub use chunk::chunks_of;
pub use chunk::concat_all;
pub use chunk::lemma_chunks_concat;
pub use chunk::lemma_chunks_count;
pub use chunk::lemma_chunks_sizes;
pub use chunk::split_chunks;
pub use digest::alias_key;
pub use digest::alias_of;
pub use digest::base64_of;
pub use digest::chunk_key;
pub use digest::lemma_alias_key_injective;
pub use digest::lemma_chunk_key_injective;
pub use digest::lemma_key_spaces_disjoint;
pub use digest::lemma_meta_key_injective;
pub use digest::make_alias_key;
pub use digest::make_chunk_key;
pub use digest::make_meta_key;
pub use digest::Alias;
pub use digest::ContentId;
pub use digest::meta_key;
pub use digest::sha1_of;
pub use digest::FetchKey;
pub use filestore::fetched_content;
pub use filestore::lemma_store_durability;
pub use filestore::lemma_store_idempotent;
pub use filestore::lemma_store_round_trip;
pub use filestore::request_matches;
pub use filestore::resolve_spec;
pub use filestore::store_chunks;
pub use filestore::store_conflicts;
pub use filestore::store_residue;
pub use filestore::stored_content;
pub use filestore::stored_meta;
pub use filestore::with_content_records;
pub use filestore::fetch;
pub use filestore::fetch_concat;
pub use filestore::store;
pub use filestore::ChunkReader;
pub use filestore::FetchError;
pub use filestore::FilestoreConfig;
pub use filestore::StoreError;
pub use filestore::StoreRequest;
pub use memblob::Memblob;
pub use metadata::decode_meta_record;
pub use metadata::encode_meta;
pub use metadata::ChunkId;
pub use metadata::DecodedMeta;
pub use metadata::ContentMetadata;

pub use types::CoreContext;
pub use types::Presence;
pub use types::PutBehaviour;
pub use types::PutStatus;
pub use types::StorageError;
