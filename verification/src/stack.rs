//! Composing the standard decorator stack over a physical backend. A call
//! passes through rate limiting, then the caches, then write-lease
//! coordination, then namespace prefixing, and reaches storage; each layer
//! can be configured neutral (no prefix, no lease, zero-capacity caches, no
//! rates), so one stack shape serves every deployment.

use vstd::prelude::*;

use crate::blobstore::BlobMap;
use crate::blobstore::Blobstore;
use crate::cache::CacheBlobstore;
use crate::cache::CacheConfig;
use crate::lease::LeaseBlobstore;
use crate::lease::LeaseMode;
use crate::memblob::Memblob;
use crate::prefix::prefixed_view;
use crate::prefix::PrefixBlobstore;
use crate::shard::ShardedBlob;
use crate::throttle::ThrottleOptions;
use crate::throttle::ThrottledBlob;
use crate::types::CoreContext;
use crate::types::Presence;
use crate::types::PutBehaviour;
use crate::types::PutStatus;
use crate::types::StorageError;

verus! {

/// A physical backend: the in-memory store or the sharded store, behind one
/// type so a stack can be built over either.
pub enum PhysicalBlob {
    Memory(Memblob),
    Sharded(ShardedBlob),
}

impl Blobstore for PhysicalBlob {
    open spec fn view(&self) -> BlobMap {
        match self {
            PhysicalBlob::Memory(b) => b.view(),
            PhysicalBlob::Sharded(b) => b.view(),
        }
    }

    open spec fn wf(&self) -> bool {
        match self {
            PhysicalBlob::Memory(b) => b.wf(),
            PhysicalBlob::Sharded(b) => b.wf(),
        }
    }

    open spec fn faulty(&self) -> bool {
        match self {
            PhysicalBlob::Memory(b) => b.faulty(),
            PhysicalBlob::Sharded(b) => b.faulty(),
        }
    }

    open spec fn put_blocked(&self, now_us: u64, key: Seq<u8>) -> bool {
        match self {
            PhysicalBlob::Memory(b) => b.put_blocked(now_us, key),
            PhysicalBlob::Sharded(b) => b.put_blocked(now_us, key),
        }
    }

    fn put(
        &mut self,
        ctx: &CoreContext,
        key: &Vec<u8>,
        value: Vec<u8>,
        behaviour: PutBehaviour,
    ) -> (r: Result<PutStatus, StorageError>) {
        match self {
            PhysicalBlob::Memory(b) => b.put(ctx, key, value, behaviour),
            PhysicalBlob::Sharded(b) => b.put(ctx, key, value, behaviour),
        }
    }

    fn get(&mut self, ctx: &CoreContext, key: &Vec<u8>) -> (r: Result<
        Option<Vec<u8>>,
        StorageError,
    >) {
        match self {
            PhysicalBlob::Memory(b) => b.get(ctx, key),
            PhysicalBlob::Sharded(b) => b.get(ctx, key),
        }
    }

    fn is_present(&mut self, ctx: &CoreContext, key: &Vec<u8>) -> (r: Result<
        Presence,
        StorageError,
    >) {
        match self {
            PhysicalBlob::Memory(b) => b.is_present(ctx, key),
            PhysicalBlob::Sharded(b) => b.is_present(ctx, key),
        }
    }
}

/// Everything a stack needs at construction: the namespace prefix (empty for
/// none), the lease mode, the two cache capacities (zero for uncached), and
/// the two rates (absent for unthrottled). None of it changes at runtime.
pub struct StackConfig {
    pub prefix: Vec<u8>,
    pub lease: LeaseMode,
    pub cache: CacheConfig,
    pub throttle: ThrottleOptions,
}

/// The standard stack shape over a backend.
pub type StandardStack<B> = ThrottledBlob<CacheBlobstore<LeaseBlobstore<PrefixBlobstore<B>>>>;

/// Build the standard decorated stack over `backend`: prefixing closest to
/// storage, then lease coordination, then the caches, with rate limiting
/// outermost.
pub fn build_stack<B: Blobstore>(backend: B, config: StackConfig) -> (r: StandardStack<B>)
    requires
        backend.wf(),
        config.throttle.wf(),
    ensures
        r.wf(),
        r.view() == prefixed_view(backend.view(), config.prefix@),
        r.faulty() == backend.faulty(),
        forall|t: u64, k: Seq<u8>|
            #[trigger] r.put_blocked(t, k) == backend.put_blocked(t, config.prefix@ + k),
{
    let prefixed = PrefixBlobstore::new(backend, config.prefix);
    let leased = LeaseBlobstore::new(prefixed, config.lease);
    let cached = CacheBlobstore::new(leased, config.cache);
    ThrottledBlob::new(cached, config.throttle)
}

} // verus!
