//! The cache decorator: a read-through/write-through cache over an inner
//! store, with two independently sized regions — a presence index answering
//! existence cheaply and a content cache holding full payloads. Writes go
//! through to the inner store first and populate the caches only on success;
//! nothing is ever cached speculatively. The only invalidation paths are
//! capacity-driven least-recently-used displacement and the administrative
//! `drop_caches` operation.

use vstd::prelude::*;

use crate::blobstore::BlobMap;
use crate::blobstore::Blobstore;
use crate::lru::LruCache;
use crate::lru::LruSet;
use crate::types::CoreContext;
use crate::types::Presence;
use crate::types::PutBehaviour;
use crate::types::PutStatus;
use crate::types::StorageError;

verus! {

/// Sizes of the two cache regions, in entries. The presence index is
/// customarily the small one: existence checks are frequent and cheap to
/// record.
#[derive(Clone, Copy, Debug)]
pub struct CacheConfig {
    pub presence_capacity: usize,
    pub content_capacity: usize,
}

/// A caching wrapper around an inner store.
pub struct CacheBlobstore<B> {
    inner: B,
    presence: LruSet,
    content: LruCache,
}

impl<B: Blobstore> CacheBlobstore<B> {
    /// The caches never contradict the inner store: a cached payload is the
    /// stored payload, and an indexed key is a stored key.
    pub open spec fn coherent(&self) -> bool {
        &&& forall|k: Seq<u8>|
            #[trigger] self.content_view().contains_key(k) ==> self.inner_view().contains_key(k)
                && self.content_view()[k] == self.inner_view()[k]
        &&& forall|k: Seq<u8>| #[trigger] self.presence_has(k) ==> self.inner_view().contains_key(k)
    }

    /// What the content cache holds.
    pub closed spec fn content_view(&self) -> BlobMap {
        self.content.view()
    }

    /// Whether the presence index knows `k` to exist.
    pub closed spec fn presence_has(&self, k: Seq<u8>) -> bool {
        self.presence.has(k)
    }

    /// The inner store, as this decorator sees it.
    pub closed spec fn inner_spec(&self) -> B {
        self.inner
    }

    /// The inner store's logical map.
    pub open spec fn inner_view(&self) -> BlobMap {
        self.inner_spec().view()
    }

    /// The capacity of the content region.
    pub closed spec fn content_capacity(&self) -> usize {
        self.content.capacity()
    }

    /// Internal well-formedness of the two cache regions.
    pub closed spec fn regions_wf(&self) -> bool {
        self.content.wf() && self.presence.wf()
    }

    /// Coherence carries over between states whose caches and logical map
    /// agree.
    proof fn lemma_same_views_coherent(pre: CacheBlobstore<B>, cur: CacheBlobstore<B>)
        requires
            pre.coherent(),
            cur.content_view() == pre.content_view(),
            forall|k: Seq<u8>| #[trigger] cur.presence_has(k) ==> pre.presence_has(k),
            cur.inner_view() == pre.inner_view(),
        ensures
            cur.coherent(),
    {
        assert forall|k: Seq<u8>| #[trigger] cur.content_view().contains_key(k)
            implies cur.inner_view().contains_key(k) && cur.content_view()[k]
            == cur.inner_view()[k] by {
            assert(pre.content_view().contains_key(k));
        }
        assert forall|k: Seq<u8>| #[trigger] cur.presence_has(k)
            implies cur.inner_view().contains_key(k) by {
            assert(pre.presence_has(k));
        }
    }

    /// Wrap `inner` with empty caches of the configured sizes.
    pub fn new(inner: B, config: CacheConfig) -> (r: CacheBlobstore<B>)
        requires
            inner.wf(),
        ensures
            r.wf(),
            r.view() == inner.view(),
            r.inner_spec() == inner,
            r.faulty() == inner.faulty(),
            r.content_capacity() == config.content_capacity,
            forall|k: Seq<u8>| !r.content_view().contains_key(k),
            forall|t: u64, k: Seq<u8>| r.put_blocked(t, k) == inner.put_blocked(t, k),
    {
        let r = CacheBlobstore {
            inner,
            presence: LruSet::new(config.presence_capacity),
            content: LruCache::new(config.content_capacity),
        };
        r
    }

    /// Read access to the inner store, for observation.
    pub fn inner_store(&self) -> (r: &B)
        ensures
            r == self.inner_spec(),
    {
        &self.inner
    }

    /// The administrative invalidation path: drop every cached entry, without
    /// touching the inner store. The next read of any key goes to the inner
    /// store.
    pub fn drop_caches(&mut self)
        requires
            old(self).wf(),
        ensures
            final(self).wf(),
            final(self).view() == old(self).view(),
            final(self).inner_spec() == old(self).inner_spec(),
            forall|k: Seq<u8>| !final(self).content_view().contains_key(k),
            forall|k: Seq<u8>| !final(self).presence_has(k),
    {
        self.content.clear();
        self.presence.clear();
    }
}

impl<B: Blobstore> Blobstore for CacheBlobstore<B> {
    open spec fn view(&self) -> BlobMap {
        self.inner_view()
    }

    open spec fn wf(&self) -> bool {
        &&& self.inner_spec().wf()
        &&& self.regions_wf()
        &&& self.coherent()
    }

    open spec fn faulty(&self) -> bool {
        self.inner_spec().faulty()
    }

    open spec fn put_blocked(&self, now_us: u64, key: Seq<u8>) -> bool {
        self.inner_spec().put_blocked(now_us, key)
    }

    /// Write-through: the inner store first; the caches are populated only on
    /// success and never speculatively.
    fn put(
        &mut self,
        ctx: &CoreContext,
        key: &Vec<u8>,
        value: Vec<u8>,
        behaviour: PutBehaviour,
    ) -> (r: Result<PutStatus, StorageError>)
        ensures
            (r is Ok && final(self).content_capacity() > 0) ==> final(self).content_view().contains_key(key@),
            final(self).content_capacity() == old(self).content_capacity(),
            r is Err ==> final(self).content_view() == old(self).content_view(),
    {
        let cached = value.clone();
        assert(cached@ =~= value@);
        let ghost pre = *old(self);
        match self.inner.put(ctx, key, value, behaviour) {
            Ok(st) => {
                self.content.insert(key, cached);
                self.presence.insert(key);
                proof {
                    assert(self.coherent()) by {
                        assert forall|k: Seq<u8>| #[trigger] self.content_view().contains_key(k)
                            implies self.inner_view().contains_key(k) && self.content_view()[k]
                            == self.inner_view()[k] by {
                            if k != key@ {
                                assert(pre.content_view().contains_key(k));
                            }
                        }
                        assert forall|k: Seq<u8>| #[trigger] self.presence_has(k) implies self.inner_view().contains_key(k) by {
                            if k != key@ {
                                assert(pre.presence_has(k));
                            }
                        }
                    }
                }
                Ok(st)
            },
            Err(e) => {
                proof {
                    Self::lemma_same_views_coherent(pre, *self);
                }
                Err(e)
            },
        }
    }

    /// Read path: consult the content cache; on a hit the inner store is not
    /// touched at all. On a miss the presence index cannot supply bytes, so
    /// the read falls through to the inner store and populates both regions
    /// on success; absence is not cached.
    fn get(&mut self, ctx: &CoreContext, key: &Vec<u8>) -> (r: Result<
        Option<Vec<u8>>,
        StorageError,
    >)
        ensures
            old(self).content_view().contains_key(key@) ==> (final(self).inner_spec() == old(self).inner_spec() && (r matches Ok(Some(_)))),
            final(self).content_capacity() == old(self).content_capacity(),
            (r matches Ok(Some(_)) && final(self).content_capacity() > 0) ==> final(self).content_view().contains_key(key@),
    {
        let ghost pre = *old(self);
        match self.content.get_touch(key) {
            Some(v) => {
                proof {
                    assert(pre.content_view().contains_key(key@));
                    assert(self.coherent()) by {
                        assert forall|k: Seq<u8>| #[trigger] self.content_view().contains_key(k)
                            implies self.inner_view().contains_key(k) && self.content_view()[k]
                            == self.inner_view()[k] by {
                            assert(pre.content_view().contains_key(k));
                        }
                        assert forall|k: Seq<u8>| #[trigger] self.presence_has(k) implies self.inner_view().contains_key(k) by {
                            assert(pre.presence_has(k));
                        }
                    }
                }
                Ok(Some(v))
            },
            None => {
                match self.inner.get(ctx, key) {
                    Ok(Some(v)) => {
                        let cached = v.clone();
                        assert(cached@ =~= v@);
                        self.content.insert(key, cached);
                        self.presence.insert(key);
                        proof {
                            assert(self.coherent()) by {
                                assert forall|k: Seq<u8>| #[trigger] self.content_view().contains_key(k)
                                    implies self.inner_view().contains_key(k) && self.content_view()[k]
                                    == self.inner_view()[k] by {
                                    if k != key@ {
                                        assert(pre.content_view().contains_key(k));
                                    }
                                }
                                assert forall|k: Seq<u8>| #[trigger] self.presence_has(k) implies self.inner_view().contains_key(k) by {
                                    if k != key@ {
                                        assert(pre.presence_has(k));
                                    }
                                }
                            }
                        }
                        Ok(Some(v))
                    },
                    Ok(None) => {
                        proof {
                            Self::lemma_same_views_coherent(pre, *self);
                        }
                        Ok(None)
                    },
                    Err(e) => {
                        proof {
                            Self::lemma_same_views_coherent(pre, *self);
                        }
                        Err(e)
                    },
                }
            },
        }
    }

    /// Existence path: a cached payload or an indexed key answers `Present`
    /// without a full fetch; otherwise the inner store is asked, and a
    /// decisive `Present` populates the index.
    fn is_present(&mut self, ctx: &CoreContext, key: &Vec<u8>) -> (r: Result<
        Presence,
        StorageError,
    >)
        ensures
            (old(self).content_view().contains_key(key@) || old(self).presence_has(key@)) ==> (
            final(self).inner_spec() == old(self).inner_spec() && r == Ok::<Presence, StorageError>(
                Presence::Present,
            )),
    {
        let ghost pre = *old(self);
        if self.content.contains(key) {
            proof {
                assert(pre.content_view().contains_key(key@));
            }
            return Ok(Presence::Present);
        }
        if self.presence.contains(key) {
            proof {
                assert(pre.presence_has(key@));
            }
            return Ok(Presence::Present);
        }
        match self.inner.is_present(ctx, key) {
            Ok(Presence::Present) => {
                self.presence.insert(key);
                proof {
                    assert(self.coherent()) by {
                        assert forall|k: Seq<u8>| #[trigger] self.content_view().contains_key(k)
                            implies self.inner_view().contains_key(k) && self.content_view()[k]
                            == self.inner_view()[k] by {
                            assert(pre.content_view().contains_key(k));
                        }
                        assert forall|k: Seq<u8>| #[trigger] self.presence_has(k) implies self.inner_view().contains_key(k) by {
                            if k != key@ {
                                assert(pre.presence_has(k));
                            }
                        }
                    }
                }
                Ok(Presence::Present)
            },
            Ok(Presence::Absent) => {
                proof {
                    Self::lemma_same_views_coherent(pre, *self);
                }
                Ok(Presence::Absent)
            },
            Ok(Presence::MaybePresent) => {
                proof {
                    Self::lemma_same_views_coherent(pre, *self);
                }
                Ok(Presence::MaybePresent)
            },
            Err(e) => {
                proof {
                    Self::lemma_same_views_coherent(pre, *self);
                }
                Err(e)
            },
        }
    }
}

} // verus!
