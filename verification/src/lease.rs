//! The write-lease deduplication decorator. Before writing, a writer must
//! hold the short-lived exclusive lease for the key in a shared coordination
//! store; a writer that finds the lease held by another waits for the
//! holder's outcome — if the holder wrote this very content, the wait ends in
//! the holder's result instead of a redundant write, and otherwise in
//! `LeaseTimeout`. How often a waiting writer re-polls a held lease is the
//! driver's choice, not a constant of this layer: each `put` is one poll, and
//! the driver retries it with a later clock until the claim expires. The
//! no-lease mode skips coordination entirely, for callers to whom duplicate
//! concurrent writes are acceptable.
//!
//! The coordination store is shared between processes in deployment; here it
//! is modeled explicitly as the table of foreign claims this instance has
//! observed, which the driver maintains. A claim expires by its deadline
//! passing; our own acquisition and release both happen inside one `put`
//! call, so only foreign claims are ever tabled.

use vstd::prelude::*;

use crate::blobstore::BlobMap;
use crate::blobstore::Blobstore;
use crate::types::CoreContext;
use crate::types::Presence;
use crate::types::PutBehaviour;
use crate::types::PutStatus;
use crate::types::StorageError;
use crate::util::bytes_eq;

verus! {

/// Whether writes coordinate through leases at all.
#[derive(Clone, Copy, Debug, PartialEq, Eq, Structural)]
pub enum LeaseMode {
    /// Skip lease acquisition entirely.
    NoLease,
    /// Acquire the key's lease before every write.
    Lease,
}

/// One observed foreign claim: another writer holds the key's lease until
/// `expiry_us`; `completed` says whether its write already finished.
pub struct LeaseEntry {
    pub key: Vec<u8>,
    pub expiry_us: u64,
    pub completed: bool,
}

/// The lease-coordinating wrapper around an inner store.
pub struct LeaseBlobstore<B> {
    inner: B,
    mode: LeaseMode,
    table: Vec<LeaseEntry>,
}

impl<B: Blobstore> LeaseBlobstore<B> {
    /// The inner store, as this decorator sees it.
    pub closed spec fn inner_spec(&self) -> B {
        self.inner
    }

    /// The configured coordination mode.
    pub closed spec fn mode_spec(&self) -> LeaseMode {
        self.mode
    }

    /// Whether a foreign writer holds the key's lease at `now`.
    pub closed spec fn foreign_lease(&self, now_us: u64, key: Seq<u8>) -> bool {
        exists|i: int|
            0 <= i < self.table@.len() && (#[trigger] self.table@[i]).key@ == key
                && self.table@[i].expiry_us > now_us
    }

    /// Wrap `inner` under the given coordination mode, with no claims
    /// observed yet.
    pub fn new(inner: B, mode: LeaseMode) -> (r: LeaseBlobstore<B>)
        requires
            inner.wf(),
        ensures
            r.wf(),
            r.view() == inner.view(),
            r.inner_spec() == inner,
            r.mode_spec() == mode,
            r.faulty() == inner.faulty(),
            forall|t: u64, k: Seq<u8>|
                #[trigger] r.put_blocked(t, k) == inner.put_blocked(t, k),
    {
        LeaseBlobstore { inner, mode, table: Vec::new() }
    }

    /// Read access to the inner store, for observation.
    pub fn inner_store(&self) -> (r: &B)
        ensures
            r == self.inner_spec(),
    {
        &self.inner
    }

    /// Record that another writer holds the lease for `key` until
    /// `expiry_us`, with its write finished or not; the driver calls this
    /// with what the coordination store shows.
    pub fn observe_writer(&mut self, key: Vec<u8>, expiry_us: u64, completed: bool)
        requires
            old(self).wf(),
        ensures
            final(self).wf(),
            final(self).view() == old(self).view(),
            final(self).inner_spec() == old(self).inner_spec(),
            final(self).mode_spec() == old(self).mode_spec(),
            final(self).faulty() == old(self).faulty(),
            forall|t: u64, k: Seq<u8>|
                #[trigger] final(self).foreign_lease(t, k) == (old(self).foreign_lease(t, k) || (k
                    == key@ && expiry_us > t)),
    {
        let ghost pre_table = self.table@;
        let ghost gkey = key@;
        self.table.push(LeaseEntry { key, expiry_us, completed });
        proof {
            assert forall|t: u64, k: Seq<u8>|
                #[trigger] self.foreign_lease(t, k) == (old(self).foreign_lease(t, k) || (k == gkey
                    && expiry_us > t)) by {
                if self.foreign_lease(t, k) {
                    let i = choose|i: int|
                        0 <= i < self.table@.len() && (#[trigger] self.table@[i]).key@ == k
                            && self.table@[i].expiry_us > t;
                    if i < pre_table.len() {
                        assert(pre_table[i].key@ == k && pre_table[i].expiry_us > t);
                    }
                }
                if old(self).foreign_lease(t, k) {
                    let i = choose|i: int|
                        0 <= i < pre_table.len() && (#[trigger] pre_table[i]).key@ == k
                            && pre_table[i].expiry_us > t;
                    assert(self.table@[i].key@ == k && self.table@[i].expiry_us > t);
                }
                if k == gkey && expiry_us > t {
                    assert(self.table@[self.table@.len() - 1].key@ == k);
                }
            }
        }
    }

    /// The index of an unexpired foreign claim on `key`, if one is observed.
    fn find_claim(&self, key: &Vec<u8>, now_us: u64) -> (r: Option<usize>)
        ensures
            match r {
                Some(i) => i < self.table@.len() && self.table@[i as int].key@ == key@
                    && self.table@[i as int].expiry_us > now_us && self.foreign_lease(
                    now_us,
                    key@,
                ),
                None => !self.foreign_lease(now_us, key@),
            },
    {
        let mut i: usize = 0;
        while i < self.table.len()
            invariant
                i <= self.table@.len(),
                forall|j: int|
                    0 <= j < i ==> !((#[trigger] self.table@[j]).key@ == key@
                        && self.table@[j].expiry_us > now_us),
            decreases self.table@.len() - i,
        {
            if self.table[i].expiry_us > now_us && bytes_eq(
                self.table[i].key.as_slice(),
                key.as_slice(),
            ) {
                return Some(i);
            }
            i += 1;
        }
        None
    }
}

impl<B: Blobstore> Blobstore for LeaseBlobstore<B> {
    open spec fn view(&self) -> BlobMap {
        self.inner_spec().view()
    }

    open spec fn wf(&self) -> bool {
        self.inner_spec().wf()
    }

    open spec fn faulty(&self) -> bool {
        self.inner_spec().faulty()
    }

    open spec fn put_blocked(&self, now_us: u64, key: Seq<u8>) -> bool {
        (self.mode_spec() is Lease && self.foreign_lease(now_us, key))
            || self.inner_spec().put_blocked(now_us, key)
    }

    /// Acquire the key's lease, write through, release. A foreign claim on
    /// the key resolves to the holder's outcome when the holder wrote this
    /// exact content, and to `LeaseTimeout` otherwise.
    fn put(
        &mut self,
        ctx: &CoreContext,
        key: &Vec<u8>,
        value: Vec<u8>,
        behaviour: PutBehaviour,
    ) -> (r: Result<PutStatus, StorageError>) {
        let ghost pre = *self;
        match self.mode {
            LeaseMode::NoLease => {
                let result = self.inner.put(ctx, key, value, behaviour);
                result
            },
            LeaseMode::Lease => {
                match self.find_claim(key, ctx.now_us) {
                    Some(i) => {
                        let completed = self.table[i].completed;
                        if completed {
                            // The holder finished: adopt its outcome when it
                            // wrote this very content.
                            match self.inner.get(ctx, key) {
                                Ok(Some(v)) => {
                                    if bytes_eq(v.as_slice(), value.as_slice()) {
                                        proof {
                                            assert(pre.view().insert(key@, value@) =~= pre.view());
                                        }
                                        Ok(PutStatus::Deduped)
                                    } else {
                                        Err(StorageError::LeaseTimeout)
                                    }
                                },
                                Ok(None) => Err(StorageError::LeaseTimeout),
                                Err(_) => Err(StorageError::LeaseTimeout),
                            }
                        } else {
                            // The holder is still writing, and the wait
                            // budget resolves nothing in a single call.
                            Err(StorageError::LeaseTimeout)
                        }
                    },
                    None => {
                        // Lease acquired; write and release within this call.
                        let result = self.inner.put(ctx, key, value, behaviour);
                        result
                    },
                }
            },
        }
    }

    /// Reads need no lease.
    fn get(&mut self, ctx: &CoreContext, key: &Vec<u8>) -> (r: Result<
        Option<Vec<u8>>,
        StorageError,
    >) {
        self.inner.get(ctx, key)
    }

    /// Existence checks need no lease.
    fn is_present(&mut self, ctx: &CoreContext, key: &Vec<u8>) -> (r: Result<
        Presence,
        StorageError,
    >) {
        self.inner.is_present(ctx, key)
    }
}

} // verus!
