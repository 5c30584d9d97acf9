//! The namespace decorator: rewrites every key by prepending a static prefix
//! before forwarding to the inner store. Purely syntactic — it never changes
//! what the inner call means.

use vstd::prelude::*;

use crate::blobstore::BlobMap;
use crate::blobstore::Blobstore;
use crate::types::CoreContext;
use crate::types::Presence;
use crate::types::PutBehaviour;
use crate::types::PutStatus;
use crate::types::StorageError;

verus! {

/// The view of an inner store through a key prefix: exactly the inner
/// bindings whose keys carry the prefix, under their unprefixed names.
pub open spec fn prefixed_view(inner: BlobMap, prefix: Seq<u8>) -> BlobMap {
    Map::new(|k: Seq<u8>| inner.contains_key(prefix + k), |k: Seq<u8>| inner[prefix + k])
}

/// Prepending one prefix is injective.
pub proof fn lemma_prefix_cancel(prefix: Seq<u8>, a: Seq<u8>, b: Seq<u8>)
    requires
        prefix + a == prefix + b,
    ensures
        a == b,
{
    assert(a =~= (prefix + a).skip(prefix.len() as int));
    assert(b =~= (prefix + b).skip(prefix.len() as int));
}

/// The namespacing wrapper around an inner store.
pub struct PrefixBlobstore<B> {
    inner: B,
    prefix: Vec<u8>,
}

impl<B: Blobstore> PrefixBlobstore<B> {
    /// The inner store, as this decorator sees it.
    pub closed spec fn inner_spec(&self) -> B {
        self.inner
    }

    /// The namespace prefix.
    pub closed spec fn prefix_spec(&self) -> Seq<u8> {
        self.prefix@
    }

    /// Wrap `inner` under the namespace `prefix`.
    pub fn new(inner: B, prefix: Vec<u8>) -> (r: PrefixBlobstore<B>)
        requires
            inner.wf(),
        ensures
            r.wf(),
            r.inner_spec() == inner,
            r.prefix_spec() == prefix@,
            r.view() == prefixed_view(inner.view(), prefix@),
            r.faulty() == inner.faulty(),
            forall|t: u64, k: Seq<u8>|
                #[trigger] r.put_blocked(t, k) == inner.put_blocked(t, prefix@ + k),
    {
        PrefixBlobstore { inner, prefix }
    }

    /// Read access to the inner store, for observation.
    pub fn inner_store(&self) -> (r: &B)
        ensures
            r == self.inner_spec(),
    {
        &self.inner
    }

    /// The rewritten key: prefix, then the caller's key.
    fn prefixed_key(&self, key: &Vec<u8>) -> (r: Vec<u8>)
        ensures
            r@ == self.prefix_spec() + key@,
    {
        let mut r: Vec<u8> = Vec::new();
        let mut i: usize = 0;
        while i < self.prefix.len()
            invariant
                i <= self.prefix@.len(),
                r@ == self.prefix@.take(i as int),
            decreases self.prefix@.len() - i,
        {
            r.push(self.prefix[i]);
            i += 1;
            proof {
                assert(r@ =~= self.prefix@.take(i as int));
            }
        }
        proof {
            assert(self.prefix@.take(self.prefix@.len() as int) =~= self.prefix@);
        }
        let mut j: usize = 0;
        while j < key.len()
            invariant
                j <= key@.len(),
                r@ == self.prefix@ + key@.take(j as int),
            decreases key@.len() - j,
        {
            r.push(key[j]);
            j += 1;
            proof {
                assert(r@ =~= self.prefix@ + key@.take(j as int));
            }
        }
        proof {
            assert(key@.take(key@.len() as int) =~= key@);
        }
        r
    }
}

impl<B: Blobstore> Blobstore for PrefixBlobstore<B> {
    open spec fn view(&self) -> BlobMap {
        prefixed_view(self.inner_spec().view(), self.prefix_spec())
    }

    open spec fn wf(&self) -> bool {
        self.inner_spec().wf()
    }

    open spec fn faulty(&self) -> bool {
        self.inner_spec().faulty()
    }

    open spec fn put_blocked(&self, now_us: u64, key: Seq<u8>) -> bool {
        self.inner_spec().put_blocked(now_us, self.prefix_spec() + key)
    }

    /// Forward the write under the rewritten key.
    fn put(
        &mut self,
        ctx: &CoreContext,
        key: &Vec<u8>,
        value: Vec<u8>,
        behaviour: PutBehaviour,
    ) -> (r: Result<PutStatus, StorageError>) {
        let ghost pre = *self;
        let pk = self.prefixed_key(key);
        let result = self.inner.put(ctx, &pk, value, behaviour);
        proof {
            let p = pre.prefix_spec();
            match result {
                Ok(_) => {
                    let target = pre.view().insert(key@, value@);
                    assert(self.inner_spec().view() == pre.inner_spec().view().insert(
                        p + key@,
                        value@,
                    ));
                    assert forall|k: Seq<u8>| #[trigger] self.view().contains_key(k) implies
                        target.contains_key(k) && self.view()[k] == target[k] by {
                        if p + k == p + key@ {
                            lemma_prefix_cancel(p, k, key@);
                        }
                    }
                    assert forall|k: Seq<u8>| #[trigger] target.contains_key(k) implies
                        self.view().contains_key(k) by {
                        if p + k == p + key@ {
                            lemma_prefix_cancel(p, k, key@);
                        }
                    }
                    assert(self.view() =~= target);
                },
                Err(_) => {
                    assert(self.view() =~= pre.view());
                },
            }
            assert forall|k: Seq<u8>, t: u64|
                !pre.put_blocked(t, k) implies !(#[trigger] self.put_blocked(t, k)) by {
                assert(!pre.inner_spec().put_blocked(t, p + k));
            }
        }
        result
    }

    /// Forward the read under the rewritten key.
    fn get(&mut self, ctx: &CoreContext, key: &Vec<u8>) -> (r: Result<
        Option<Vec<u8>>,
        StorageError,
    >) {
        let ghost pre = *self;
        let pk = self.prefixed_key(key);
        let result = self.inner.get(ctx, &pk);
        proof {
            let p = pre.prefix_spec();
            assert(self.view() =~= pre.view());
            assert forall|k: Seq<u8>, t: u64|
                !pre.put_blocked(t, k) implies !(#[trigger] self.put_blocked(t, k)) by {
                assert(!pre.inner_spec().put_blocked(t, p + k));
            }
        }
        result
    }

    /// Forward the check under the rewritten key.
    fn is_present(&mut self, ctx: &CoreContext, key: &Vec<u8>) -> (r: Result<
        Presence,
        StorageError,
    >) {
        let ghost pre = *self;
        let pk = self.prefixed_key(key);
        let result = self.inner.is_present(ctx, &pk);
        proof {
            let p = pre.prefix_spec();
            assert(self.view() =~= pre.view());
            assert forall|k: Seq<u8>, t: u64|
                !pre.put_blocked(t, k) implies !(#[trigger] self.put_blocked(t, k)) by {
                assert(!pre.inner_spec().put_blocked(t, p + k));
            }
        }
        result
    }
}

} // verus!
