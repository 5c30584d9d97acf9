//! The uniform storage interface: `put` / `get` / `is_present` over opaque
//! byte keys. Every physical backend and every decorator implements the same
//! trait, so layers compose transparently.

use vstd::prelude::*;

use crate::types::CoreContext;
use crate::types::Presence;
use crate::types::PutBehaviour;
use crate::types::PutStatus;
use crate::types::StorageError;

verus! {

/// The logical content of a store: opaque byte keys to byte values.
pub type BlobMap = Map<Seq<u8>, Seq<u8>>;

/// Whether a put of `value` under `key` is allowed by `behaviour` against the
/// state `pre`: overwriting policies always are; `IfAbsent*` policies only
/// when the key is absent or already holds this exact content.
pub open spec fn put_admissible(
    pre: BlobMap,
    key: Seq<u8>,
    value: Seq<u8>,
    behaviour: PutBehaviour,
) -> bool {
    behaviour.spec_overwrites() || !pre.contains_key(key) || pre[key] == value
}

/// What any `put` guarantees about the logical map and its result.
///
/// On success the map gains exactly this binding and the status reports
/// truthfully whether the key was fresh, replaced, or already identical. On
/// failure the map is unchanged; `AlreadyPresent` comes only from an
/// inadmissible `IfAbsent*` write.
pub open spec fn put_post(
    pre: BlobMap,
    post: BlobMap,
    key: Seq<u8>,
    value: Seq<u8>,
    behaviour: PutBehaviour,
    r: Result<PutStatus, StorageError>,
) -> bool {
    match r {
        Ok(st) => {
            &&& post == pre.insert(key, value)
            &&& match st {
                PutStatus::Inserted => !pre.contains_key(key),
                PutStatus::Overwrote => pre.contains_key(key) && behaviour.spec_overwrites(),
                PutStatus::Deduped => pre.contains_key(key) && pre[key] == value,
            }
        },
        Err(e) => {
            &&& post == pre
            &&& (e is AlreadyPresent ==> !put_admissible(pre, key, value, behaviour))
        },
    }
}

/// What any `get` guarantees about its result: a returned value is exactly
/// the stored one, a `None` means the key is absent, and absence is not an
/// error.
pub open spec fn get_post(
    view: BlobMap,
    key: Seq<u8>,
    r: Result<Option<Vec<u8>>, StorageError>,
) -> bool {
    match r {
        Ok(Some(v)) => view.contains_key(key) && v@ == view[key],
        Ok(None) => !view.contains_key(key),
        Err(e) => e is IoFailure,
    }
}

/// What any `is_present` guarantees: a decisive answer is truthful;
/// `MaybePresent` commits to nothing and tells the caller to ask further in.
pub open spec fn presence_post(
    view: BlobMap,
    key: Seq<u8>,
    r: Result<Presence, StorageError>,
) -> bool {
    match r {
        Ok(Presence::Present) => view.contains_key(key),
        Ok(Presence::Absent) => !view.contains_key(key),
        Ok(Presence::MaybePresent) => true,
        Err(e) => e is IoFailure,
    }
}

/// Read your writes: once a put has signaled success, any state it can have
/// left holds the written value under the key, so a subsequent get by the
/// same caller observes it.
pub proof fn lemma_read_your_writes(
    pre: BlobMap,
    post: BlobMap,
    key: Seq<u8>,
    value: Seq<u8>,
    behaviour: PutBehaviour,
    st: PutStatus,
)
    requires
        put_post(pre, post, key, value, behaviour, Ok(st)),
    ensures
        post.contains_key(key),
        post[key] == value,
        forall|r: Result<Option<Vec<u8>>, StorageError>|
            #[trigger] get_post(post, key, r) ==> match r {
                Ok(Some(v)) => v@ == value,
                Ok(None) => false,
                Err(e) => e is IoFailure,
            },
{
}

/// The uniform interface of every backend and decorator.
///
/// `view` is the logical map of stored bytes; `wf` the layer's internal
/// invariant. `faulty` says whether an injected I/O fault is still pending
/// somewhere in the stack: a layer may only fail with `IoFailure` while one
/// is, so a stack with no pending fault owes success. `put_blocked` says
/// whether write-lease coordination would stall a put of this key at this
/// instant; only then may a put fail with `LeaseTimeout`.
pub trait Blobstore: Sized {
    spec fn view(&self) -> BlobMap;

    spec fn wf(&self) -> bool;

    spec fn faulty(&self) -> bool;

    spec fn put_blocked(&self, now_us: u64, key: Seq<u8>) -> bool;

    /// Write `value` under `key` subject to `behaviour`.
    fn put(
        &mut self,
        ctx: &CoreContext,
        key: &Vec<u8>,
        value: Vec<u8>,
        behaviour: PutBehaviour,
    ) -> (r: Result<PutStatus, StorageError>)
        requires
            old(self).wf(),
        ensures
            final(self).wf(),
            put_post(old(self).view(), final(self).view(), key@, value@, behaviour, r),
            r == Err::<PutStatus, StorageError>(StorageError::IoFailure) ==> old(self).faulty(),
            r == Err::<PutStatus, StorageError>(StorageError::LeaseTimeout) ==> old(
                self,
            ).put_blocked(ctx.now_us, key@),
            !old(self).faulty() ==> !final(self).faulty(),
            forall|k: Seq<u8>, t: u64|
                !old(self).put_blocked(t, k) ==> !(#[trigger] final(self).put_blocked(t, k)),
    ;

    /// Read the bytes stored under `key`, if any.
    fn get(&mut self, ctx: &CoreContext, key: &Vec<u8>) -> (r: Result<
        Option<Vec<u8>>,
        StorageError,
    >)
        requires
            old(self).wf(),
        ensures
            final(self).wf(),
            final(self).view() == old(self).view(),
            get_post(old(self).view(), key@, r),
            r is Err ==> old(self).faulty(),
            !old(self).faulty() ==> !final(self).faulty(),
            forall|k: Seq<u8>, t: u64|
                !old(self).put_blocked(t, k) ==> !(#[trigger] final(self).put_blocked(t, k)),
    ;

    /// Cheap tri-state existence check for `key`.
    fn is_present(&mut self, ctx: &CoreContext, key: &Vec<u8>) -> (r: Result<
        Presence,
        StorageError,
    >)
        requires
            old(self).wf(),
        ensures
            final(self).wf(),
            final(self).view() == old(self).view(),
            presence_post(old(self).view(), key@, r),
            r is Err ==> old(self).faulty(),
            !old(self).faulty() ==> !final(self).faulty(),
            forall|k: Seq<u8>, t: u64|
                !old(self).put_blocked(t, k) ==> !(#[trigger] final(self).put_blocked(t, k)),
    ;
}

} // verus!
