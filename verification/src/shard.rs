//! The shard router and the sharded backend: every key maps deterministically
//! to one of N shards by a stable hash of the key bytes alone, so the same
//! key always routes to the same shard under one shard-map configuration.
//! Reads and writes are dispatched to the owning shard; the three
//! connection-establishment strategies are behaviorally identical above the
//! router boundary.

use vstd::prelude::*;

use crate::blobstore::BlobMap;
use crate::blobstore::Blobstore;
use crate::memblob::Memblob;
use crate::types::CoreContext;
use crate::types::Presence;
use crate::types::PutBehaviour;
use crate::types::PutStatus;
use crate::types::StorageError;

verus! {

/// The hash's starting state.
pub const HASH_OFFSET: u64 = 14695981039346656037;

/// The hash's multiplier.
pub const HASH_PRIME: u64 = 1099511628211;

/// A stable hash of the key bytes alone: fold each byte in with xor and a
/// wrapping multiply. Deterministic by construction — it is a function of the
/// byte sequence.
pub open spec fn shard_hash(key: Seq<u8>) -> u64
    decreases key.len(),
{
    if key.len() == 0 {
        HASH_OFFSET
    } else {
        (((shard_hash(key.drop_last()) ^ (key.last() as u64)) as nat * HASH_PRIME as nat)
            % 0x1_0000_0000_0000_0000nat) as u64
    }
}

/// Which of `count` shards owns a key.
pub open spec fn shard_of(key: Seq<u8>, count: nat) -> nat
    recommends
        count >= 1,
{
    shard_hash(key) as nat % (if count >= 1 {
        count
    } else {
        1
    })
}

/// Shard assignment is deterministic: it depends on the key bytes and the
/// shard count alone, so the same key routes to the same shard for as long as
/// one shard map is configured.
pub proof fn lemma_shard_deterministic(k1: Seq<u8>, k2: Seq<u8>, count: nat)
    requires
        k1 == k2,
    ensures
        shard_of(k1, count) == shard_of(k2, count),
{
}

/// Executable routing: the shard that owns `key` among `shard_count`.
pub fn route(key: &Vec<u8>, shard_count: u64) -> (r: u64)
    requires
        shard_count >= 1,
    ensures
        r == shard_of(key@, shard_count as nat),
        r < shard_count,
{
    let mut h: u64 = HASH_OFFSET;
    let mut i: usize = 0;
    while i < key.len()
        invariant
            i <= key@.len(),
            h == shard_hash(key@.take(i as int)),
        decreases key@.len() - i,
    {
        let ghost prefix = key@.take(i as int);
        h = (h ^ (key[i] as u64)).wrapping_mul(HASH_PRIME);
        i += 1;
        proof {
            assert(key@.take(i as int).drop_last() =~= prefix);
            assert(key@.take(i as int).last() == key@[i - 1]);
        }
    }
    proof {
        assert(key@.take(key@.len() as int) =~= key@);
    }
    h % shard_count
}

/// How connections to a shard are established; the choice never changes what
/// the router stores or returns.
#[derive(Clone, Copy, Debug, PartialEq, Eq, Structural)]
pub enum ConnectionStrategy {
    /// Through a connection proxy.
    Proxied,
    /// From a pool of direct connections.
    Pooled,
    /// Direct connections resolved through the shard map.
    ShardMapDirect,
}

/// A shard map with no shards is a fatal configuration error.
#[derive(Clone, Copy, Debug, PartialEq, Eq, Structural)]
pub struct ShardConfigError;

/// A sharded backend: N independent shard stores behind the router. Each
/// shard holds exactly the keys that route to it.
pub struct ShardedBlob {
    shards: Vec<Memblob>,
    strategy: ConnectionStrategy,
}

impl ShardedBlob {
    /// The number of shards in the configured shard map.
    pub closed spec fn shard_count(&self) -> nat {
        self.shards@.len()
    }

    /// The configured connection strategy; behaviorally inert.
    pub closed spec fn strategy_spec(&self) -> ConnectionStrategy {
        self.strategy
    }

    /// The shard stores.
    closed spec fn shards_spec(&self) -> Seq<Memblob> {
        self.shards@
    }

    /// A fresh backend with `shard_count` empty shards; a count of zero is
    /// rejected at construction.
    pub fn new(shard_count: u64, strategy: ConnectionStrategy) -> (r: Result<
        ShardedBlob,
        ShardConfigError,
    >)
        ensures
            shard_count == 0 <==> r is Err,
            match r {
                Ok(s) => {
                    &&& s.wf()
                    &&& s.shard_count() == shard_count
                    &&& s.strategy_spec() == strategy
                    &&& s.view() == Map::<Seq<u8>, Seq<u8>>::empty()
                    &&& !s.faulty()
                    &&& forall|t: u64, k: Seq<u8>| !s.put_blocked(t, k)
                },
                Err(_) => true,
            },
    {
        if shard_count == 0 {
            return Err(ShardConfigError);
        }
        let mut shards: Vec<Memblob> = Vec::new();
        let mut i: u64 = 0;
        while i < shard_count
            invariant
                i <= shard_count,
                shards@.len() == i,
                forall|j: int|
                    0 <= j < i ==> (#[trigger] shards@[j]).wf() && shards@[j].view()
                        == Map::<Seq<u8>, Seq<u8>>::empty() && !shards@[j].faulty(),
                forall|j: int, t: u64, k: Seq<u8>|
                    0 <= j < i ==> !(#[trigger] shards@[j].put_blocked(t, k)),
            decreases shard_count - i,
        {
            shards.push(Memblob::new());
            i += 1;
        }
        let s = ShardedBlob { shards, strategy };
        proof {
            assert(s.view() =~= Map::<Seq<u8>, Seq<u8>>::empty());
        }
        Ok(s)
    }

    /// The shard a key routes to, for observation.
    pub fn shard_of_key(&self, key: &Vec<u8>) -> (r: u64)
        requires
            self.wf(),
        ensures
            r == shard_of(key@, self.shard_count()),
    {
        route(key, self.shards.len() as u64)
    }
}

/// Mutable access to one shard.
fn shard_at_mut(shards: &mut Vec<Memblob>, i: usize) -> (r: &mut Memblob)
    requires
        i < old(shards)@.len(),
    ensures
        *r == old(shards)@[i as int],
        final(shards)@ == old(shards)@.update(i as int, *final(r)),
{
    &mut shards[i]
}

impl Blobstore for ShardedBlob {
    closed spec fn view(&self) -> BlobMap {
        Map::new(
            |k: Seq<u8>|
                self.shards@[shard_of(k, self.shards@.len()) as int].view().contains_key(k),
            |k: Seq<u8>| self.shards@[shard_of(k, self.shards@.len()) as int].view()[k],
        )
    }

    closed spec fn wf(&self) -> bool {
        &&& self.shards@.len() >= 1
        &&& forall|j: int| 0 <= j < self.shards@.len() ==> (#[trigger] self.shards@[j]).wf()
        &&& forall|j: int, k: Seq<u8>|
            0 <= j < self.shards@.len() && (#[trigger] self.shards@[j].view().contains_key(k))
                ==> shard_of(k, self.shards@.len()) == j
        &&& forall|j: int, t: u64, k: Seq<u8>|
            0 <= j < self.shards@.len() ==> !(#[trigger] self.shards@[j].put_blocked(t, k))
    }

    closed spec fn faulty(&self) -> bool {
        exists|j: int| 0 <= j < self.shards@.len() && (#[trigger] self.shards@[j]).faulty()
    }

    closed spec fn put_blocked(&self, now_us: u64, key: Seq<u8>) -> bool {
        false
    }

    /// Route to the owning shard and write there.
    fn put(
        &mut self,
        ctx: &CoreContext,
        key: &Vec<u8>,
        value: Vec<u8>,
        behaviour: PutBehaviour,
    ) -> (r: Result<PutStatus, StorageError>) {
        let ghost pre = *self;
        let count = self.shards.len() as u64;
        let i = route(key, count);
        let shard = shard_at_mut(&mut self.shards, i as usize);
        let result = shard.put(ctx, key, value, behaviour);
        proof {
            let n = self.shards@.len();
            assert(n == pre.shards@.len());
            assert(forall|j: int|
                0 <= j < n && j != i ==> self.shards@[j] == pre.shards@[j]);
            assert(shard_of(key@, n) == i);
            match result {
                Ok(_) => {
                    assert(self.shards@[i as int].view() == pre.shards@[i as int].view().insert(
                        key@,
                        value@,
                    ));
                    assert forall|k: Seq<u8>|
                        self.view().contains_key(k) == pre.view().insert(
                            key@,
                            value@,
                        ).contains_key(k) && (self.view().contains_key(k) ==> self.view()[k]
                            == pre.view().insert(key@, value@)[k]) by {
                        let sk = shard_of(k, n) as int;
                        if sk != i {
                            assert(self.shards@[sk] == pre.shards@[sk]);
                        }
                    }
                    assert(self.view() =~= pre.view().insert(key@, value@));
                    assert forall|j: int, k: Seq<u8>|
                        0 <= j < n && (#[trigger] self.shards@[j].view().contains_key(k)) implies
                        shard_of(k, n) == j by {
                        if j == i as int {
                            if k != key@ {
                                assert(pre.shards@[j].view().contains_key(k));
                            }
                        } else {
                            assert(self.shards@[j] == pre.shards@[j]);
                            assert(pre.shards@[j].view().contains_key(k));
                        }
                    }
                },
                Err(_) => {
                    assert(self.shards@[i as int].view() == pre.shards@[i as int].view());
                    assert forall|k: Seq<u8>|
                        self.view().contains_key(k) == pre.view().contains_key(k) && (
                        self.view().contains_key(k) ==> self.view()[k] == pre.view()[k]) by {
                        let sk = shard_of(k, n) as int;
                        if sk != i {
                            assert(self.shards@[sk] == pre.shards@[sk]);
                        }
                    }
                    assert(self.view() =~= pre.view());
                    assert forall|j: int, k: Seq<u8>|
                        0 <= j < n && (#[trigger] self.shards@[j].view().contains_key(k)) implies
                        shard_of(k, n) == j by {
                        if j != i as int {
                            assert(self.shards@[j] == pre.shards@[j]);
                        }
                        assert(pre.shards@[j].view().contains_key(k));
                    }
                },
            }
            if !pre.faulty() {
                assert(!pre.shards@[i as int].faulty());
                assert forall|j: int| 0 <= j < n implies !(#[trigger] self.shards@[j]).faulty() by {
                    if j != i {
                        assert(!pre.shards@[j].faulty());
                    }
                }
            }
            if result == Err::<PutStatus, StorageError>(StorageError::IoFailure) {
                assert(pre.shards@[i as int].faulty());
            }
            assert forall|j: int, t: u64, k: Seq<u8>|
                0 <= j < n implies !(#[trigger] self.shards@[j].put_blocked(t, k)) by {
                if j != i {
                    assert(self.shards@[j] == pre.shards@[j]);
                }
                assert(!pre.shards@[j].put_blocked(t, k));
            }

        }
        result
    }

    /// Route to the owning shard and read there.
    fn get(&mut self, ctx: &CoreContext, key: &Vec<u8>) -> (r: Result<
        Option<Vec<u8>>,
        StorageError,
    >) {
        let ghost pre = *self;
        let count = self.shards.len() as u64;
        let i = route(key, count);
        let shard = shard_at_mut(&mut self.shards, i as usize);
        let result = shard.get(ctx, key);
        proof {
            let n = self.shards@.len();
            assert(forall|j: int|
                0 <= j < n && j != i ==> self.shards@[j] == pre.shards@[j]);
            assert(self.shards@[i as int].view() == pre.shards@[i as int].view());
            assert(self.view() =~= pre.view());
            if !pre.faulty() {
                assert forall|j: int| 0 <= j < n implies !(#[trigger] self.shards@[j]).faulty() by {
                    if j != i {
                        assert(!pre.shards@[j].faulty());
                    } else {
                        assert(!pre.shards@[i as int].faulty());
                    }
                }
            }
            assert forall|j: int, t: u64, k: Seq<u8>|
                0 <= j < n implies !(#[trigger] self.shards@[j].put_blocked(t, k)) by {
                if j != i {
                    assert(self.shards@[j] == pre.shards@[j]);
                }
                assert(!pre.shards@[j].put_blocked(t, k));
            }

        }
        result
    }

    /// Route to the owning shard and check there.
    fn is_present(&mut self, ctx: &CoreContext, key: &Vec<u8>) -> (r: Result<
        Presence,
        StorageError,
    >) {
        let ghost pre = *self;
        let count = self.shards.len() as u64;
        let i = route(key, count);
        let shard = shard_at_mut(&mut self.shards, i as usize);
        let result = shard.is_present(ctx, key);
        proof {
            let n = self.shards@.len();
            assert(forall|j: int|
                0 <= j < n && j != i ==> self.shards@[j] == pre.shards@[j]);
            assert(self.shards@[i as int].view() == pre.shards@[i as int].view());
            assert(self.view() =~= pre.view());
            if !pre.faulty() {
                assert forall|j: int| 0 <= j < n implies !(#[trigger] self.shards@[j]).faulty() by {
                    if j != i {
                        assert(!pre.shards@[j].faulty());
                    } else {
                        assert(!pre.shards@[i as int].faulty());
                    }
                }
            }
            assert forall|j: int, t: u64, k: Seq<u8>|
                0 <= j < n implies !(#[trigger] self.shards@[j].put_blocked(t, k)) by {
                if j != i {
                    assert(self.shards@[j] == pre.shards@[j]);
                }
                assert(!pre.shards@[j].put_blocked(t, k));
            }

        }
        result
    }
}

} // verus!
