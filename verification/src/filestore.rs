//! The chunked content store: splits large inputs into content-addressed
//! chunks, stores the chunks and a metadata record through any blobstore, and
//! reconstructs the bytes on fetch through a lazy, forward-only chunk reader.
//!
//! The durability invariant: the metadata record is written last, only after
//! every chunk it references was written; a store that fails leaves at worst
//! orphaned chunks and alias records, never a metadata record pointing at a
//! missing chunk.

use vstd::prelude::*;

use crate::blobstore::BlobMap;
use crate::blobstore::Blobstore;
use crate::chunk::chunks_of;
use crate::chunk::concat_all;
use crate::chunk::lemma_chunks_concat;
use crate::chunk::lemma_chunks_count;
use crate::chunk::split_chunks;
use crate::digest::alias_key;
use crate::digest::alias_of;
use crate::digest::chunk_key;
use crate::digest::lemma_chunk_key_injective;
use crate::digest::make_alias_key;
use crate::digest::make_chunk_key;
use crate::digest::make_meta_key;
use crate::digest::meta_key;
use crate::digest::sha1_of;
use crate::digest::Alias;
use crate::digest::ContentId;
use crate::digest::FetchKey;
use crate::digest::DIGEST_LEN;
use crate::metadata::decode_meta;
use crate::metadata::encode_meta;
use crate::metadata::lemma_meta_round_trip;
use crate::metadata::ChunkId;
use crate::metadata::ContentMetadata;
use crate::metadata::MetaAbs;
use crate::types::CoreContext;
use crate::types::PutBehaviour;
use crate::types::StorageError;
use crate::util::bytes_eq;

verus! {

/// Configuration of the chunked store: the chunk size (absent means the
/// content is stored as a single chunk whatever its length) and the greatest
/// number of chunk uploads in flight at once.
pub struct FilestoreConfig {
    pub chunk_size: Option<u64>,
    pub concurrency: usize,
}

impl FilestoreConfig {
    /// A configured chunk size of zero is a fatal configuration error.
    pub open spec fn wf(&self) -> bool {
        &&& match self.chunk_size {
            Some(c) => c >= 1,
            None => true,
        }
        &&& self.concurrency >= 1
    }
}

/// What a caller declares about the stream it hands to `store`: the total
/// length, and optionally the content id it expects.
pub struct StoreRequest {
    pub total_size: u64,
    pub expected_id: Option<ContentId>,
}

impl StoreRequest {
    /// A request with no expected content id.
    pub fn new(total_size: u64) -> (r: StoreRequest)
        ensures
            r.total_size == total_size,
            r.expected_id is None,
    {
        StoreRequest { total_size, expected_id: None }
    }
}

/// Why a store failed.
#[derive(Clone, Copy, Debug, PartialEq, Eq, Structural)]
pub enum StoreError {
    /// A chunk, alias or metadata write failed in transport or storage.
    IoFailure,
    /// The declared length or expected content id does not match the bytes.
    CorruptInput,
    /// A conflicting record exists under an `IfAbsent*` policy.
    AlreadyPresent,
    /// Write-lease coordination failed to resolve in time.
    LeaseTimeout,
}

/// Why a fetch failed.
#[derive(Clone, Copy, Debug, PartialEq, Eq, Structural)]
pub enum FetchError {
    /// A read failed in transport or storage.
    IoFailure,
    /// A chunk referenced by the metadata record is missing.
    NotFound,
    /// A metadata or alias record exists but does not parse, or names a
    /// different content than it was looked up under.
    CorruptRecord,
}

/// The bytes meet what the request declared.
pub open spec fn request_matches(req: StoreRequest, data: Seq<u8>) -> bool {
    &&& req.total_size == data.len()
    &&& match req.expected_id {
        Some(e) => e@ == sha1_of(data),
        None => true,
    }
}

/// The chunks `store` writes for `data` under `config`.
pub open spec fn store_chunks(data: Seq<u8>, config: FilestoreConfig) -> Seq<Seq<u8>> {
    match config.chunk_size {
        None => seq![data],
        Some(c) => chunks_of(data, c as nat),
    }
}

/// `pre` with the first `n` chunk records of content `id` inserted, in
/// ascending index order.
pub open spec fn insert_chunks(pre: BlobMap, id: Seq<u8>, cks: Seq<Seq<u8>>, n: int) -> BlobMap
    decreases n,
{
    if n <= 0 {
        pre
    } else {
        insert_chunks(pre, id, cks, n - 1).insert(chunk_key(id, (n - 1) as u64), cks[n - 1])
    }
}

/// The full record set a successful store of `data` leaves behind: the chunk
/// records, then the alias lookup record, then the metadata record, each
/// layered over `pre`.
pub open spec fn with_content_records(pre: BlobMap, data: Seq<u8>, config: FilestoreConfig) -> BlobMap {
    let id = sha1_of(data);
    let cks = store_chunks(data, config);
    insert_chunks(pre, id, cks, cks.len() as int).insert(alias_key(alias_of(data)), id).insert(
        meta_key(id),
        crate::metadata::spec_encode_meta(
            id,
            data.len() as u64,
            cks.len() as u64,
            seq![alias_of(data)],
        ),
    )
}

/// The decoded metadata record of content `id` in `view`, if any.
pub open spec fn stored_meta(view: BlobMap, id: Seq<u8>) -> Option<MetaAbs> {
    if view.contains_key(meta_key(id)) {
        decode_meta(view[meta_key(id)])
    } else {
        Option::None
    }
}

/// Every chunk record the metadata references is readable.
pub open spec fn chunks_present(view: BlobMap, id: Seq<u8>, n: u64) -> bool {
    forall|i: u64| i < n ==> view.contains_key(#[trigger] chunk_key(id, i))
}

/// The first `n` stored chunks of content `id`, concatenated.
pub open spec fn concat_stored_chunks(view: BlobMap, id: Seq<u8>, n: int) -> Seq<u8>
    decreases n,
{
    if n <= 0 {
        Seq::empty()
    } else {
        concat_stored_chunks(view, id, n - 1) + view[chunk_key(id, (n - 1) as u64)]
    }
}

/// The full content stored under `id` in `view`: the concatenation of the
/// chunks its metadata record references, provided the record is readable,
/// names `id`, and every chunk is readable.
pub open spec fn stored_content(view: BlobMap, id: Seq<u8>) -> Option<Seq<u8>> {
    match stored_meta(view, id) {
        Option::Some(m) => {
            if m.id == id && chunks_present(view, id, m.num_chunks) {
                Option::Some(concat_stored_chunks(view, id, m.num_chunks as int))
            } else {
                Option::None
            }
        },
        Option::None => Option::None,
    }
}

/// What a failed store may leave behind: every prior record intact, plus at
/// worst orphaned chunk records of this content and its alias record — never
/// this content's metadata record, unless it was already there unchanged.
pub open spec fn store_residue(pre: BlobMap, post: BlobMap, data: Seq<u8>, config: FilestoreConfig) -> bool {
    let id = sha1_of(data);
    let cks = store_chunks(data, config);
    &&& forall|k: Seq<u8>| pre.contains_key(k) ==> post.contains_key(k)
    &&& forall|k: Seq<u8>|
        #[trigger] post.contains_key(k) ==> (pre.contains_key(k) && post[k] == pre[k]) || (exists|
            i: u64,
        |
            i < cks.len() && k == chunk_key(id, i) && post[k] == cks[i as int]) || (k == alias_key(
            alias_of(data),
        ) && post[k] == id)
    &&& (post.contains_key(meta_key(id)) ==> pre.contains_key(meta_key(id)) && post[meta_key(id)]
        == pre[meta_key(id)])
}

/// Whether `pre` already holds a record of this content under a different
/// value, which an `IfAbsent*` store must refuse to replace. Only a foreign
/// write can produce such a record: a store of the same content writes
/// identical bytes.
pub open spec fn store_conflicts(pre: BlobMap, data: Seq<u8>, config: FilestoreConfig) -> bool {
    let id = sha1_of(data);
    let cks = store_chunks(data, config);
    let enc = crate::metadata::spec_encode_meta(
        id,
        data.len() as u64,
        cks.len() as u64,
        seq![alias_of(data)],
    );
    ||| exists|i: u64|
        i < cks.len() && pre.contains_key(#[trigger] chunk_key(id, i)) && pre[chunk_key(id, i)]
            != cks[i as int]
    ||| (pre.contains_key(alias_key(alias_of(data))) && pre[alias_key(alias_of(data))] != id)
    ||| (pre.contains_key(meta_key(id)) && pre[meta_key(id)] != enc)
}

/// Chunk records do not stand at metadata or alias keys, so inserting the
/// first `n` chunk records leaves every other key as it was.
pub proof fn lemma_insert_chunks_frame(
    pre: BlobMap,
    id: Seq<u8>,
    cks: Seq<Seq<u8>>,
    n: int,
    k: Seq<u8>,
)
    requires
        forall|i: u64| i < n ==> k != chunk_key(id, i),
        n <= u64::MAX + 1,
    ensures
        insert_chunks(pre, id, cks, n).contains_key(k) == pre.contains_key(k),
        pre.contains_key(k) ==> insert_chunks(pre, id, cks, n)[k] == pre[k],
    decreases n,
{
    if n > 0 {
        assert(k != chunk_key(id, (n - 1) as u64));
        lemma_insert_chunks_frame(pre, id, cks, n - 1, k);
    }
}

/// After inserting the first `n` chunk records, chunk `i` is readable and
/// holds its bytes.
pub proof fn lemma_insert_chunks_lookup(
    pre: BlobMap,
    id: Seq<u8>,
    cks: Seq<Seq<u8>>,
    n: int,
    i: u64,
)
    requires
        id.len() == DIGEST_LEN,
        i < n,
        n <= u64::MAX + 1,
    ensures
        insert_chunks(pre, id, cks, n).contains_key(chunk_key(id, i)),
        insert_chunks(pre, id, cks, n)[chunk_key(id, i)] == cks[i as int],
    decreases n,
{
    if i == n - 1 {
    } else {
        lemma_insert_chunks_lookup(pre, id, cks, n - 1, i);
        if chunk_key(id, i) == chunk_key(id, (n - 1) as u64) {
            lemma_chunk_key_injective(id, i, id, (n - 1) as u64);
        }
    }
}

/// Every key of the chunk-inserted map is either an old key with its old
/// value or one of the inserted chunk records.
pub proof fn lemma_insert_chunks_span(pre: BlobMap, id: Seq<u8>, cks: Seq<Seq<u8>>, n: int)
    requires
        n <= u64::MAX + 1,
        n <= cks.len(),
    ensures
        forall|k: Seq<u8>| pre.contains_key(k) ==> insert_chunks(pre, id, cks, n).contains_key(k),
        forall|k: Seq<u8>|
            #[trigger] insert_chunks(pre, id, cks, n).contains_key(k) ==> (pre.contains_key(k)
                && insert_chunks(pre, id, cks, n)[k] == pre[k]) || (exists|i: u64|
                i < cks.len() && k == chunk_key(id, i) && insert_chunks(pre, id, cks, n)[k]
                    == cks[i as int]),
    decreases n,
{
    if n > 0 {
        lemma_insert_chunks_span(pre, id, cks, n - 1);
        let prev = insert_chunks(pre, id, cks, n - 1);
        let cur = insert_chunks(pre, id, cks, n);
        assert forall|k: Seq<u8>| #[trigger] cur.contains_key(k) implies (pre.contains_key(k)
            && cur[k] == pre[k]) || (exists|i: u64|
            i < cks.len() && k == chunk_key(id, i) && cur[k] == cks[i as int]) by {
            if k == chunk_key(id, (n - 1) as u64) {
                assert(((n - 1) as u64) < cks.len() && k == chunk_key(id, (n - 1) as u64) && cur[k]
                    == cks[n - 1]);
            } else {
                assert(prev.contains_key(k));
            }
        }
    }
}

/// Concatenating one more chunk extends the concatenation by that chunk.
pub proof fn lemma_concat_all_push(ss: Seq<Seq<u8>>, x: Seq<u8>)
    ensures
        concat_all(ss.push(x)) == concat_all(ss) + x,
    decreases ss.len(),
{
    if ss.len() == 0 {
        assert(ss.push(x).first() == x);
        assert(ss.push(x).drop_first() =~= Seq::<Seq<u8>>::empty());
        assert(concat_all(Seq::<Seq<u8>>::empty()) =~= Seq::<u8>::empty());
        assert(concat_all(ss.push(x)) == x + Seq::<u8>::empty());
        assert(x + Seq::<u8>::empty() =~= x);
        assert(concat_all(ss) + x =~= x);
    } else {
        lemma_concat_all_push(ss.drop_first(), x);
        assert(ss.push(x).drop_first() =~= ss.drop_first().push(x));
        assert(ss.push(x).first() == ss.first());
        assert(concat_all(ss.push(x)) == ss.first() + (concat_all(ss.drop_first()) + x));
        assert(ss.first() + (concat_all(ss.drop_first()) + x) =~= (ss.first() + concat_all(
            ss.drop_first(),
        )) + x);
    }
}

/// In a view that holds chunk records `cks` of content `id`, the stored
/// concatenation of the first `n` chunks is the concatenation of `cks` up to
/// `n`.
pub proof fn lemma_concat_stored_chunks(view: BlobMap, id: Seq<u8>, cks: Seq<Seq<u8>>, n: int)
    requires
        0 <= n <= cks.len(),
        forall|i: u64| i < cks.len() ==> view.contains_key(#[trigger] chunk_key(id, i))
            && view[chunk_key(id, i)] == cks[i as int],
        cks.len() <= u64::MAX,
    ensures
        concat_stored_chunks(view, id, n) == concat_all(cks.take(n)),
    decreases n,
{
    if n == 0 {
        assert(cks.take(0) =~= Seq::<Seq<u8>>::empty());
    } else {
        lemma_concat_stored_chunks(view, id, cks, n - 1);
        assert(view[chunk_key(id, (n - 1) as u64)] == cks[n - 1]);
        assert(cks.take(n) =~= cks.take(n - 1).push(cks[n - 1]));
        lemma_concat_all_push(cks.take(n - 1), cks[n - 1]);
    }
}

/// Round trip: the records a successful store of `data` leaves behind
/// reproduce `data` exactly, whatever the store held before. Stated for
/// digests of the expected width, which the digest wrappers guarantee at
/// every call site.
pub proof fn lemma_store_round_trip(pre: BlobMap, data: Seq<u8>, config: FilestoreConfig)
    requires
        config.wf(),
        data.len() <= u64::MAX,
        sha1_of(data).len() == DIGEST_LEN,
        alias_of(data).len() == DIGEST_LEN,
    ensures
        stored_content(with_content_records(pre, data, config), sha1_of(data)) == Option::Some(
            data,
        ),
        with_content_records(pre, data, config).contains_key(alias_key(alias_of(data))),
        with_content_records(pre, data, config)[alias_key(alias_of(data))] == sha1_of(data),
{
    let id = sha1_of(data);
    let cks = store_chunks(data, config);
    let n = cks.len() as int;
    assert(cks.len() >= 1 && concat_all(cks) == data) by {
        match config.chunk_size {
            Some(c) => {
                lemma_chunks_count(data, c as nat);
                lemma_chunks_concat(data, c as nat);
            },
            None => {
                assert(cks == seq![data]);
                assert(cks.first() == data);
                assert(cks.drop_first() =~= Seq::<Seq<u8>>::empty());
                assert(concat_all(Seq::<Seq<u8>>::empty()) =~= Seq::<u8>::empty());
                assert(concat_all(cks) == data + Seq::<u8>::empty());
                assert(data + Seq::<u8>::empty() =~= data);
            },
        }
    }
    assert(cks.len() <= u64::MAX) by {
        match config.chunk_size {
            Some(c) => {
                lemma_chunks_count(data, c as nat);
                assert(((data.len() + c - 1) as int) / (c as int) <= data.len()) by (nonlinear_arith)
                    requires
                        c >= 1,
                        data.len() >= 0,
                ;
            },
            None => {},
        }
    }
    let v1 = insert_chunks(pre, id, cks, n);
    let v2 = v1.insert(alias_key(alias_of(data)), id);
    let enc = crate::metadata::spec_encode_meta(id, data.len() as u64, cks.len() as u64, seq![alias_of(data)]);
    let v3 = v2.insert(meta_key(id), enc);
    assert(v3 == with_content_records(pre, data, config));
    // The metadata record decodes to what was encoded.
    lemma_meta_round_trip(id, data.len() as u64, cks.len() as u64, seq![alias_of(data)]);
    crate::digest::lemma_key_spaces_disjoint(id, 0, id, alias_of(data));
    assert(stored_meta(v3, id) == Option::Some(
        MetaAbs {
            id,
            total_size: data.len() as u64,
            num_chunks: cks.len() as u64,
            aliases: seq![alias_of(data)],
        },
    ));
    // Every chunk is readable with its bytes.
    assert forall|i: u64| i < cks.len() implies v3.contains_key(#[trigger] chunk_key(id, i))
        && v3[chunk_key(id, i)] == cks[i as int] by {
        lemma_insert_chunks_lookup(pre, id, cks, n, i);
        crate::digest::lemma_key_spaces_disjoint(id, i, id, alias_of(data));
    }
    // The stored chunks concatenate back to the content.
    lemma_concat_stored_chunks(v3, id, cks, n);
    assert(cks.take(n) =~= cks);
    // The alias record resolves to the content id.
    crate::digest::lemma_key_spaces_disjoint(id, 0, id, alias_of(data));
}

/// Durability ordering: after a failed store of fresh content, the content is
/// not readable — its metadata record, which is only ever written after every
/// chunk, was never written at all.
pub proof fn lemma_store_durability(
    pre: BlobMap,
    post: BlobMap,
    data: Seq<u8>,
    config: FilestoreConfig,
)
    requires
        store_residue(pre, post, data, config),
        !pre.contains_key(meta_key(sha1_of(data))),
    ensures
        !post.contains_key(meta_key(sha1_of(data))),
        stored_content(post, sha1_of(data)) is None,
{
}

/// The chunk count of a store never exceeds the content length plus one.
pub proof fn lemma_store_chunks_bound(data: Seq<u8>, config: FilestoreConfig)
    requires
        config.wf(),
        data.len() <= u64::MAX,
    ensures
        1 <= store_chunks(data, config).len() <= u64::MAX,
{
    match config.chunk_size {
        Some(c) => {
            lemma_chunks_count(data, c as nat);
            assert(((data.len() + c - 1) as int) / (c as int) <= data.len()) by (nonlinear_arith)
                requires
                    c >= 1,
                    data.len() >= 0,
            ;
        },
        None => {},
    }
}

/// Re-storing identical content rewrites the identical records: the record
/// set after storing twice is the record set after storing once. Stated for
/// digests of the expected width, which the digest wrappers guarantee at
/// every call site.
pub proof fn lemma_store_idempotent(pre: BlobMap, data: Seq<u8>, config: FilestoreConfig)
    requires
        config.wf(),
        data.len() <= u64::MAX,
        sha1_of(data).len() == DIGEST_LEN,
    ensures
        with_content_records(with_content_records(pre, data, config), data, config)
            == with_content_records(pre, data, config),
{
    let id = sha1_of(data);
    let cks = store_chunks(data, config);
    let n = cks.len() as int;
    lemma_store_chunks_bound(data, config);
    let once = with_content_records(pre, data, config);
    let twice = with_content_records(once, data, config);
    let ak = alias_key(alias_of(data));
    let mk = meta_key(id);
    assert forall|k: Seq<u8>| #[trigger] twice.contains_key(k) implies once.contains_key(k)
        && twice[k] == once[k] by {
        if k != mk && k != ak {
            if exists|i: u64| i < cks.len() && k == chunk_key(id, i) {
                let i = choose|i: u64| i < cks.len() && k == chunk_key(id, i);
                lemma_insert_chunks_lookup(once, id, cks, n, i);
                lemma_insert_chunks_lookup(pre, id, cks, n, i);
            } else {
                assert(forall|i: u64| i < n ==> k != chunk_key(id, i)) by {
                    assert forall|i: u64| i < n implies k != chunk_key(id, i) by {
                        assert(i < cks.len());
                    }
                }
                lemma_insert_chunks_frame(once, id, cks, n, k);
                lemma_insert_chunks_frame(pre, id, cks, n, k);
            }
        }
    }
    assert forall|k: Seq<u8>| #[trigger] once.contains_key(k) implies twice.contains_key(k) by {
        if k != mk && k != ak {
            if exists|i: u64| i < cks.len() && k == chunk_key(id, i) {
                let i = choose|i: u64| i < cks.len() && k == chunk_key(id, i);
                lemma_insert_chunks_lookup(once, id, cks, n, i);
            } else {
                assert(forall|i: u64| i < n ==> k != chunk_key(id, i)) by {
                    assert forall|i: u64| i < n implies k != chunk_key(id, i) by {
                        assert(i < cks.len());
                    }
                }
                lemma_insert_chunks_frame(once, id, cks, n, k);
            }
        }
    }
    assert(twice =~= once);
}

/// Store `data` through `blob`: split it into chunks, write every chunk, then
/// the alias lookup record, then — last — the metadata record. Validates the
/// declared length and expected content id before writing anything; a failed
/// write leaves at worst orphaned chunk and alias records, never the
/// metadata record.
///
/// Chunk writes are issued in sequence order, within any configured
/// concurrency bound; each chunk's id is its position, so the mapping from
/// index to chunk never depends on completion order.
pub fn store<B: Blobstore>(
    blob: &mut B,
    config: FilestoreConfig,
    ctx: &CoreContext,
    req: &StoreRequest,
    data: Vec<u8>,
    behaviour: PutBehaviour,
) -> (r: Result<ContentMetadata, StoreError>)
    requires
        old(blob).wf(),
        config.wf(),
    ensures
        final(blob).wf(),
        !old(blob).faulty() ==> !final(blob).faulty(),
        forall|k: Seq<u8>, t: u64|
            !old(blob).put_blocked(t, k) ==> !(#[trigger] final(blob).put_blocked(t, k)),
        !request_matches(*req, data@) ==> r == Err::<ContentMetadata, StoreError>(
            StoreError::CorruptInput,
        ) && final(blob).view() == old(blob).view(),
        match r {
            Ok(m) => {
                &&& request_matches(*req, data@)
                &&& m.wf()
                &&& m.content_id@ == sha1_of(data@)
                &&& m.total_size == data@.len()
                &&& m.chunks@.len() == store_chunks(data@, config).len()
                &&& m.aliases@.len() == 1 && m.aliases@[0]@ == alias_of(data@)
                &&& final(blob).view() == with_content_records(old(blob).view(), data@, config)
                &&& stored_content(final(blob).view(), sha1_of(data@)) == Option::Some(data@)
            },
            Err(e) => {
                &&& store_residue(old(blob).view(), final(blob).view(), data@, config)
                &&& (e is CorruptInput <==> !request_matches(*req, data@))
                &&& (e is IoFailure ==> old(blob).faulty())
                &&& (e is LeaseTimeout ==> exists|k: Seq<u8>|
                    #[trigger] old(blob).put_blocked(ctx.now_us, k))
                &&& (e is AlreadyPresent ==> !behaviour.spec_overwrites() && store_conflicts(
                    old(blob).view(),
                    data@,
                    config,
                ))
            },
        },
        (request_matches(*req, data@) && !old(blob).faulty() && (behaviour.spec_overwrites()
            || !store_conflicts(old(blob).view(), data@, config)) && (forall|k: Seq<u8>|
            !old(blob).put_blocked(ctx.now_us, k))) ==> r is Ok,
{
    let ghost pre = old(blob).view();
    let ghost gdata = data@;
    let id = ContentId::from_data(&data);
    let alias = Alias::from_data(&data);
    let total_size = data.len() as u64;
    if total_size != req.total_size {
        return Err(StoreError::CorruptInput);
    }
    match &req.expected_id {
        Some(expected) => {
            if !bytes_eq(expected.digest_bytes().as_slice(), id.digest_bytes().as_slice()) {
                return Err(StoreError::CorruptInput);
            }
        },
        None => {},
    }
    assert(request_matches(*req, gdata));
    let ghost gid = sha1_of(gdata);
    let ghost gcks = store_chunks(gdata, config);
    proof {
        lemma_store_chunks_bound(gdata, config);
    }
    let chunks: Vec<Vec<u8>> = match config.chunk_size {
        Some(cs) => split_chunks(&data, cs),
        None => {
            let mut v: Vec<Vec<u8>> = Vec::new();
            v.push(data);
            v
        },
    };
    proof {
        assert(chunks@.len() == gcks.len() && forall|j: int|
            0 <= j < chunks@.len() ==> (#[trigger] chunks@[j])@ == gcks[j]) by {
            if config.chunk_size is None {
                assert(gcks == seq![gdata]);
                assert(chunks@[0]@ == gdata);
            }
        }
        assert(blob.view() == insert_chunks(pre, gid, gcks, 0));
    }
    let n = chunks.len();
    let mut i: usize = 0;
    while i < n
        invariant
            blob.wf(),
            config.wf(),
            pre == old(blob).view(),
            gdata == data@,
            request_matches(*req, data@),
            total_size == gdata.len(),
            id.wf() && id@ == gid,
            alias.wf() && alias@ == alias_of(gdata),
            gid == sha1_of(gdata),
            gcks == store_chunks(gdata, config),
            n == chunks@.len() && chunks@.len() == gcks.len(),
            1 <= gcks.len() <= u64::MAX,
            forall|j: int| 0 <= j < chunks@.len() ==> (#[trigger] chunks@[j])@ == gcks[j],
            i <= n,
            blob.view() == insert_chunks(pre, gid, gcks, i as int),
            !old(blob).faulty() ==> !blob.faulty(),
            forall|k: Seq<u8>, t: u64|
                !old(blob).put_blocked(t, k) ==> !(#[trigger] blob.put_blocked(t, k)),
        decreases n - i,
    {
        let key = make_chunk_key(&id, i as u64);
        let chunk = chunks[i].clone();
        match blob.put(ctx, &key, chunk, behaviour) {
            Ok(_) => {
                proof {
                    assert(blob.view() == insert_chunks(pre, gid, gcks, i + 1));
                }
                i += 1;
            },
            Err(e) => {
                proof {
                    lemma_insert_chunks_span(pre, gid, gcks, i as int);
                    assert forall|j: u64| j < i implies meta_key(gid) != chunk_key(gid, j) by {
                        crate::digest::lemma_key_spaces_disjoint(gid, j, gid, alias_of(gdata));
                    }
                    lemma_insert_chunks_frame(pre, gid, gcks, i as int, meta_key(gid));
                    assert(store_residue(pre, blob.view(), gdata, config));
                    if e is AlreadyPresent {
                        assert forall|j: u64| j < i implies key@ != chunk_key(gid, j) by {
                            if key@ == chunk_key(gid, j) {
                                lemma_chunk_key_injective(gid, i as u64, gid, j);
                            }
                        }
                        lemma_insert_chunks_frame(pre, gid, gcks, i as int, key@);
                        assert(store_conflicts(pre, gdata, config)) by {
                            assert(pre.contains_key(chunk_key(gid, i as u64)) && pre[chunk_key(
                                gid,
                                i as u64,
                            )] != gcks[i as int]);
                        }
                    }
                }
                return Err(
                    match e {
                        StorageError::IoFailure => StoreError::IoFailure,
                        StorageError::AlreadyPresent => StoreError::AlreadyPresent,
                        StorageError::LeaseTimeout => StoreError::LeaseTimeout,
                    },
                );
            },
        }
    }
    let akey = make_alias_key(&alias);
    let id_record = id.digest_bytes().clone();
    match blob.put(ctx, &akey, id_record, behaviour) {
        Ok(_) => {},
        Err(e) => {
            proof {
                lemma_insert_chunks_span(pre, gid, gcks, n as int);
                assert forall|j: u64| j < n implies meta_key(gid) != chunk_key(gid, j) by {
                    crate::digest::lemma_key_spaces_disjoint(gid, j, gid, alias_of(gdata));
                }
                lemma_insert_chunks_frame(pre, gid, gcks, n as int, meta_key(gid));
                assert(store_residue(pre, blob.view(), gdata, config));
                if e is AlreadyPresent {
                    assert forall|j: u64| j < n implies alias_key(alias_of(gdata)) != chunk_key(
                        gid,
                        j,
                    ) by {
                        crate::digest::lemma_key_spaces_disjoint(gid, j, gid, alias_of(gdata));
                    }
                    lemma_insert_chunks_frame(pre, gid, gcks, n as int, alias_key(alias_of(gdata)));
                    assert(store_conflicts(pre, gdata, config));
                }
            }
            return Err(
                match e {
                    StorageError::IoFailure => StoreError::IoFailure,
                    StorageError::AlreadyPresent => StoreError::AlreadyPresent,
                    StorageError::LeaseTimeout => StoreError::LeaseTimeout,
                },
            );
        },
    }
    let mut chunk_ids: Vec<ChunkId> = Vec::new();
    let mut j: usize = 0;
    while j < n
        invariant
            blob.wf(),
            config.wf(),
            pre == old(blob).view(),
            gdata == data@,
            request_matches(*req, data@),
            total_size == gdata.len(),
            alias.wf() && alias@ == alias_of(gdata),
            gid == sha1_of(gdata),
            gcks == store_chunks(gdata, config),
            n == gcks.len(),
            1 <= gcks.len() <= u64::MAX,
            blob.view() == insert_chunks(pre, gid, gcks, n as int).insert(
                alias_key(alias_of(gdata)),
                gid,
            ),
            !old(blob).faulty() ==> !blob.faulty(),
            forall|k: Seq<u8>, t: u64|
                !old(blob).put_blocked(t, k) ==> !(#[trigger] blob.put_blocked(t, k)),
            j <= n,
            id.wf() && id@ == gid,
            chunk_ids@.len() == j,
            forall|t: int|
                0 <= t < j ==> (#[trigger] chunk_ids@[t]).content@ == gid && chunk_ids@[t].index
                    == t && chunk_ids@[t].wf(),
        decreases n - j,
    {
        chunk_ids.push(ChunkId { content: id.clone(), index: j as u64 });
        j += 1;
    }
    let meta = ContentMetadata {
        content_id: id.clone(),
        total_size,
        chunks: chunk_ids,
        aliases: vec![alias],
    };
    assert(meta.wf());
    proof {
        assert(meta.abs().aliases =~= seq![alias_of(gdata)]);
    }
    let bytes = encode_meta(&meta);
    let mkey = make_meta_key(&id);
    match blob.put(ctx, &mkey, bytes, behaviour) {
        Ok(_) => {
            proof {
                assert(blob.view() == with_content_records(pre, gdata, config));
                lemma_store_round_trip(pre, gdata, config);
            }
            Ok(meta)
        },
        Err(e) => {
            proof {
                lemma_insert_chunks_span(pre, gid, gcks, n as int);
                assert forall|j2: u64| j2 < n implies meta_key(gid) != chunk_key(gid, j2) by {
                    crate::digest::lemma_key_spaces_disjoint(gid, j2, gid, alias_of(gdata));
                }
                lemma_insert_chunks_frame(pre, gid, gcks, n as int, meta_key(gid));
                crate::digest::lemma_key_spaces_disjoint(gid, 0, gid, alias_of(gdata));
                assert(store_residue(pre, blob.view(), gdata, config));
                if e is AlreadyPresent {
                    assert(store_conflicts(pre, gdata, config)) by {
                        assert(pre.contains_key(meta_key(gid)) && pre[meta_key(gid)] != bytes@);
                    }
                }
            }
            Err(
                match e {
                    StorageError::IoFailure => StoreError::IoFailure,
                    StorageError::AlreadyPresent => StoreError::AlreadyPresent,
                    StorageError::LeaseTimeout => StoreError::LeaseTimeout,
                },
            )
        },
    }
}

/// The content id a fetch key resolves to in `view`: a canonical key names it
/// directly; an aliased key goes through its lookup record.
pub open spec fn resolve_spec(view: BlobMap, key: FetchKey) -> Option<Seq<u8>> {
    match key {
        FetchKey::Canonical(cid) => Option::Some(cid@),
        FetchKey::Aliased(a) => {
            if view.contains_key(alias_key(a@)) && view[alias_key(a@)].len() == DIGEST_LEN {
                Option::Some(view[alias_key(a@)])
            } else {
                Option::None
            }
        },
    }
}

/// An alias lookup record exists but does not hold a digest.
pub open spec fn alias_record_corrupt(view: BlobMap, key: FetchKey) -> bool {
    match key {
        FetchKey::Canonical(_) => false,
        FetchKey::Aliased(a) => view.contains_key(alias_key(a@)) && view[alias_key(a@)].len()
            != DIGEST_LEN,
    }
}

/// The content a fetch of `key` against `view` reproduces, if any.
pub open spec fn fetched_content(view: BlobMap, key: FetchKey) -> Option<Seq<u8>> {
    match resolve_spec(view, key) {
        Option::Some(id) => stored_content(view, id),
        Option::None => Option::None,
    }
}

impl FetchKey {
    /// The digest inside the key has the expected width.
    pub open spec fn wf(&self) -> bool {
        match self {
            FetchKey::Canonical(cid) => cid.wf(),
            FetchKey::Aliased(a) => a.wf(),
        }
    }
}

/// The lazy, forward-only sequence of chunks a fetch produces: each call of
/// `next_chunk` reads one more chunk on demand; the sequence is finite, not
/// restartable, and an abandoned reader reads nothing further.
#[derive(Debug)]
pub struct ChunkReader {
    /// The content being read.
    pub content_id: ContentId,
    /// The full logical length its metadata record declares.
    pub total_size: u64,
    /// How many chunks its metadata record references.
    pub num_chunks: u64,
    /// The next chunk to read.
    pub next: u64,
}

impl ChunkReader {
    pub open spec fn wf(&self) -> bool {
        &&& self.content_id.wf()
        &&& self.next <= self.num_chunks
    }

    /// Pull the next chunk, or `None` after the last one. An error mid-stream
    /// surfaces at the failing chunk; earlier chunks stand.
    pub fn next_chunk<B: Blobstore>(&mut self, blob: &mut B, ctx: &CoreContext) -> (r: Result<
        Option<Vec<u8>>,
        FetchError,
    >)
        requires
            old(self).wf(),
            old(blob).wf(),
        ensures
            final(self).wf(),
            final(blob).wf(),
            final(blob).view() == old(blob).view(),
            !old(blob).faulty() ==> !final(blob).faulty(),
            forall|k: Seq<u8>, t: u64|
                !old(blob).put_blocked(t, k) ==> !(#[trigger] final(blob).put_blocked(t, k)),
            final(self).content_id@ == old(self).content_id@,
            final(self).num_chunks == old(self).num_chunks,
            final(self).total_size == old(self).total_size,
            match r {
                Ok(Some(v)) => {
                    &&& old(self).next < old(self).num_chunks
                    &&& old(blob).view().contains_key(
                        chunk_key(old(self).content_id@, old(self).next),
                    )
                    &&& v@ == old(blob).view()[chunk_key(old(self).content_id@, old(self).next)]
                    &&& final(self).next == old(self).next + 1
                },
                Ok(None) => old(self).next == old(self).num_chunks && final(self).next == old(
                    self,
                ).next,
                Err(e) => {
                    &&& final(self).next == old(self).next
                    &&& (e is IoFailure ==> old(blob).faulty())
                    &&& (e is NotFound ==> old(self).next < old(self).num_chunks && !old(
                        blob,
                    ).view().contains_key(chunk_key(old(self).content_id@, old(self).next)))
                    &&& !(e is CorruptRecord)
                },
            },
    {
        if self.next == self.num_chunks {
            return Ok(None);
        }
        let key = make_chunk_key(&self.content_id, self.next);
        match blob.get(ctx, &key) {
            Ok(Some(v)) => {
                self.next = self.next + 1;
                Ok(Some(v))
            },
            Ok(None) => Err(FetchError::NotFound),
            Err(_) => Err(FetchError::IoFailure),
        }
    }
}

/// Resolve `key` and open a reader over the stored content: resolves an
/// aliased key through its lookup record, reads the metadata record, and
/// hands back a reader positioned at the first chunk. Absence of the alias
/// record or of the metadata record is not an error: the content is not
/// there.
pub fn fetch<B: Blobstore>(blob: &mut B, ctx: &CoreContext, key: &FetchKey) -> (r: Result<
    Option<ChunkReader>,
    FetchError,
>)
    requires
        old(blob).wf(),
        key.wf(),
    ensures
        final(blob).wf(),
        final(blob).view() == old(blob).view(),
        !old(blob).faulty() ==> !final(blob).faulty(),
        forall|k: Seq<u8>, t: u64|
            !old(blob).put_blocked(t, k) ==> !(#[trigger] final(blob).put_blocked(t, k)),
        match r {
            Ok(Some(rd)) => {
                &&& rd.wf()
                &&& rd.next == 0
                &&& resolve_spec(old(blob).view(), *key) == Option::Some(rd.content_id@)
                &&& stored_meta(old(blob).view(), rd.content_id@) matches Option::Some(m)
                    && m.id == rd.content_id@ && m.num_chunks == rd.num_chunks && m.total_size
                    == rd.total_size
            },
            Ok(None) => match resolve_spec(old(blob).view(), *key) {
                Option::None => !alias_record_corrupt(old(blob).view(), *key),
                Option::Some(id) => !old(blob).view().contains_key(meta_key(id)),
            },
            Err(e) => {
                &&& (e is IoFailure ==> old(blob).faulty())
                &&& (!(e is IoFailure) ==> fetched_content(old(blob).view(), *key) is None)
                &&& !(e is NotFound)
            },
        },
        (!old(blob).faulty() && fetched_content(old(blob).view(), *key) is Some) ==> (r matches Ok(
            Some(_),
        )),
{
    let id: ContentId = match key {
        FetchKey::Canonical(cid) => cid.clone(),
        FetchKey::Aliased(a) => {
            let akey = make_alias_key(a);
            match blob.get(ctx, &akey) {
                Ok(Some(v)) => {
                    if v.len() != DIGEST_LEN {
                        return Err(FetchError::CorruptRecord);
                    }
                    ContentId::from_digest(v)
                },
                Ok(None) => {
                    return Ok(None);
                },
                Err(_) => {
                    return Err(FetchError::IoFailure);
                },
            }
        },
    };
    let mkey = make_meta_key(&id);
    match blob.get(ctx, &mkey) {
        Ok(Some(bytes)) => {
            match crate::metadata::decode_meta_record(&bytes) {
                Some(d) => {
                    if !bytes_eq(
                        d.content_id.digest_bytes().as_slice(),
                        id.digest_bytes().as_slice(),
                    ) {
                        return Err(FetchError::CorruptRecord);
                    }
                    Ok(
                        Some(
                            ChunkReader {
                                content_id: id,
                                total_size: d.total_size,
                                num_chunks: d.num_chunks,
                                next: 0,
                            },
                        ),
                    )
                },
                None => Err(FetchError::CorruptRecord),
            }
        },
        Ok(None) => Ok(None),
        Err(_) => Err(FetchError::IoFailure),
    }
}

/// Fetch and concatenate the whole content under `key`: opens a reader and
/// drives it to the end. `Ok(None)` means the content is not there; an
/// `Ok(Some(v))` is exactly the stored bytes.
pub fn fetch_concat<B: Blobstore>(blob: &mut B, ctx: &CoreContext, key: &FetchKey) -> (r: Result<
    Option<Vec<u8>>,
    FetchError,
>)
    requires
        old(blob).wf(),
        key.wf(),
    ensures
        final(blob).wf(),
        final(blob).view() == old(blob).view(),
        !old(blob).faulty() ==> !final(blob).faulty(),
        forall|k: Seq<u8>, t: u64|
            !old(blob).put_blocked(t, k) ==> !(#[trigger] final(blob).put_blocked(t, k)),
        match r {
            Ok(Some(v)) => fetched_content(old(blob).view(), *key) == Option::Some(v@),
            Ok(None) => fetched_content(old(blob).view(), *key) is None,
            Err(e) => {
                &&& (e is IoFailure ==> old(blob).faulty())
                &&& (!(e is IoFailure) ==> fetched_content(old(blob).view(), *key) is None)
            },
        },
        (!old(blob).faulty() && fetched_content(old(blob).view(), *key) is Some) ==> (r matches Ok(
            Some(_),
        )),
{
    let ghost view0 = old(blob).view();
    match fetch(blob, ctx, key) {
        Ok(Some(mut rd)) => {
            let ghost gid = rd.content_id@;
            let ghost num = rd.num_chunks;
            let mut acc: Vec<u8> = Vec::new();
            while rd.next < rd.num_chunks
                invariant
                    blob.wf(),
                    rd.wf(),
                    blob.view() == view0,
                    view0 == old(blob).view(),
                    !old(blob).faulty() ==> !blob.faulty(),
                    forall|k: Seq<u8>, t: u64|
                        !old(blob).put_blocked(t, k) ==> !(#[trigger] blob.put_blocked(t, k)),
                    rd.content_id@ == gid,
                    rd.num_chunks == num,
                    resolve_spec(view0, *key) == Option::Some(gid),
                    stored_meta(view0, gid) matches Option::Some(m) && m.id == gid && m.num_chunks
                        == num,
                    forall|i: u64| i < rd.next ==> view0.contains_key(#[trigger] chunk_key(gid, i)),
                    acc@ == concat_stored_chunks(view0, gid, rd.next as int),
                decreases rd.num_chunks - rd.next,
            {
                let ghost prev_next = rd.next;
                match rd.next_chunk(blob, ctx) {
                    Ok(Some(mut v)) => {
                        proof {
                            assert(concat_stored_chunks(view0, gid, prev_next + 1)
                                == concat_stored_chunks(view0, gid, prev_next as int) + view0[
                            chunk_key(gid, prev_next)]);
                        }
                        acc.append(&mut v);
                    },
                    Ok(None) => {
                        proof {
                            assert(false);
                        }
                    },
                    Err(e) => {
                        proof {
                            if e is NotFound {
                                assert(!chunks_present(view0, gid, num));
                                assert(fetched_content(view0, *key) is None);
                            }
                        }
                        return Err(
                            match e {
                                FetchError::IoFailure => FetchError::IoFailure,
                                FetchError::NotFound => FetchError::NotFound,
                                FetchError::CorruptRecord => FetchError::CorruptRecord,
                            },
                        );
                    },
                }
            }
            proof {
                assert(chunks_present(view0, gid, num));
                assert(fetched_content(view0, *key) == Option::Some(acc@));
            }
            Ok(Some(acc))
        },
        Ok(None) => {
            Ok(None)
        },
        Err(e) => Err(e),
    }
}

} // verus!


