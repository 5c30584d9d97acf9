//! Content addressing: stable identifiers derived from byte content, and the
//! derivation of the blob keys under which chunks, metadata records and alias
//! lookup records are stored.
//!
//! The primary content id is the SHA-1 digest of the full logical content.
//! The secondary (alias) digest is the SHA-1 digest of the content under a
//! domain-separation tag, so the two identifier spaces never collide.

use vstd::prelude::*;

use base64::Engine;
use sha1::Digest;

use crate::util::be64;
use crate::util::lemma_be64_injective;

verus! {

/// The SHA-1 digest of a byte sequence. Named, not written out: the digest is
/// a function of its input alone.
pub uninterp spec fn sha1_of(b: Seq<u8>) -> Seq<u8>;

/// The standard base64 rendering (with padding) of a byte sequence. Named,
/// not written out: it is a function of its input alone.
pub uninterp spec fn base64_of(b: Seq<u8>) -> Seq<char>;

/// Relies on `sha1::Sha1` (through `digest::Digest::digest`): the SHA-1
/// digest is 20 bytes and depends on the input bytes alone.
#[verifier::external_body]
pub(crate) fn sha1_bytes(b: &[u8]) -> (r: Vec<u8>)
    ensures
        r@ == sha1_of(b@),
        r@.len() == 20,
{
    sha1::Sha1::digest(b).to_vec()
}

/// Relies on `base64::engine::general_purpose::STANDARD` (through
/// `base64::Engine::encode`): standard-alphabet base64 with padding, four
/// output characters for every three input bytes; depends on the input bytes
/// alone.
#[verifier::external_body]
pub(crate) fn base64_string(b: &[u8]) -> (r: String)
    ensures
        r@ == base64_of(b@),
        r@.len() == 4 * ((b@.len() + 2) / 3),
{
    base64::engine::general_purpose::STANDARD.encode(b)
}

/// The number of bytes in a content or alias digest.
pub const DIGEST_LEN: usize = 20;

/// The byte prefixed to content before computing its alias digest.
pub const ALIAS_DOMAIN_TAG: u8 = 0x41;

/// The leading byte of every chunk blob key.
pub const CHUNK_KEY_TAG: u8 = 0x63;

/// The leading byte of every metadata blob key.
pub const META_KEY_TAG: u8 = 0x6d;

/// The leading byte of every alias lookup record key.
pub const ALIAS_KEY_TAG: u8 = 0x61;

/// The secondary digest of a byte sequence: the primary digest of the
/// tag-prefixed content.
pub open spec fn alias_of(b: Seq<u8>) -> Seq<u8> {
    sha1_of(seq![ALIAS_DOMAIN_TAG] + b)
}

/// The primary identifier of stored content: a fixed-size digest of the full
/// logical content, immutable once computed.
#[derive(Debug)]
pub struct ContentId {
    bytes: Vec<u8>,
}

impl ContentId {
    /// The digest bytes.
    pub closed spec fn view(&self) -> Seq<u8> {
        self.bytes@
    }

    /// A content id always holds exactly one digest.
    pub open spec fn wf(&self) -> bool {
        self@.len() == DIGEST_LEN
    }

    /// The content id of `data`: its SHA-1 digest.
    pub fn from_data(data: &Vec<u8>) -> (r: ContentId)
        ensures
            r.wf(),
            r@ == sha1_of(data@),
    {
        ContentId { bytes: sha1_bytes(data.as_slice()) }
    }

    /// Wrap digest bytes already in hand.
    pub fn from_digest(bytes: Vec<u8>) -> (r: ContentId)
        requires
            bytes@.len() == DIGEST_LEN,
        ensures
            r.wf(),
            r@ == bytes@,
    {
        ContentId { bytes }
    }

    /// The digest bytes, for key building.
    pub fn digest_bytes(&self) -> (r: &Vec<u8>)
        ensures
            r@ == self@,
    {
        &self.bytes
    }
}

impl Clone for ContentId {
    /// The clone has the same digest.
    fn clone(&self) -> (r: Self)
        ensures
            r@ == self@,
            r.wf() == self.wf(),
    {
        ContentId { bytes: self.bytes.clone() }
    }
}

/// A secondary digest that resolves to a content id through an alias lookup
/// record; many aliases may point at one content id.
#[derive(Debug)]
pub struct Alias {
    bytes: Vec<u8>,
}

impl Alias {
    /// The digest bytes.
    pub closed spec fn view(&self) -> Seq<u8> {
        self.bytes@
    }

    /// An alias always holds exactly one digest.
    pub open spec fn wf(&self) -> bool {
        self@.len() == DIGEST_LEN
    }

    /// The alias digest of `data`: the tagged SHA-1 digest.
    pub fn from_data(data: &Vec<u8>) -> (r: Alias)
        ensures
            r.wf(),
            r@ == alias_of(data@),
    {
        let mut tagged: Vec<u8> = Vec::new();
        tagged.push(ALIAS_DOMAIN_TAG);
        let mut i: usize = 0;
        while i < data.len()
            invariant
                i <= data@.len(),
                tagged@ == seq![ALIAS_DOMAIN_TAG] + data@.take(i as int),
            decreases data@.len() - i,
        {
            tagged.push(data[i]);
            i += 1;
            proof {
                assert(tagged@ =~= seq![ALIAS_DOMAIN_TAG] + data@.take(i as int));
            }
        }
        proof {
            assert(data@.take(data@.len() as int) =~= data@);
        }
        Alias { bytes: sha1_bytes(tagged.as_slice()) }
    }

    /// Wrap digest bytes already in hand.
    pub fn from_digest(bytes: Vec<u8>) -> (r: Alias)
        requires
            bytes@.len() == DIGEST_LEN,
        ensures
            r.wf(),
            r@ == bytes@,
    {
        Alias { bytes }
    }

    /// The digest bytes, for key building.
    pub fn digest_bytes(&self) -> (r: &Vec<u8>)
        ensures
            r@ == self@,
    {
        &self.bytes
    }
}

impl Clone for Alias {
    /// The clone has the same digest.
    fn clone(&self) -> (r: Self)
        ensures
            r@ == self@,
            r.wf() == self.wf(),
    {
        Alias { bytes: self.bytes.clone() }
    }
}

/// The key under which reads are issued: either a content id directly, or an
/// alias that must first be resolved through its lookup record.
#[derive(Debug)]
pub enum FetchKey {
    Canonical(ContentId),
    Aliased(Alias),
}

/// The blob key of chunk `index` of the content identified by `id`.
pub open spec fn chunk_key(id: Seq<u8>, index: u64) -> Seq<u8> {
    seq![CHUNK_KEY_TAG] + id + be64(index)
}

/// The blob key of the metadata record of the content identified by `id`.
pub open spec fn meta_key(id: Seq<u8>) -> Seq<u8> {
    seq![META_KEY_TAG] + id
}

/// The blob key of the alias lookup record for alias digest `a`.
pub open spec fn alias_key(a: Seq<u8>) -> Seq<u8> {
    seq![ALIAS_KEY_TAG] + a
}

/// Executable chunk key derivation.
pub fn make_chunk_key(id: &ContentId, index: u64) -> (r: Vec<u8>)
    ensures
        r@ == chunk_key(id@, index),
{
    let mut r: Vec<u8> = Vec::new();
    r.push(CHUNK_KEY_TAG);
    let mut i: usize = 0;
    let digest = id.digest_bytes();
    while i < digest.len()
        invariant
            i <= digest@.len(),
            digest@ == id@,
            r@ == seq![CHUNK_KEY_TAG] + id@.take(i as int),
        decreases digest@.len() - i,
    {
        r.push(digest[i]);
        i += 1;
        proof {
            assert(r@ =~= seq![CHUNK_KEY_TAG] + id@.take(i as int));
        }
    }
    let mut tail = crate::util::be64_encode(index);
    r.append(&mut tail);
    proof {
        assert(id@.take(id@.len() as int) =~= id@);
        assert(r@ =~= chunk_key(id@, index));
    }
    r
}

/// Executable metadata key derivation.
pub fn make_meta_key(id: &ContentId) -> (r: Vec<u8>)
    ensures
        r@ == meta_key(id@),
{
    let mut r: Vec<u8> = Vec::new();
    r.push(META_KEY_TAG);
    let mut i: usize = 0;
    let digest = id.digest_bytes();
    while i < digest.len()
        invariant
            i <= digest@.len(),
            digest@ == id@,
            r@ == seq![META_KEY_TAG] + id@.take(i as int),
        decreases digest@.len() - i,
    {
        r.push(digest[i]);
        i += 1;
        proof {
            assert(r@ =~= seq![META_KEY_TAG] + id@.take(i as int));
        }
    }
    proof {
        assert(id@.take(id@.len() as int) =~= id@);
    }
    r
}

/// Executable alias record key derivation.
pub fn make_alias_key(a: &Alias) -> (r: Vec<u8>)
    ensures
        r@ == alias_key(a@),
{
    let mut r: Vec<u8> = Vec::new();
    r.push(ALIAS_KEY_TAG);
    let mut i: usize = 0;
    let digest = a.digest_bytes();
    while i < digest.len()
        invariant
            i <= digest@.len(),
            digest@ == a@,
            r@ == seq![ALIAS_KEY_TAG] + a@.take(i as int),
        decreases digest@.len() - i,
    {
        r.push(digest[i]);
        i += 1;
        proof {
            assert(r@ =~= seq![ALIAS_KEY_TAG] + a@.take(i as int));
        }
    }
    proof {
        assert(a@.take(a@.len() as int) =~= a@);
    }
    r
}

/// Chunk keys of one content never collide across indexes, and chunk keys of
/// contents with distinct ids never collide.
pub proof fn lemma_chunk_key_injective(id1: Seq<u8>, i1: u64, id2: Seq<u8>, i2: u64)
    requires
        id1.len() == DIGEST_LEN,
        id2.len() == DIGEST_LEN,
        chunk_key(id1, i1) == chunk_key(id2, i2),
    ensures
        id1 == id2,
        i1 == i2,
{
    let k1 = chunk_key(id1, i1);
    let k2 = chunk_key(id2, i2);
    assert(id1 =~= k1.subrange(1, 21));
    assert(id2 =~= k2.subrange(1, 21));
    assert(be64(i1) =~= k1.subrange(21, 29));
    assert(be64(i2) =~= k2.subrange(21, 29));
    lemma_be64_injective(i1, i2);
}

/// Metadata keys of distinct content ids never collide.
pub proof fn lemma_meta_key_injective(id1: Seq<u8>, id2: Seq<u8>)
    requires
        meta_key(id1) == meta_key(id2),
    ensures
        id1 == id2,
{
    assert(id1 =~= meta_key(id1).skip(1));
    assert(id2 =~= meta_key(id2).skip(1));
}

/// Alias record keys of distinct alias digests never collide.
pub proof fn lemma_alias_key_injective(a1: Seq<u8>, a2: Seq<u8>)
    requires
        alias_key(a1) == alias_key(a2),
    ensures
        a1 == a2,
{
    assert(a1 =~= alias_key(a1).skip(1));
    assert(a2 =~= alias_key(a2).skip(1));
}

/// The three key spaces are disjoint: a chunk key is never a metadata or
/// alias key, and a metadata key is never an alias key.
pub proof fn lemma_key_spaces_disjoint(id: Seq<u8>, index: u64, id2: Seq<u8>, a: Seq<u8>)
    ensures
        chunk_key(id, index) != meta_key(id2),
        chunk_key(id, index) != alias_key(a),
        meta_key(id2) != alias_key(a),
{
    assert(chunk_key(id, index)[0] == CHUNK_KEY_TAG);
    assert(meta_key(id2)[0] == META_KEY_TAG);
    assert(alias_key(a)[0] == ALIAS_KEY_TAG);
}

} // verus!
