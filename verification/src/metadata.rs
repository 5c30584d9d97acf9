//! The content metadata record: what a successful store writes last, after
//! every chunk it references is durable. Holds the content id, the total
//! size, the ordered list of chunk ids and the alias set, with a verified
//! binary codec and its round-trip proof.

use vstd::prelude::*;

use crate::digest::Alias;
use crate::digest::ContentId;
use crate::digest::DIGEST_LEN;
use crate::util::be64;
use crate::util::be64_decode;
use crate::util::be64_encode;
use crate::util::be64_val;
use crate::util::lemma_be64_round_trip;

verus! {

/// The identifier of one chunk: the content it belongs to and its position.
#[derive(Debug)]
pub struct ChunkId {
    /// The content this chunk is a slice of.
    pub content: ContentId,
    /// The zero-based position of the chunk in the content.
    pub index: u64,
}

impl ChunkId {
    pub open spec fn wf(&self) -> bool {
        self.content.wf()
    }
}

impl Clone for ChunkId {
    /// The clone identifies the same chunk.
    fn clone(&self) -> (r: Self)
        ensures
            r.content@ == self.content@,
            r.index == self.index,
            r.wf() == self.wf(),
    {
        ChunkId { content: self.content.clone(), index: self.index }
    }
}

/// The metadata record of one stored content: written exactly once, after
/// all referenced chunks are durable.
#[derive(Debug)]
pub struct ContentMetadata {
    /// The primary identifier of the content.
    pub content_id: ContentId,
    /// The full logical length in bytes.
    pub total_size: u64,
    /// The chunk ids, in sequence order.
    pub chunks: Vec<ChunkId>,
    /// The alias digests that resolve to this content.
    pub aliases: Vec<Alias>,
}

/// The abstract value of a metadata record.
pub struct MetaAbs {
    pub id: Seq<u8>,
    pub total_size: u64,
    pub num_chunks: u64,
    pub aliases: Seq<Seq<u8>>,
}

impl ContentMetadata {
    /// The chunk list is canonical: chunk `i` is chunk `i` of this content.
    pub open spec fn wf(&self) -> bool {
        &&& self.content_id.wf()
        &&& 1 <= self.chunks@.len() <= u64::MAX
        &&& forall|i: int|
            0 <= i < self.chunks@.len() ==> (#[trigger] self.chunks@[i]).content@
                == self.content_id@ && self.chunks@[i].index == i && self.chunks@[i].wf()
        &&& forall|i: int| 0 <= i < self.aliases@.len() ==> (#[trigger] self.aliases@[i]).wf()
    }

    /// The abstract value of this record.
    pub open spec fn abs(&self) -> MetaAbs {
        MetaAbs {
            id: self.content_id@,
            total_size: self.total_size,
            num_chunks: self.chunks@.len() as u64,
            aliases: self.aliases@.map_values(|a: Alias| a@),
        }
    }
}

/// The alias digests laid end to end.
pub open spec fn encode_aliases(aliases: Seq<Seq<u8>>) -> Seq<u8>
    decreases aliases.len(),
{
    if aliases.len() == 0 {
        Seq::empty()
    } else {
        encode_aliases(aliases.drop_last()) + aliases.last()
    }
}

/// Laid end to end, twenty-byte digests occupy twenty bytes each, in order.
pub proof fn lemma_encode_aliases_layout(aliases: Seq<Seq<u8>>)
    requires
        forall|i: int| 0 <= i < aliases.len() ==> (#[trigger] aliases[i]).len() == DIGEST_LEN,
    ensures
        encode_aliases(aliases).len() == DIGEST_LEN * aliases.len(),
        forall|i: int|
            0 <= i < aliases.len() ==> #[trigger] aliases[i] == encode_aliases(aliases).subrange(
                DIGEST_LEN * i,
                DIGEST_LEN * i + DIGEST_LEN,
            ),
    decreases aliases.len(),
{
    if aliases.len() > 0 {
        lemma_encode_aliases_layout(aliases.drop_last());
        let e = encode_aliases(aliases);
        let last = aliases.len() - 1;
        assert(aliases.drop_last().len() == last);
        assert(e.len() == DIGEST_LEN * last + DIGEST_LEN);
        assert(DIGEST_LEN * aliases.len() == DIGEST_LEN * last + DIGEST_LEN) by (nonlinear_arith)
            requires
                last == aliases.len() - 1,
                aliases.len() >= 1,
        ;
        assert forall|i: int| 0 <= i < aliases.len() implies #[trigger] aliases[i] == e.subrange(
            DIGEST_LEN * i,
            DIGEST_LEN * i + DIGEST_LEN,
        ) by {
            if i < last {
                assert(aliases.drop_last()[i] == encode_aliases(aliases.drop_last()).subrange(
                    DIGEST_LEN * i,
                    DIGEST_LEN * i + DIGEST_LEN,
                ));
                assert(DIGEST_LEN * i + DIGEST_LEN <= DIGEST_LEN * last) by (nonlinear_arith)
                    requires
                        i < last,
                ;
                assert(e.subrange(DIGEST_LEN * i, DIGEST_LEN * i + DIGEST_LEN)
                    =~= encode_aliases(aliases.drop_last()).subrange(
                    DIGEST_LEN * i,
                    DIGEST_LEN * i + DIGEST_LEN,
                ));
            } else {
                assert(aliases[i] == aliases.last());
                assert(e.subrange(DIGEST_LEN * last, DIGEST_LEN * last + DIGEST_LEN)
                    =~= aliases.last());
            }
        }
    }
}

/// The binary rendering of a metadata record: content id, total size, chunk
/// count, alias count, then the alias digests.
pub open spec fn spec_encode_meta(
    id: Seq<u8>,
    total_size: u64,
    num_chunks: u64,
    aliases: Seq<Seq<u8>>,
) -> Seq<u8> {
    id + be64(total_size) + be64(num_chunks) + be64(aliases.len() as u64) + encode_aliases(aliases)
}

/// What a metadata record's bytes mean, if anything.
pub open spec fn decode_meta(b: Seq<u8>) -> Option<MetaAbs> {
    if b.len() < 44 {
        Option::None
    } else {
        let id = b.subrange(0, 20);
        let total_size = be64_val(b.subrange(20, 28));
        let num_chunks = be64_val(b.subrange(28, 36));
        let num_aliases = be64_val(b.subrange(36, 44));
        if b.len() == 44 + DIGEST_LEN * (num_aliases as int) && num_chunks >= 1 {
            Option::Some(
                MetaAbs {
                    id,
                    total_size,
                    num_chunks,
                    aliases: Seq::new(
                        num_aliases as nat,
                        |i: int| b.subrange(44 + DIGEST_LEN * i, 44 + DIGEST_LEN * i + DIGEST_LEN),
                    ),
                },
            )
        } else {
            Option::None
        }
    }
}

/// Round trip: decoding an encoded record gives back its abstract value.
pub proof fn lemma_meta_round_trip(
    id: Seq<u8>,
    total_size: u64,
    num_chunks: u64,
    aliases: Seq<Seq<u8>>,
)
    requires
        id.len() == DIGEST_LEN,
        num_chunks >= 1,
        aliases.len() <= u64::MAX,
        forall|i: int| 0 <= i < aliases.len() ==> (#[trigger] aliases[i]).len() == DIGEST_LEN,
    ensures
        decode_meta(spec_encode_meta(id, total_size, num_chunks, aliases)) == Option::Some(
            MetaAbs { id, total_size, num_chunks, aliases },
        ),
{
    let e = spec_encode_meta(id, total_size, num_chunks, aliases);
    lemma_encode_aliases_layout(aliases);
    assert(e.len() == 44 + DIGEST_LEN * aliases.len());
    assert(e.subrange(0, 20) =~= id);
    assert(e.subrange(20, 28) =~= be64(total_size));
    assert(e.subrange(28, 36) =~= be64(num_chunks));
    assert(e.subrange(36, 44) =~= be64(aliases.len() as u64));
    lemma_be64_round_trip(total_size);
    lemma_be64_round_trip(num_chunks);
    lemma_be64_round_trip(aliases.len() as u64);
    let got = decode_meta(e).unwrap();
    assert forall|i: int| 0 <= i < aliases.len() implies got.aliases[i] == aliases[i] by {
        assert(aliases[i] == encode_aliases(aliases).subrange(
            DIGEST_LEN * i,
            DIGEST_LEN * i + DIGEST_LEN,
        ));
        assert(0 <= DIGEST_LEN * i && DIGEST_LEN * i + DIGEST_LEN <= encode_aliases(
            aliases,
        ).len()) by (nonlinear_arith)
            requires
                0 <= i < aliases.len(),
                encode_aliases(aliases).len() == DIGEST_LEN * aliases.len(),
        ;
        assert(e.subrange(44 + DIGEST_LEN * i, 44 + DIGEST_LEN * i + DIGEST_LEN)
            =~= encode_aliases(aliases).subrange(DIGEST_LEN * i, DIGEST_LEN * i + DIGEST_LEN));
    }
    assert(got.aliases =~= aliases);
}

/// Executable encoding of a metadata record.
pub fn encode_meta(m: &ContentMetadata) -> (r: Vec<u8>)
    requires
        m.wf(),
    ensures
        r@ == spec_encode_meta(
            m.content_id@,
            m.total_size,
            m.chunks@.len() as u64,
            m.aliases@.map_values(|a: Alias| a@),
        ),
{
    let ghost alias_views = m.aliases@.map_values(|a: Alias| a@);
    let mut r: Vec<u8> = Vec::new();
    let digest = m.content_id.digest_bytes();
    let mut i: usize = 0;
    while i < digest.len()
        invariant
            i <= digest@.len(),
            digest@ == m.content_id@,
            r@ == m.content_id@.take(i as int),
        decreases digest@.len() - i,
    {
        r.push(digest[i]);
        i += 1;
        proof {
            assert(r@ =~= m.content_id@.take(i as int));
        }
    }
    proof {
        assert(m.content_id@.take(m.content_id@.len() as int) =~= m.content_id@);
    }
    let mut w = be64_encode(m.total_size);
    r.append(&mut w);
    let mut w = be64_encode(m.chunks.len() as u64);
    r.append(&mut w);
    let mut w = be64_encode(m.aliases.len() as u64);
    r.append(&mut w);
    let ghost header = m.content_id@ + be64(m.total_size) + be64(m.chunks@.len() as u64) + be64(
        m.aliases@.len() as u64,
    );
    assert(r@ =~= header);
    let mut j: usize = 0;
    while j < m.aliases.len()
        invariant
            j <= m.aliases@.len(),
            header == m.content_id@ + be64(m.total_size) + be64(m.chunks@.len() as u64) + be64(
                m.aliases@.len() as u64,
            ),
            alias_views == m.aliases@.map_values(|a: Alias| a@),
            r@ == header + encode_aliases(alias_views.take(j as int)),
        decreases m.aliases@.len() - j,
    {
        let digest = m.aliases[j].digest_bytes();
        let mut i: usize = 0;
        let ghost r_before = r@;
        while i < digest.len()
            invariant
                i <= digest@.len(),
                digest@ == m.aliases@[j as int]@,
                j < m.aliases@.len(),
                r@ == r_before + digest@.take(i as int),
            decreases digest@.len() - i,
        {
            r.push(digest[i]);
            i += 1;
            proof {
                assert(r@ =~= r_before + digest@.take(i as int));
            }
        }
        j += 1;
        proof {
            assert(digest@.take(digest@.len() as int) =~= digest@);
            assert(alias_views.take(j as int).drop_last() =~= alias_views.take(j as int - 1));
            assert(alias_views.take(j as int).last() == alias_views[j as int - 1]);
            assert(encode_aliases(alias_views.take(j as int)) == encode_aliases(
                alias_views.take(j as int - 1),
            ) + alias_views[j as int - 1]);
            assert(r@ =~= header + encode_aliases(alias_views.take(j as int)));
        }
    }
    proof {
        assert(alias_views.take(alias_views.len() as int) =~= alias_views);
    }
    r
}

/// A decoded metadata record; the chunk list is not materialized, chunk `i`
/// of content `id` being addressable from the id and the count alone.
#[derive(Debug)]
pub struct DecodedMeta {
    /// The primary identifier of the content.
    pub content_id: ContentId,
    /// The full logical length in bytes.
    pub total_size: u64,
    /// How many chunks the content was split into.
    pub num_chunks: u64,
    /// The alias digests that resolve to this content.
    pub aliases: Vec<Alias>,
}

impl DecodedMeta {
    /// The abstract value of this record.
    pub open spec fn abs(&self) -> MetaAbs {
        MetaAbs {
            id: self.content_id@,
            total_size: self.total_size,
            num_chunks: self.num_chunks,
            aliases: self.aliases@.map_values(|a: Alias| a@),
        }
    }

    pub open spec fn wf(&self) -> bool {
        &&& self.content_id.wf()
        &&& self.num_chunks >= 1
        &&& forall|i: int| 0 <= i < self.aliases@.len() ==> (#[trigger] self.aliases@[i]).wf()
    }
}

/// Executable decoding of a metadata record's bytes.
pub fn decode_meta_record(b: &Vec<u8>) -> (r: Option<DecodedMeta>)
    ensures
        match r {
            Some(d) => d.wf() && decode_meta(b@) == Option::Some(d.abs()),
            None => decode_meta(b@) is None,
        },
{
    if b.len() < 44 {
        return None;
    }
    let id_bytes = vstd::slice::slice_to_vec(vstd::slice::slice_subrange(b.as_slice(), 0, 20));
    let total_size = be64_decode(vstd::slice::slice_subrange(b.as_slice(), 20, 28));
    let num_chunks = be64_decode(vstd::slice::slice_subrange(b.as_slice(), 28, 36));
    let num_aliases = be64_decode(vstd::slice::slice_subrange(b.as_slice(), 36, 44));
    if num_chunks == 0 {
        return None;
    }
    let expected: u128 = 44u128 + (num_aliases as u128) * 20u128;
    if (b.len() as u128) != expected {
        proof {
            assert(b@.len() != 44 + DIGEST_LEN * (num_aliases as int));
        }
        return None;
    }
    proof {
        assert(b@.len() == 44 + DIGEST_LEN * (num_aliases as int));
    }
    let mut aliases: Vec<Alias> = Vec::new();
    let ghost spec_aliases = Seq::new(
        num_aliases as nat,
        |i: int| b@.subrange(44 + DIGEST_LEN * i, 44 + DIGEST_LEN * i + DIGEST_LEN),
    );
    let blen = b.len();
    let mut j: u64 = 0;
    let mut start: usize = 44;
    while j < num_aliases
        invariant
            j <= num_aliases,
            blen == b@.len(),
            b@.len() == 44 + DIGEST_LEN * (num_aliases as int),
            start as int == 44 + DIGEST_LEN * (j as int),
            spec_aliases == Seq::new(
                num_aliases as nat,
                |i: int| b@.subrange(44 + DIGEST_LEN * i, 44 + DIGEST_LEN * i + DIGEST_LEN),
            ),
            aliases@.len() == j,
            forall|i: int|
                0 <= i < j ==> (#[trigger] aliases@[i])@ == spec_aliases[i] && aliases@[i].wf(),
        decreases num_aliases - j,
    {
        proof {
            assert(44 + DIGEST_LEN * (j as int) + DIGEST_LEN <= b@.len()) by (nonlinear_arith)
                requires
                    j < num_aliases,
                    b@.len() == 44 + DIGEST_LEN * (num_aliases as int),
                    DIGEST_LEN == 20,
            ;
        }
        let piece = vstd::slice::slice_to_vec(
            vstd::slice::slice_subrange(b.as_slice(), start, start + 20),
        );
        let a = Alias::from_digest(piece);
        aliases.push(a);
        j += 1;
        start += 20;
    }
    let d = DecodedMeta { content_id: ContentId::from_digest(id_bytes), total_size, num_chunks, aliases };
    proof {
        assert(d.abs().aliases =~= spec_aliases);
        assert(decode_meta(b@) == Option::Some(d.abs())) by {
            assert(b@.subrange(0, 20) == d.content_id@);
            assert(be64_val(b@.subrange(20, 28)) == d.total_size);
            assert(be64_val(b@.subrange(28, 36)) == d.num_chunks);
            assert(be64_val(b@.subrange(36, 44)) == num_aliases);
        }
    }
    Some(d)
}

} // verus!
