//! Splitting a byte stream into fixed-size chunks, and the proof that the
//! chunks concatenate back to the original bytes.

use vstd::prelude::*;

verus! {

/// The chunks of `data` under chunk size `cs`: fixed-size slices, the final
/// chunk possibly shorter; content no longer than one chunk (including the
/// empty content) is a single chunk.
pub open spec fn chunks_of(data: Seq<u8>, cs: nat) -> Seq<Seq<u8>>
    recommends
        cs > 0,
    decreases data.len(),
{
    if cs == 0 || data.len() <= cs {
        seq![data]
    } else {
        seq![data.take(cs as int)] + chunks_of(data.skip(cs as int), cs)
    }
}

/// How many chunks `len` bytes split into under chunk size `cs`.
pub open spec fn chunk_count(len: nat, cs: nat) -> nat
    recommends
        cs > 0,
{
    if cs == 0 || len == 0 {
        1
    } else {
        (((len + cs - 1) as int) / (cs as int)) as nat
    }
}

/// The concatenation of a sequence of byte sequences.
pub open spec fn concat_all(ss: Seq<Seq<u8>>) -> Seq<u8>
    decreases ss.len(),
{
    if ss.len() == 0 {
        Seq::empty()
    } else {
        ss.first() + concat_all(ss.drop_first())
    }
}

/// There is always at least one chunk, and as many as `chunk_count` says.
pub proof fn lemma_chunks_count(data: Seq<u8>, cs: nat)
    requires
        cs > 0,
    ensures
        chunks_of(data, cs).len() == chunk_count(data.len(), cs),
        chunks_of(data, cs).len() >= 1,
    decreases data.len(),
{
    if data.len() > cs {
        lemma_chunks_count(data.skip(cs as int), cs);
        assert(data.skip(cs as int).len() == data.len() - cs);
        assert(chunk_count(data.len(), cs) == 1 + chunk_count((data.len() - cs) as nat, cs)) by {
            assert((data.len() + cs - 1) as int / (cs as int) == 1 + ((data.len() - cs + cs
                - 1) as int) / (cs as int)) by (nonlinear_arith)
                requires
                    cs > 0,
                    data.len() > cs,
            ;
        }
    } else if data.len() > 0 {
        assert(((data.len() + cs - 1) as int) / (cs as int) == 1) by (nonlinear_arith)
            requires
                cs > 0,
                0 < data.len() <= cs,
        ;
    }
}

/// Every chunk but the last is exactly `cs` long; the last is no longer than
/// `cs`, and non-empty unless the content itself is empty.
pub proof fn lemma_chunks_sizes(data: Seq<u8>, cs: nat)
    requires
        cs > 0,
    ensures
        forall|i: int|
            0 <= i < chunks_of(data, cs).len() - 1 ==> (#[trigger] chunks_of(data, cs)[i]).len()
                == cs,
        chunks_of(data, cs).last().len() <= cs,
        data.len() > 0 ==> chunks_of(data, cs).last().len() > 0,
    decreases data.len(),
{
    if data.len() > cs {
        lemma_chunks_sizes(data.skip(cs as int), cs);
        let rest = chunks_of(data.skip(cs as int), cs);
        assert(chunks_of(data, cs) == seq![data.take(cs as int)] + rest);
        assert(forall|i: int|
            1 <= i < chunks_of(data, cs).len() ==> chunks_of(data, cs)[i] == rest[i - 1]);
        assert(chunks_of(data, cs).last() == rest.last());
    }
}

/// The chunks of `data` concatenate back to `data` exactly.
pub proof fn lemma_chunks_concat(data: Seq<u8>, cs: nat)
    requires
        cs > 0,
    ensures
        concat_all(chunks_of(data, cs)) == data,
    decreases data.len(),
{
    if data.len() <= cs {
        let ss = seq![data];
        assert(ss.first() == data);
        assert(ss.drop_first() =~= Seq::<Seq<u8>>::empty());
        assert(concat_all(Seq::<Seq<u8>>::empty()) =~= Seq::<u8>::empty());
        assert(concat_all(ss) == data + Seq::<u8>::empty());
        assert(data + Seq::<u8>::empty() =~= data);
    } else {
        lemma_chunks_concat(data.skip(cs as int), cs);
        let ss = seq![data.take(cs as int)] + chunks_of(data.skip(cs as int), cs);
        assert(ss.first() == data.take(cs as int));
        assert(ss.drop_first() =~= chunks_of(data.skip(cs as int), cs));
        assert(concat_all(ss) == data.take(cs as int) + data.skip(cs as int));
        assert(data.take(cs as int) + data.skip(cs as int) =~= data);
    }
}

/// Executable chunking: split `data` into chunks of `cs` bytes, the final
/// chunk possibly shorter; empty input yields one empty chunk.
pub fn split_chunks(data: &Vec<u8>, cs: u64) -> (r: Vec<Vec<u8>>)
    requires
        cs >= 1,
    ensures
        r@.len() == chunks_of(data@, cs as nat).len(),
        forall|i: int| 0 <= i < r@.len() ==> (#[trigger] r@[i])@ == chunks_of(data@, cs as nat)[i],
    {
    let ghost goal = chunks_of(data@, cs as nat);
    if data.len() == 0 {
        let mut r: Vec<Vec<u8>> = Vec::new();
        r.push(Vec::new());
        assert(goal =~= seq![data@]);
        assert(r@[0]@ =~= data@);
        return r;
    }
    let mut out: Vec<Vec<u8>> = Vec::new();
    let mut off: usize = 0;
    proof {
        assert(data@.skip(0) =~= data@);
    }
    while off < data.len()
        invariant
            cs >= 1,
            data@.len() > 0,
            off <= data@.len(),
            goal == chunks_of(data@, cs as nat),
            off < data@.len() ==> {
                &&& goal.len() == out@.len() + chunks_of(data@.skip(off as int), cs as nat).len()
                &&& forall|i: int|
                    out@.len() <= i < goal.len() ==> goal[i] == chunks_of(
                        data@.skip(off as int),
                        cs as nat,
                    )[i - out@.len()]
            },
            off == data@.len() ==> goal.len() == out@.len(),
            forall|i: int| 0 <= i < out@.len() ==> (#[trigger] out@[i])@ == goal[i],
        decreases data@.len() - off,
    {
        let remaining = data.len() - off;
        let take: usize = if (remaining as u64) <= cs {
            remaining
        } else {
            cs as usize
        };
        let end = off + take;
        let piece = vstd::slice::slice_subrange(data.as_slice(), off, end);
        let chunk = vstd::slice::slice_to_vec(piece);
        let ghost tail = chunks_of(data@.skip(off as int), cs as nat);
        proof {
            if (remaining as u64) <= cs {
                assert(data@.skip(off as int).len() <= cs);
                assert(tail =~= seq![data@.skip(off as int)]);
                assert(chunk@ =~= data@.skip(off as int));
                assert(goal[out@.len() as int] == chunk@);
            } else {
                assert(data@.skip(off as int).len() > cs);
                assert(tail == seq![data@.skip(off as int).take(cs as int)] + chunks_of(
                    data@.skip(off as int).skip(cs as int),
                    cs as nat,
                ));
                assert(data@.skip(off as int).take(cs as int) =~= data@.subrange(
                    off as int,
                    end as int,
                ));
                assert(goal[out@.len() as int] == chunk@);
                assert(data@.skip(off as int).skip(cs as int) =~= data@.skip(end as int));
            }
        }
        out.push(chunk);
        off = end;
        proof {
            if off < data@.len() {
                assert(forall|i: int|
                    out@.len() <= i < goal.len() ==> goal[i] == chunks_of(
                        data@.skip(off as int),
                        cs as nat,
                    )[i - out@.len()]);
            }
        }
    }
    out
}

} // verus!
