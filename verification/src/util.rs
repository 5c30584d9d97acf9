//! Small verified helpers shared across the storage layer: byte-sequence
//! equality, a big-endian 64-bit integer codec, and the map view of an
//! association list of byte-keyed entries.

use vstd::prelude::*;

verus! {

/// Executable equality on byte vectors, pinned to view equality.
pub fn bytes_eq(a: &[u8], b: &[u8]) -> (r: bool)
    ensures
        r == (a@ == b@),
{
    if a.len() != b.len() {
        assert(a@ != b@) by {
            assert(a@.len() != b@.len());
        }
        return false;
    }
    let mut i: usize = 0;
    while i < a.len()
        invariant
            i <= a@.len(),
            a@.len() == b@.len(),
            forall|j: int| 0 <= j < i ==> a@[j] == b@[j],
        decreases a@.len() - i,
    {
        if a[i] != b[i] {
            return false;
        }
        i += 1;
    }
    assert(a@ =~= b@);
    true
}

/// The big-endian byte rendering of a 64-bit integer.
pub open spec fn be64(x: u64) -> Seq<u8> {
    seq![
        (x >> 56) as u8,
        (x >> 48) as u8,
        (x >> 40) as u8,
        (x >> 32) as u8,
        (x >> 24) as u8,
        (x >> 16) as u8,
        (x >> 8) as u8,
        x as u8,
    ]
}

/// The integer read back from eight big-endian bytes.
pub open spec fn be64_val(s: Seq<u8>) -> u64
    recommends
        s.len() == 8,
{
    ((s[0] as u64) << 56) | ((s[1] as u64) << 48) | ((s[2] as u64) << 40) | ((s[3] as u64) << 32)
        | ((s[4] as u64) << 24) | ((s[5] as u64) << 16) | ((s[6] as u64) << 8) | (s[7] as u64)
}

/// Reading back the rendering returns the original integer.
pub proof fn lemma_be64_round_trip(x: u64)
    ensures
        be64_val(be64(x)) == x,
{
    assert((((x >> 56) as u8) as u64) << 56 | (((x >> 48) as u8) as u64) << 48 | (((x >> 40)
        as u8) as u64) << 40 | (((x >> 32) as u8) as u64) << 32 | (((x >> 24) as u8) as u64) << 24
        | (((x >> 16) as u8) as u64) << 16 | (((x >> 8) as u8) as u64) << 8 | ((x as u8)
        as u64) == x) by (bit_vector);
}

/// The rendering is injective.
pub proof fn lemma_be64_injective(x: u64, y: u64)
    requires
        be64(x) == be64(y),
    ensures
        x == y,
{
    lemma_be64_round_trip(x);
    lemma_be64_round_trip(y);
}

/// Executable rendering of an integer as eight big-endian bytes.
pub fn be64_encode(x: u64) -> (r: Vec<u8>)
    ensures
        r@ == be64(x),
        r@.len() == 8,
{
    let mut r: Vec<u8> = Vec::new();
    r.push((x >> 56) as u8);
    r.push((x >> 48) as u8);
    r.push((x >> 40) as u8);
    r.push((x >> 32) as u8);
    r.push((x >> 24) as u8);
    r.push((x >> 16) as u8);
    r.push((x >> 8) as u8);
    r.push(x as u8);
    assert(r@ =~= be64(x));
    r
}

/// Executable read of eight big-endian bytes.
pub fn be64_decode(s: &[u8]) -> (r: u64)
    requires
        s@.len() == 8,
    ensures
        r == be64_val(s@),
{
    ((s[0] as u64) << 56) | ((s[1] as u64) << 48) | ((s[2] as u64) << 40) | ((s[3] as u64) << 32)
        | ((s[4] as u64) << 24) | ((s[5] as u64) << 16) | ((s[6] as u64) << 8) | (s[7] as u64)
}

/// The logical map held by an association list of byte-keyed entries; a later
/// entry for the same key wins.
pub open spec fn entries_map(s: Seq<(Vec<u8>, Vec<u8>)>) -> Map<Seq<u8>, Seq<u8>>
    decreases s.len(),
{
    if s.len() == 0 {
        Map::empty()
    } else {
        entries_map(s.drop_last()).insert(s.last().0@, s.last().1@)
    }
}

/// All keys of an association list are distinct.
pub open spec fn entries_distinct(s: Seq<(Vec<u8>, Vec<u8>)>) -> bool {
    forall|i: int, j: int| 0 <= i < j < s.len() ==> s[i].0@ != s[j].0@
}

/// A key is in the map exactly when some entry carries it.
pub proof fn lemma_entries_map_contains(s: Seq<(Vec<u8>, Vec<u8>)>, k: Seq<u8>)
    ensures
        entries_map(s).contains_key(k) <==> exists|i: int| 0 <= i < s.len() && s[i].0@ == k,
    decreases s.len(),
{
    if s.len() > 0 {
        lemma_entries_map_contains(s.drop_last(), k);
        if s.last().0@ == k {
            assert(s[s.len() - 1].0@ == k);
        } else {
            if entries_map(s).contains_key(k) {
                assert(exists|i: int| 0 <= i < s.drop_last().len() && s.drop_last()[i].0@ == k);
            }
            if exists|i: int| 0 <= i < s.len() && s[i].0@ == k {
                let i = choose|i: int| 0 <= i < s.len() && s[i].0@ == k;
                assert(i < s.len() - 1);
                assert(s.drop_last()[i].0@ == k);
            }
        }
    }
}

/// With distinct keys, the entry carrying a key gives its value in the map.
pub proof fn lemma_entries_map_index(s: Seq<(Vec<u8>, Vec<u8>)>, i: int)
    requires
        entries_distinct(s),
        0 <= i < s.len(),
    ensures
        entries_map(s).contains_key(s[i].0@),
        entries_map(s)[s[i].0@] == s[i].1@,
    decreases s.len(),
{
    if i == s.len() - 1 {
        assert(s[i] == s.last());
    } else {
        assert(entries_distinct(s.drop_last())) by {
            assert(forall|a: int, b: int|
                0 <= a < b < s.drop_last().len() ==> s.drop_last()[a].0@ != s.drop_last()[b].0@);
        }
        lemma_entries_map_index(s.drop_last(), i);
        assert(s.drop_last()[i] == s[i]);
        assert(s[i].0@ != s.last().0@);
    }
}

/// Replacing the value of the entry that carries a key updates the map at
/// that key and nothing else.
pub proof fn lemma_entries_map_update(s: Seq<(Vec<u8>, Vec<u8>)>, i: int, v: Vec<u8>)
    requires
        entries_distinct(s),
        0 <= i < s.len(),
    ensures
        entries_map(s.update(i, (s[i].0, v))) == entries_map(s).insert(s[i].0@, v@),
        entries_distinct(s.update(i, (s[i].0, v))),
    decreases s.len(),
{
    let t = s.update(i, (s[i].0, v));
    assert(entries_distinct(t)) by {
        assert(forall|a: int, b: int| 0 <= a < b < t.len() ==> t[a].0@ != t[b].0@) by {
            assert(forall|a: int| 0 <= a < t.len() ==> t[a].0@ == s[a].0@);
        }
    }
    if i == s.len() - 1 {
        assert(t.drop_last() =~= s.drop_last());
        assert(t.last() == (s[i].0, v));
        assert(entries_map(t) == entries_map(s.drop_last()).insert(s[i].0@, v@));
        assert(entries_map(s) == entries_map(s.drop_last()).insert(s[i].0@, s[i].1@));
        assert(entries_map(s.drop_last()).insert(s[i].0@, v@) =~= entries_map(s.drop_last()).insert(
            s[i].0@,
            s[i].1@,
        ).insert(s[i].0@, v@));
    } else {
        assert(entries_distinct(s.drop_last())) by {
            assert(forall|a: int, b: int|
                0 <= a < b < s.drop_last().len() ==> s.drop_last()[a].0@ != s.drop_last()[b].0@);
        }
        assert(t.drop_last() =~= s.drop_last().update(i, (s[i].0, v)));
        assert(s.drop_last()[i] == s[i]);
        lemma_entries_map_update(s.drop_last(), i, v);
        assert(t.last() == s.last());
        assert(entries_map(t) == entries_map(s.drop_last()).insert(s[i].0@, v@).insert(
            s.last().0@,
            s.last().1@,
        ));
        assert(s[i].0@ != s.last().0@);
        assert(entries_map(s.drop_last()).insert(s[i].0@, v@).insert(s.last().0@, s.last().1@)
            =~= entries_map(s.drop_last()).insert(s.last().0@, s.last().1@).insert(s[i].0@, v@));
    }
}

/// Appending a fresh entry inserts its key.
pub proof fn lemma_entries_map_push(s: Seq<(Vec<u8>, Vec<u8>)>, k: Vec<u8>, v: Vec<u8>)
    ensures
        entries_map(s.push((k, v))) == entries_map(s).insert(k@, v@),
{
    assert(s.push((k, v)).drop_last() =~= s);
    assert(s.push((k, v)).last() == (k, v));
}

/// Removing the entry at one index deletes exactly its key from the map.
pub proof fn lemma_entries_map_remove(s: Seq<(Vec<u8>, Vec<u8>)>, i: int)
    requires
        entries_distinct(s),
        0 <= i < s.len(),
    ensures
        entries_map(s.remove(i)) == entries_map(s).remove(s[i].0@),
        entries_distinct(s.remove(i)),
    decreases s.len(),
{
    let t = s.remove(i);
    assert(entries_distinct(t)) by {
        assert(forall|a: int, b: int| 0 <= a < b < t.len() ==> t[a].0@ != t[b].0@) by {
            assert(forall|a: int|
                0 <= a < t.len() ==> t[a] == (if a < i {
                    s[a]
                } else {
                    s[a + 1]
                }));
        }
    }
    if i == s.len() - 1 {
        assert(t =~= s.drop_last());
        lemma_entries_map_contains(s.drop_last(), s[i].0@);
        assert(forall|j: int| 0 <= j < s.drop_last().len() ==> s.drop_last()[j].0@ != s[i].0@);
        assert(!entries_map(s.drop_last()).contains_key(s[i].0@));
        assert(entries_map(s.drop_last()) =~= entries_map(s.drop_last()).insert(
            s[i].0@,
            s[i].1@,
        ).remove(s[i].0@));
    } else {
        assert(entries_distinct(s.drop_last())) by {
            assert(forall|a: int, b: int|
                0 <= a < b < s.drop_last().len() ==> s.drop_last()[a].0@ != s.drop_last()[b].0@);
        }
        assert(t.drop_last() =~= s.drop_last().remove(i));
        assert(s.drop_last()[i] == s[i]);
        lemma_entries_map_remove(s.drop_last(), i);
        assert(t.last() == s.last());
        assert(entries_map(t) == entries_map(s.drop_last()).remove(s[i].0@).insert(
            s.last().0@,
            s.last().1@,
        ));
        assert(s[i].0@ != s.last().0@);
        assert(entries_map(s.drop_last()).remove(s[i].0@).insert(s.last().0@, s.last().1@)
            =~= entries_map(s.drop_last()).insert(s.last().0@, s.last().1@).remove(s[i].0@));
    }
}

} // verus!
