//! The two cache regions of the cache decorator: a content cache holding
//! full byte payloads and a presence index tracking bare existence. Both are
//! capacity-bounded and displace the least-recently-used entry when full.
//! Recency order is the entry order, most recent last.

use vstd::prelude::*;

use crate::blobstore::BlobMap;
use crate::util::bytes_eq;
use crate::util::entries_distinct;
use crate::util::entries_map;
use crate::util::lemma_entries_map_contains;
use crate::util::lemma_entries_map_index;
use crate::util::lemma_entries_map_push;
use crate::util::lemma_entries_map_remove;

verus! {

/// A capacity-bounded map of byte keys to byte payloads with
/// least-recently-used displacement.
pub struct LruCache {
    entries: Vec<(Vec<u8>, Vec<u8>)>,
    cap: usize,
}

impl LruCache {
    /// The cached bindings.
    pub closed spec fn view(&self) -> BlobMap {
        entries_map(self.entries@)
    }

    /// The configured capacity, in entries.
    pub closed spec fn capacity(&self) -> usize {
        self.cap
    }

    /// The key that would be displaced next: the least recently used.
    pub closed spec fn lru_key(&self) -> Seq<u8> {
        self.entries@[0].0@
    }

    pub closed spec fn wf(&self) -> bool {
        &&& entries_distinct(self.entries@)
        &&& self.entries@.len() <= self.cap
    }

    /// An empty region of the given capacity.
    pub fn new(cap: usize) -> (r: LruCache)
        ensures
            r.wf(),
            r.capacity() == cap,
            r.view() == Map::<Seq<u8>, Seq<u8>>::empty(),
    {
        let r = LruCache { entries: Vec::new(), cap };
        assert(r.view() =~= Map::<Seq<u8>, Seq<u8>>::empty());
        r
    }

    /// Index of the entry holding `key`, if any.
    fn find(&self, key: &Vec<u8>) -> (r: Option<usize>)
        requires
            self.wf(),
        ensures
            match r {
                Some(i) => i < self.entries@.len() && self.entries@[i as int].0@ == key@
                    && self.view().contains_key(key@) && self.view()[key@]
                    == self.entries@[i as int].1@,
                None => !self.view().contains_key(key@),
            },
    {
        let mut i: usize = 0;
        while i < self.entries.len()
            invariant
                self.wf(),
                i <= self.entries@.len(),
                forall|j: int| 0 <= j < i ==> self.entries@[j].0@ != key@,
            decreases self.entries@.len() - i,
        {
            if bytes_eq(self.entries[i].0.as_slice(), key.as_slice()) {
                proof {
                    lemma_entries_map_index(self.entries@, i as int);
                }
                return Some(i);
            }
            i += 1;
        }
        proof {
            lemma_entries_map_contains(self.entries@, key@);
        }
        None
    }

    /// Whether `key` is cached, without touching recency.
    pub fn contains(&self, key: &Vec<u8>) -> (r: bool)
        requires
            self.wf(),
        ensures
            r == self.view().contains_key(key@),
    {
        self.find(key).is_some()
    }

    /// Read `key` and mark it most recently used.
    pub fn get_touch(&mut self, key: &Vec<u8>) -> (r: Option<Vec<u8>>)
        requires
            old(self).wf(),
        ensures
            final(self).wf(),
            final(self).view() == old(self).view(),
            final(self).capacity() == old(self).capacity(),
            match r {
                Some(v) => old(self).view().contains_key(key@) && v@ == old(self).view()[key@],
                None => !old(self).view().contains_key(key@),
            },
    {
        match self.find(key) {
            Some(i) => {
                let ghost s = self.entries@;
                proof {
                    lemma_entries_map_remove(s, i as int);
                    lemma_entries_map_index(s, i as int);
                }
                let entry = self.entries.remove(i);
                let value = entry.1.clone();
                let ghost moved = entry;
                self.entries.push(entry);
                proof {
                    lemma_entries_map_push(s.remove(i as int), moved.0, moved.1);
                    assert(entries_distinct(self.entries@)) by {
                        assert(forall|a: int|
                            0 <= a < s.remove(i as int).len() ==> s.remove(i as int)[a].0@
                                != s[i as int].0@);
                    }
                    assert(self.view() =~= old(self).view());
                }
                Some(value)
            },
            None => None,
        }
    }

    /// Cache `key` with `value`, displacing the least-recently-used entry if
    /// the region is full; a zero-capacity region caches nothing.
    pub fn insert(&mut self, key: &Vec<u8>, value: Vec<u8>) -> (evicted: Option<Vec<u8>>)
        requires
            old(self).wf(),
        ensures
            final(self).wf(),
            final(self).capacity() == old(self).capacity(),
            old(self).capacity() == 0 ==> final(self).view() == old(self).view() && evicted
                is None && !final(self).view().contains_key(key@),
            old(self).capacity() > 0 ==> {
                &&& final(self).view().contains_key(key@) && final(self).view()[key@] == value@
                &&& forall|k: Seq<u8>|
                    k != key@ && #[trigger] final(self).view().contains_key(k) ==> old(
                        self,
                    ).view().contains_key(k) && final(self).view()[k] == old(self).view()[k]
                &&& match evicted {
                    Some(ev) => !old(self).view().contains_key(key@) && ev@ == old(self).lru_key()
                        && final(self).view() == old(self).view().remove(ev@).insert(key@, value@),
                    None => final(self).view() == old(self).view().insert(key@, value@),
                }
            },
    {
        if self.cap == 0 {
            proof {
                assert(self.entries@.len() == 0);
                lemma_entries_map_contains(self.entries@, key@);
            }
            return None;
        }
        let ghost pre = self.view();
        match self.find(key) {
            Some(i) => {
                let ghost s = self.entries@;
                proof {
                    lemma_entries_map_remove(s, i as int);
                    lemma_entries_map_index(s, i as int);
                }
                let entry = self.entries.remove(i);
                let ghost moved_key = entry.0;
                let ghost moved_value = value;
                self.entries.push((entry.0, value));
                proof {
                    lemma_entries_map_push(s.remove(i as int), moved_key, moved_value);
                    assert(entries_distinct(self.entries@)) by {
                        assert(forall|a: int|
                            0 <= a < s.remove(i as int).len() ==> s.remove(i as int)[a].0@
                                != s[i as int].0@);
                    }
                    assert(self.view() =~= pre.insert(key@, value@));
                }
                None
            },
            None => {
                let ghost s0 = self.entries@;
                let evicted: Option<Vec<u8>> = if self.entries.len() == self.cap {
                    proof {
                        lemma_entries_map_remove(s0, 0);
                        lemma_entries_map_index(s0, 0);
                    }
                    let victim = self.entries.remove(0);
                    Some(victim.0)
                } else {
                    None
                };
                let ghost s1 = self.entries@;
                proof {
                    assert(forall|a: int| 0 <= a < s1.len() ==> s1[a].0@ != key@) by {
                        lemma_entries_map_contains(s0, key@);
                        assert(forall|j: int| 0 <= j < s0.len() ==> s0[j].0@ != key@);
                        if s1.len() < s0.len() {
                            assert(forall|a: int| 0 <= a < s1.len() ==> s1[a] == s0[a + 1]);
                        }
                    }
                }
                let cloned_key = key.clone();
                let ghost moved_key = cloned_key;
                let ghost moved_value = value;
                self.entries.push((cloned_key, value));
                proof {
                    lemma_entries_map_push(s1, moved_key, moved_value);
                    assert(entries_distinct(self.entries@)) by {
                        assert(forall|a: int| 0 <= a < s1.len() ==> s1[a].0@ != key@);
                    }
                    match evicted {
                        Some(_) => {
                            assert(self.view() =~= pre.remove(old(self).lru_key()).insert(
                                key@,
                                value@,
                            ));
                        },
                        None => {
                            assert(self.view() =~= pre.insert(key@, value@));
                        },
                    }
                }
                evicted
            },
        }
    }

    /// Drop every cached entry.
    pub fn clear(&mut self)
        ensures
            final(self).wf(),
            final(self).capacity() == old(self).capacity(),
            final(self).view() == Map::<Seq<u8>, Seq<u8>>::empty(),
    {
        self.entries.clear();
        assert(self.view() =~= Map::<Seq<u8>, Seq<u8>>::empty());
    }
}

/// A capacity-bounded set of byte keys known to exist, with
/// least-recently-used displacement.
pub struct LruSet {
    entries: Vec<Vec<u8>>,
    cap: usize,
}

impl LruSet {
    /// Whether `k` is in the index.
    pub closed spec fn has(&self, k: Seq<u8>) -> bool {
        exists|i: int| 0 <= i < self.entries@.len() && self.entries@[i]@ == k
    }

    /// The configured capacity, in entries.
    pub closed spec fn capacity(&self) -> usize {
        self.cap
    }

    pub closed spec fn wf(&self) -> bool {
        &&& forall|i: int, j: int|
            0 <= i < j < self.entries@.len() ==> self.entries@[i]@ != self.entries@[j]@
        &&& self.entries@.len() <= self.cap
    }

    /// An empty index of the given capacity.
    pub fn new(cap: usize) -> (r: LruSet)
        ensures
            r.wf(),
            r.capacity() == cap,
            forall|k: Seq<u8>| !r.has(k),
    {
        LruSet { entries: Vec::new(), cap }
    }

    /// Index of `key`, if present.
    fn find(&self, key: &Vec<u8>) -> (r: Option<usize>)
        requires
            self.wf(),
        ensures
            match r {
                Some(i) => i < self.entries@.len() && self.entries@[i as int]@ == key@ && self.has(
                    key@,
                ),
                None => !self.has(key@),
            },
    {
        let mut i: usize = 0;
        while i < self.entries.len()
            invariant
                self.wf(),
                i <= self.entries@.len(),
                forall|j: int| 0 <= j < i ==> self.entries@[j]@ != key@,
            decreases self.entries@.len() - i,
        {
            if bytes_eq(self.entries[i].as_slice(), key.as_slice()) {
                return Some(i);
            }
            i += 1;
        }
        None
    }

    /// Whether `key` is in the index.
    pub fn contains(&self, key: &Vec<u8>) -> (r: bool)
        requires
            self.wf(),
        ensures
            r == self.has(key@),
    {
        self.find(key).is_some()
    }

    /// Mark `key` as known present, displacing the least-recently-used key if
    /// the region is full; a zero-capacity index records nothing.
    pub fn insert(&mut self, key: &Vec<u8>)
        requires
            old(self).wf(),
        ensures
            final(self).wf(),
            final(self).capacity() == old(self).capacity(),
            old(self).capacity() == 0 ==> *final(self) == *old(self),
            old(self).capacity() > 0 ==> final(self).has(key@),
            forall|k: Seq<u8>| k != key@ && #[trigger] final(self).has(k) ==> old(self).has(k),
    {
        if self.cap == 0 {
            return ;
        }
        match self.find(key) {
            Some(i) => {
                let ghost s = self.entries@;
                let entry = self.entries.remove(i);
                let ghost moved = entry;
                self.entries.push(entry);
                proof {
                    assert(self.entries@.last()@ == key@);
                    assert(self.has(key@)) by {
                        assert(self.entries@[self.entries@.len() - 1]@ == key@);
                    }
                    assert forall|k: Seq<u8>| k != key@ && #[trigger] self.has(k) implies old(
                        self,
                    ).has(k) by {
                        let w = choose|t: int|
                            0 <= t < self.entries@.len() && self.entries@[t]@ == k;
                        if w < self.entries@.len() - 1 {
                            assert(s.remove(i as int)[w]@ == k);
                            if w < i {
                                assert(s[w]@ == k);
                            } else {
                                assert(s[w + 1]@ == k);
                            }
                        }
                    }
                    assert(forall|a: int, b: int|
                        0 <= a < b < self.entries@.len() ==> self.entries@[a]@
                            != self.entries@[b]@) by {
                        assert(forall|a: int|
                            0 <= a < s.remove(i as int).len() ==> s.remove(i as int)[a]@
                                != s[i as int]@);
                    }
                }
            },
            None => {
                if self.entries.len() == self.cap {
                    let ghost s0 = self.entries@;
                    let _victim = self.entries.remove(0);
                    proof {
                        assert(forall|a: int|
                            0 <= a < self.entries@.len() ==> self.entries@[a] == s0[a + 1]);
                    }
                }
                let ghost s1 = self.entries@;
                let cloned_key = key.clone();
                self.entries.push(cloned_key);
                proof {
                    assert(self.entries@.last()@ == key@);
                    assert(self.has(key@)) by {
                        assert(self.entries@[self.entries@.len() - 1]@ == key@);
                    }
                    assert forall|k: Seq<u8>| k != key@ && #[trigger] self.has(k) implies old(
                        self,
                    ).has(k) by {
                        let w = choose|t: int|
                            0 <= t < self.entries@.len() && self.entries@[t]@ == k;
                        if w < self.entries@.len() - 1 {
                            assert(s1[w]@ == k);
                            if old(self).capacity() == old(self).entries@.len() {
                                assert(old(self).entries@[w + 1]@ == k);
                            } else {
                                assert(old(self).entries@[w]@ == k);
                            }
                        }
                    }
                    assert(forall|a: int, b: int|
                        0 <= a < b < self.entries@.len() ==> self.entries@[a]@
                            != self.entries@[b]@) by {
                        assert(forall|a: int| 0 <= a < s1.len() ==> s1[a]@ != key@);
                    }
                }
            },
        }
    }

    /// Drop every recorded key.
    pub fn clear(&mut self)
        ensures
            final(self).wf(),
            final(self).capacity() == old(self).capacity(),
            forall|k: Seq<u8>| !final(self).has(k),
    {
        self.entries.clear();
    }
}

} // verus!
