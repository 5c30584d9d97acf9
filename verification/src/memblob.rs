//! The in-memory physical backend: an association list of byte-keyed blobs
//! with distinct keys. It counts the calls that reach it, so tests can watch
//! whether a decorator short-circuited, and it can carry a schedule of
//! injected write faults for exercising durability under failure.

use vstd::prelude::*;

use crate::blobstore::BlobMap;
use crate::blobstore::Blobstore;
use crate::types::CoreContext;
use crate::types::Presence;
use crate::types::PutBehaviour;
use crate::types::PutStatus;
use crate::types::StorageError;
use crate::util::bytes_eq;
use crate::util::entries_distinct;
use crate::util::entries_map;
use crate::util::lemma_entries_map_contains;
use crate::util::lemma_entries_map_index;
use crate::util::lemma_entries_map_push;
use crate::util::lemma_entries_map_remove;

verus! {

/// A counter bumped on every call, saturating instead of wrapping.
pub open spec fn sat_inc(c: u64) -> u64 {
    if c < u64::MAX {
        (c + 1) as u64
    } else {
        c
    }
}

/// In-memory backend with call counters and an injected-fault schedule.
pub struct Memblob {
    entries: Vec<(Vec<u8>, Vec<u8>)>,
    put_faults: Vec<bool>,
    fault_cursor: usize,
    gets: u64,
    puts: u64,
    checks: u64,
}

impl Memblob {
    /// How many `get` calls have reached this backend.
    pub closed spec fn gets_count(&self) -> u64 {
        self.gets
    }

    /// How many `put` calls have reached this backend.
    pub closed spec fn puts_count(&self) -> u64 {
        self.puts
    }

    /// How many `is_present` calls have reached this backend.
    pub closed spec fn checks_count(&self) -> u64 {
        self.checks
    }

    /// Read the `get` counter.
    pub fn read_gets(&self) -> (r: u64)
        ensures
            r == self.gets_count(),
    {
        self.gets
    }

    /// Read the `put` counter.
    pub fn read_puts(&self) -> (r: u64)
        ensures
            r == self.puts_count(),
    {
        self.puts
    }

    /// Read the `is_present` counter.
    pub fn read_checks(&self) -> (r: u64)
        ensures
            r == self.checks_count(),
    {
        self.checks
    }

    /// An empty backend with no scheduled faults.
    pub fn new() -> (r: Memblob)
        ensures
            r.wf(),
            r.view() == Map::<Seq<u8>, Seq<u8>>::empty(),
            !r.faulty(),
            r.gets_count() == 0 && r.puts_count() == 0 && r.checks_count() == 0,
            forall|t: u64, k: Seq<u8>| !r.put_blocked(t, k),
    {
        let r = Memblob {
            entries: Vec::new(),
            put_faults: Vec::new(),
            fault_cursor: 0,
            gets: 0,
            puts: 0,
            checks: 0,
        };
        assert(r.view() =~= Map::<Seq<u8>, Seq<u8>>::empty());
        r
    }

    /// An empty backend whose next puts consume `faults` in order; a `true`
    /// entry makes that put fail with `IoFailure` without writing.
    pub fn with_faults(faults: Vec<bool>) -> (r: Memblob)
        ensures
            r.wf(),
            r.view() == Map::<Seq<u8>, Seq<u8>>::empty(),
            r.faulty() == exists|i: int| 0 <= i < faults@.len() && faults@[i],
            r.gets_count() == 0 && r.puts_count() == 0 && r.checks_count() == 0,
            forall|t: u64, k: Seq<u8>| !r.put_blocked(t, k),
    {
        let r = Memblob {
            entries: Vec::new(),
            put_faults: faults,
            fault_cursor: 0,
            gets: 0,
            puts: 0,
            checks: 0,
        };
        assert(r.view() =~= Map::<Seq<u8>, Seq<u8>>::empty());
        proof {
            if r.faulty() {
                let i = choose|i: int|
                    r.fault_cursor <= i < r.put_faults@.len() && r.put_faults@[i];
                assert(0 <= i < faults@.len() && faults@[i]);
            }
            if exists|i: int| 0 <= i < faults@.len() && faults@[i] {
                let i = choose|i: int| 0 <= i < faults@.len() && faults@[i];
                assert(r.fault_cursor <= i < r.put_faults@.len() && r.put_faults@[i]);
            }
        }
        r
    }

    /// Read-only lookup for observation; does not count as a backend read.
    pub fn probe(&self, key: &Vec<u8>) -> (r: Option<Vec<u8>>)
        requires
            self.wf(),
        ensures
            match r {
                Some(v) => self.view().contains_key(key@) && v@ == self.view()[key@],
                None => !self.view().contains_key(key@),
            },
    {
        match self.find(key) {
            Some(i) => {
                proof {
                    lemma_entries_map_index(self.entries@, i as int);
                }
                Some(self.entries[i].1.clone())
            },
            None => {
                proof {
                    lemma_entries_map_contains(self.entries@, key@);
                }
                None
            },
        }
    }

    /// Index of the entry holding `key`, if any.
    fn find(&self, key: &Vec<u8>) -> (r: Option<usize>)
        requires
            self.wf(),
        ensures
            match r {
                Some(i) => i < self.entries@.len() && self.entries@[i as int].0@ == key@,
                None => forall|j: int| 0 <= j < self.entries@.len() ==> self.entries@[j].0@ != key@,
            },
    {
        let mut i: usize = 0;
        while i < self.entries.len()
            invariant
                i <= self.entries@.len(),
                forall|j: int| 0 <= j < i ==> self.entries@[j].0@ != key@,
            decreases self.entries@.len() - i,
        {
            if bytes_eq(self.entries[i].0.as_slice(), key.as_slice()) {
                return Some(i);
            }
            i += 1;
        }
        None
    }
}

impl Default for Memblob {
    /// Same as `Memblob::new`.
    fn default() -> (r: Memblob)
        ensures
            r.wf(),
            r.view() == Map::<Seq<u8>, Seq<u8>>::empty(),
            !r.faulty(),
            r.gets_count() == 0 && r.puts_count() == 0 && r.checks_count() == 0,
            forall|t: u64, k: Seq<u8>| !r.put_blocked(t, k),
    {
        Memblob::new()
    }
}

impl Blobstore for Memblob {
    closed spec fn view(&self) -> BlobMap {
        entries_map(self.entries@)
    }

    closed spec fn wf(&self) -> bool {
        &&& entries_distinct(self.entries@)
        &&& self.fault_cursor <= self.put_faults@.len()
    }

    closed spec fn faulty(&self) -> bool {
        exists|i: int| self.fault_cursor <= i < self.put_faults@.len() && self.put_faults@[i]
    }

    closed spec fn put_blocked(&self, now_us: u64, key: Seq<u8>) -> bool {
        false
    }

    fn put(
        &mut self,
        ctx: &CoreContext,
        key: &Vec<u8>,
        value: Vec<u8>,
        behaviour: PutBehaviour,
    ) -> (r: Result<PutStatus, StorageError>)
        ensures
            final(self).puts_count() == sat_inc(old(self).puts_count()),
            final(self).gets_count() == old(self).gets_count(),
            final(self).checks_count() == old(self).checks_count(),
    {
        if self.puts < u64::MAX {
            self.puts = self.puts + 1;
        }
        if self.fault_cursor < self.put_faults.len() {
            let f = self.put_faults[self.fault_cursor];
            self.fault_cursor = self.fault_cursor + 1;
            if f {
                assert(old(self).faulty()) by {
                    assert(old(self).put_faults@[old(self).fault_cursor as int]);
                }
                return Err(StorageError::IoFailure);
            }
        }
        let ghost pre = self.view();
        match self.find(key) {
            Some(i) => {
                proof {
                    lemma_entries_map_index(self.entries@, i as int);
                }
                if bytes_eq(self.entries[i].1.as_slice(), value.as_slice()) {
                    proof {
                        assert(pre.insert(key@, value@) =~= pre);
                    }
                    Ok(PutStatus::Deduped)
                } else if behaviour.overwrites() {
                    let ghost s = self.entries@;
                    proof {
                        lemma_entries_map_remove(s, i as int);
                    }
                    let old_entry = self.entries.remove(i);
                    let ghost moved_key = old_entry.0;
                    let ghost moved_value = value;
                    self.entries.push((old_entry.0, value));
                    proof {
                        lemma_entries_map_push(s.remove(i as int), moved_key, moved_value);
                        assert(entries_distinct(self.entries@)) by {
                            assert(forall|a: int, b: int|
                                0 <= a < b < s.remove(i as int).len() ==> s.remove(i as int)[a].0@
                                    != s.remove(i as int)[b].0@);
                            assert(forall|a: int|
                                0 <= a < s.remove(i as int).len() ==> s.remove(i as int)[a].0@
                                    != key@);
                        }
                        assert(self.view() =~= pre.insert(key@, value@));
                    }
                    Ok(PutStatus::Overwrote)
                } else {
                    Err(StorageError::AlreadyPresent)
                }
            },
            None => {
                proof {
                    lemma_entries_map_contains(self.entries@, key@);
                }
                let cloned_key = key.clone();
                let ghost s = self.entries@;
                let ghost moved_key = cloned_key;
                let ghost moved_value = value;
                self.entries.push((cloned_key, value));
                proof {
                    lemma_entries_map_push(s, moved_key, moved_value);
                    assert(entries_distinct(self.entries@));
                }
                Ok(PutStatus::Inserted)
            },
        }
    }

    fn get(&mut self, ctx: &CoreContext, key: &Vec<u8>) -> (r: Result<
        Option<Vec<u8>>,
        StorageError,
    >)
        ensures
            final(self).gets_count() == sat_inc(old(self).gets_count()),
            final(self).puts_count() == old(self).puts_count(),
            final(self).checks_count() == old(self).checks_count(),
            final(self).faulty() == old(self).faulty(),
            r is Ok,
    {
        if self.gets < u64::MAX {
            self.gets = self.gets + 1;
        }
        match self.find(key) {
            Some(i) => {
                proof {
                    lemma_entries_map_index(self.entries@, i as int);
                }
                Ok(Some(self.entries[i].1.clone()))
            },
            None => {
                proof {
                    lemma_entries_map_contains(self.entries@, key@);
                }
                Ok(None)
            },
        }
    }

    fn is_present(&mut self, ctx: &CoreContext, key: &Vec<u8>) -> (r: Result<
        Presence,
        StorageError,
    >)
        ensures
            final(self).checks_count() == sat_inc(old(self).checks_count()),
            final(self).gets_count() == old(self).gets_count(),
            final(self).puts_count() == old(self).puts_count(),
            final(self).faulty() == old(self).faulty(),
            r is Ok,
            !(r == Ok::<Presence, StorageError>(Presence::MaybePresent)),
    {
        if self.checks < u64::MAX {
            self.checks = self.checks + 1;
        }
        match self.find(key) {
            Some(i) => {
                proof {
                    lemma_entries_map_index(self.entries@, i as int);
                }
                Ok(Presence::Present)
            },
            None => {
                proof {
                    lemma_entries_map_contains(self.entries@, key@);
                }
                Ok(Presence::Absent)
            },
        }
    }
}

} // verus!
