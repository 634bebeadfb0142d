//! In-memory stylesheet cache with a time-to-live and a capacity bound,
//! evicting the least-recently-inserted entry when full.
//!
//! Time is an explicit millisecond stamp supplied by the caller, so the
//! cache's behaviour is a pure function of its inputs.

use vstd::prelude::*;
use crate::dom::bytes_eq;
use crate::css::sat_add;

verus! {

/// One cached stylesheet: its URL, its text, and when it was inserted.
#[derive(Debug)]
pub struct CacheEntry {
    pub key: Vec<u8>,
    pub value: Vec<u8>,
    pub stamp: u64,
}

/// The model of one entry: (key, value, insertion stamp).
pub open spec fn entry_model(e: CacheEntry) -> (Seq<u8>, Seq<u8>, u64) {
    (e.key@, e.value@, e.stamp)
}

pub open spec fn entries_model(s: Seq<CacheEntry>) -> Seq<(Seq<u8>, Seq<u8>, u64)> {
    Seq::new(s.len(), |i: int| entry_model(s[i]))
}

/// The position of `key` in the entry list, if present.
pub open spec fn cache_find(s: Seq<(Seq<u8>, Seq<u8>, u64)>, key: Seq<u8>) -> Option<int>
    decreases s.len(),
{
    if s.len() == 0 {
        None
    } else if s[0].0 == key {
        Some(0)
    } else {
        match cache_find(s.subrange(1, s.len() as int), key) {
            None => None,
            Some(i) => Some(i + 1),
        }
    }
}

proof fn lemma_cache_find_scan(s: Seq<(Seq<u8>, Seq<u8>, u64)>, key: Seq<u8>, ix: int)
    requires
        0 <= ix <= s.len(),
        forall|k: int| 0 <= k < ix ==> (#[trigger] s[k]).0 != key,
        ix == s.len() || s[ix].0 == key,
    ensures
        cache_find(s, key) == if ix == s.len() {
            None::<int>
        } else {
            Some(ix)
        },
    decreases s.len(),
{
    if s.len() > 0 && ix > 0 {
        let tail = s.subrange(1, s.len() as int);
        assert(forall|k: int| 0 <= k < tail.len() ==> #[trigger] tail[k] == s[k + 1]);
        lemma_cache_find_scan(tail, key, ix - 1);
    }
}

/// An entry is fresh at `now` while no more than `ttl` ms have passed since
/// it was inserted.
pub open spec fn entry_fresh(stamp: u64, now: u64, ttl: u64) -> bool {
    now <= sat_add(stamp, ttl)
}

/// A capacity-bounded stylesheet cache with time-to-live, oldest entries
/// first.
#[derive(Debug)]
pub struct CssCache {
    pub entries: Vec<CacheEntry>,
    pub capacity: usize,
    pub ttl_ms: u64,
}

impl View for CssCache {
    type V = Seq<(Seq<u8>, Seq<u8>, u64)>;

    open spec fn view(&self) -> Seq<(Seq<u8>, Seq<u8>, u64)> {
        entries_model(self.entries@)
    }
}

impl CssCache {
    /// Keys unique; never more entries than the capacity allows (one, when
    /// the capacity is zero).
    pub open spec fn wf(&self) -> bool {
        &&& forall|a: int, b: int|
            0 <= a < b < self@.len() ==> (#[trigger] self@[a]).0 != (#[trigger] self@[b]).0
        &&& (self@.len() <= self.capacity || self@.len() <= 1)
    }

    /// An empty cache with the given capacity and time-to-live.
    pub fn new(capacity: usize, ttl_ms: u64) -> (c: CssCache)
        ensures
            c.wf(),
            c@.len() == 0,
            c.capacity == capacity,
            c.ttl_ms == ttl_ms,
    {
        CssCache { entries: Vec::new(), capacity, ttl_ms }
    }

    /// The position of `key` among the entries, if present.
    fn find_key(&self, key: &[u8]) -> (r: Option<usize>)
        ensures
            match r {
                Some(i) => i < self@.len() && cache_find(self@, key@) == Some(i as int),
                None => cache_find(self@, key@) is None,
            },
    {
        let n = self.entries.len();
        let mut i: usize = 0;
        while i < n
            invariant
                i <= n,
                n == self.entries@.len(),
                forall|k: int| 0 <= k < i ==> (#[trigger] self@[k]).0 != key@,
            decreases n - i,
        {
            if bytes_eq(self.entries[i].key.as_slice(), key) {
                proof {
                    lemma_cache_find_scan(self@, key@, i as int);
                }
                return Some(i);
            }
            i = i + 1;
        }
        proof {
            lemma_cache_find_scan(self@, key@, n as int);
        }
        None
    }

    /// Look a URL up at time `now`: a fresh entry's text is returned; an
    /// expired one is removed and reported missing.
    pub fn get(&mut self, key: &[u8], now: u64) -> (r: Option<Vec<u8>>)
        requires
            old(self).wf(),
        ensures
            final(self).wf(),
            final(self).capacity == old(self).capacity,
            final(self).ttl_ms == old(self).ttl_ms,
            match cache_find(old(self)@, key@) {
                None => r is None && final(self)@ == old(self)@,
                Some(i) => {
                    if entry_fresh(old(self)@[i].2, now, old(self).ttl_ms) {
                        r is Some && r.unwrap()@ == old(self)@[i].1 && final(self)@ == old(
                            self,
                        )@
                    } else {
                        r is None && final(self)@ == old(self)@.remove(i)
                    }
                },
            },
    {
        match self.find_key(key) {
            None => None,
            Some(i) => {
                let fresh = now <= self.entries[i].stamp.saturating_add(self.ttl_ms);
                if fresh {
                    let v = self.entries[i].value.clone();
                    proof {
                        assert(v@ =~= self.entries@[i as int].value@);
                    }
                    Some(v)
                } else {
                    let ghost before = self@;
                    self.entries.remove(i);
                    proof {
                        assert(self@ =~= before.remove(i as int));
                        assert forall|a: int, b: int|
                            0 <= a < b < self@.len() implies (#[trigger] self@[a]).0 != (
                        #[trigger] self@[b]).0 by {
                            let a2 = if a < i as int {
                                a
                            } else {
                                a + 1
                            };
                            let b2 = if b < i as int {
                                b
                            } else {
                                b + 1
                            };
                            assert(self@[a] == before[a2] && self@[b] == before[b2]);
                        }
                    }
                    None
                }
            },
        }
    }

    /// Insert or refresh a URL at time `now`: a present key is moved to the
    /// back with the new text and stamp; otherwise, with the cache full, the
    /// oldest entry is evicted first.
    pub fn insert(&mut self, key: Vec<u8>, value: Vec<u8>, now: u64)
        requires
            old(self).wf(),
        ensures
            final(self).wf(),
            final(self).capacity == old(self).capacity,
            final(self).ttl_ms == old(self).ttl_ms,
            match cache_find(old(self)@, key@) {
                Some(i) => final(self)@ == old(self)@.remove(i).push((key@, value@, now)),
                None => {
                    if old(self)@.len() >= old(self).capacity && old(self)@.len() > 0 {
                        final(self)@ == old(self)@.subrange(1, old(self)@.len() as int).push(
                            (key@, value@, now),
                        )
                    } else {
                        final(self)@ == old(self)@.push((key@, value@, now))
                    }
                },
            },
    {
        let ghost km = key@;
        match self.find_key(key.as_slice()) {
            Some(i) => {
                let ghost before = self@;
                self.entries.remove(i);
                proof {
                    lemma_cache_find_some(before, km);
                    assert(before[i as int].0 == km);
                    assert(self@ =~= before.remove(i as int));
                    assert forall|m: int| 0 <= m < self@.len() implies (#[trigger] self@[m]).0
                        != km by {
                        let m2 = if m < i as int {
                            m
                        } else {
                            m + 1
                        };
                        assert(self@[m] == before[m2]);
                        if m2 < i as int {
                            assert(before[m2].0 != before[i as int].0);
                        } else {
                            assert(before[i as int].0 != before[m2].0);
                        }
                    }
                }
                self.push_unique(key, value, now);
                proof {
                    assert(self@ =~= before.remove(i as int).push((km, value@, now)));
                }
            },
            None => {
                let ghost before = self@;
                let n = self.entries.len();
                if n >= self.capacity && n > 0 {
                    self.entries.remove(0);
                    proof {
                        assert(self@ =~= before.subrange(1, before.len() as int));
                        assert forall|m: int| 0 <= m < self@.len() implies (
                        #[trigger] self@[m]).0 != km by {
                            assert(self@[m] == before[m + 1]);
                            lemma_cache_find_none(before, km, m + 1);
                        }
                        assert forall|a: int, b: int|
                            0 <= a < b < self@.len() implies (#[trigger] self@[a]).0 != (
                        #[trigger] self@[b]).0 by {
                            assert(self@[a] == before[a + 1] && self@[b] == before[b + 1]);
                        }
                    }
                    self.push_unique(key, value, now);
                    proof {
                        assert(self@ =~= before.subrange(1, before.len() as int).push(
                            (km, value@, now),
                        ));
                    }
                } else {
                    proof {
                        assert forall|m: int| 0 <= m < self@.len() implies (
                        #[trigger] self@[m]).0 != km by {
                            lemma_cache_find_none(before, km, m);
                        }
                    }
                    self.push_unique(key, value, now);
                    proof {
                        assert(self@ =~= before.push((km, value@, now)));
                    }
                }
            },
        }
    }

    /// Append an entry whose key is absent.
    fn push_unique(&mut self, key: Vec<u8>, value: Vec<u8>, now: u64)
        requires
            forall|a: int, b: int|
                0 <= a < b < old(self)@.len() ==> (#[trigger] old(self)@[a]).0 != (
                #[trigger] old(self)@[b]).0,
            forall|m: int| 0 <= m < old(self)@.len() ==> (#[trigger] old(self)@[m]).0 != key@,
        ensures
            final(self)@ == old(self)@.push((key@, value@, now)),
            final(self).capacity == old(self).capacity,
            final(self).ttl_ms == old(self).ttl_ms,
            forall|a: int, b: int|
                0 <= a < b < final(self)@.len() ==> (#[trigger] final(self)@[a]).0 != (
                #[trigger] final(self)@[b]).0,
    {
        let ghost before = self@;
        let ghost km = key@;
        let ghost vm = value@;
        self.entries.push(CacheEntry { key, value, stamp: now });
        proof {
            assert(self@ =~= before.push((km, vm, now)));
        }
    }
}

proof fn lemma_cache_find_some(s: Seq<(Seq<u8>, Seq<u8>, u64)>, key: Seq<u8>)
    ensures
        match cache_find(s, key) {
            Some(i) => 0 <= i < s.len() && s[i].0 == key,
            None => true,
        },
    decreases s.len(),
{
    if s.len() > 0 && s[0].0 != key {
        let tail = s.subrange(1, s.len() as int);
        lemma_cache_find_some(tail, key);
        if cache_find(tail, key) is Some {
            let i = cache_find(tail, key).unwrap();
            assert(tail[i] == s[i + 1]);
        }
    }
}

proof fn lemma_cache_find_none(s: Seq<(Seq<u8>, Seq<u8>, u64)>, key: Seq<u8>, m: int)
    requires
        cache_find(s, key) is None,
        0 <= m < s.len(),
    ensures
        s[m].0 != key,
    decreases s.len(),
{
    if m > 0 {
        let tail = s.subrange(1, s.len() as int);
        assert(tail[m - 1] == s[m]);
        lemma_cache_find_none(tail, key, m - 1);
    }
}

} // verus!
