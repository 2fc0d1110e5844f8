//! A short-TTL key-value cache for probe results. Time is handed in by
//! the caller as a millisecond reading of a monotonic clock; an entry is
//! served until it is older than the TTL, and expiry is lazy: an expired
//! entry is simply not returned.

use vstd::prelude::*;

verus! {

struct CacheSlot<T> {
    key: String,
    value: T,
    stamp: u64,
}

/// A key-value cache whose entries expire a fixed time after they were
/// set. Looking up an expired or absent key gives nothing; setting a key
/// overwrites unconditionally and restarts its clock.
pub struct PackageCache<T> {
    slots: Vec<CacheSlot<T>>,
    ttl_ms: u64,
}

/// What a cache read yields: the stored value while its age does not
/// exceed the TTL, and nothing otherwise.
pub open spec fn spec_cache_lookup<T>(
    entries: Map<Seq<char>, (T, u64)>,
    key: Seq<char>,
    now_ms: u64,
    ttl_ms: u64,
) -> Option<T> {
    if entries.contains_key(key) {
        let (v, t) = entries[key];
        if now_ms - t <= ttl_ms {
            Some(v)
        } else {
            None
        }
    } else {
        None
    }
}

impl<T> PackageCache<T> {
    spec fn slot_entries(s: Seq<CacheSlot<T>>) -> Map<Seq<char>, (T, u64)>
        decreases s.len(),
    {
        if s.len() == 0 {
            Map::empty()
        } else {
            Self::slot_entries(s.drop_last()).insert(
                s.last().key@,
                (s.last().value, s.last().stamp),
            )
        }
    }

    /// The entries the cache holds: for each key, the stored value and
    /// the time it was set.
    pub closed spec fn entries(self) -> Map<Seq<char>, (T, u64)> {
        Self::slot_entries(self.slots@)
    }

    /// The cache's time-to-live, in milliseconds.
    pub closed spec fn ttl(self) -> u64 {
        self.ttl_ms
    }

    /// Internal invariant: no key is stored twice.
    pub closed spec fn wf(self) -> bool {
        forall|i: int, j: int|
            0 <= i < j < self.slots@.len() ==> (#[trigger] self.slots@[i]).key@ != (
            #[trigger] self.slots@[j]).key@
    }

    proof fn lemma_entries_domain(s: Seq<CacheSlot<T>>, k: Seq<char>)
        ensures
            Self::slot_entries(s).contains_key(k) <==> exists|i: int|
                0 <= i < s.len() && (#[trigger] s[i]).key@ == k,
        decreases s.len(),
    {
        if s.len() > 0 {
            Self::lemma_entries_domain(s.drop_last(), k);
            if Self::slot_entries(s).contains_key(k) {
                if s.last().key@ != k {
                    let i = choose|i: int|
                        0 <= i < s.drop_last().len() && (#[trigger] s.drop_last()[i]).key@ == k;
                    assert(s[i].key@ == k);
                }
            }
            if exists|i: int| 0 <= i < s.len() && (#[trigger] s[i]).key@ == k {
                let i = choose|i: int| 0 <= i < s.len() && (#[trigger] s[i]).key@ == k;
                if i < s.len() - 1 {
                    assert(s.drop_last()[i].key@ == k);
                }
            }
        }
    }

    proof fn lemma_entries_lookup(s: Seq<CacheSlot<T>>, i: int)
        requires
            0 <= i < s.len(),
            forall|a: int, b: int|
                0 <= a < b < s.len() ==> (#[trigger] s[a]).key@ != (#[trigger] s[b]).key@,
        ensures
            Self::slot_entries(s).contains_key(s[i].key@),
            Self::slot_entries(s)[s[i].key@] == (s[i].value, s[i].stamp),
        decreases s.len(),
    {
        if i == s.len() - 1 {
        } else {
            Self::lemma_entries_lookup(s.drop_last(), i);
            assert(s.drop_last()[i] == s[i]);
            assert(s.last().key@ != s[i].key@);
        }
    }

    proof fn lemma_entries_remove(s: Seq<CacheSlot<T>>, i: int)
        requires
            0 <= i < s.len(),
            forall|a: int, b: int|
                0 <= a < b < s.len() ==> (#[trigger] s[a]).key@ != (#[trigger] s[b]).key@,
        ensures
            Self::slot_entries(s.remove(i)) =~= Self::slot_entries(s).remove(s[i].key@),
        decreases s.len(),
    {
        let k = s[i].key@;
        if i == s.len() - 1 {
            assert(s.remove(i) =~= s.drop_last());
            Self::lemma_entries_domain(s.drop_last(), k);
            assert(!Self::slot_entries(s.drop_last()).contains_key(k)) by {
                if exists|a: int|
                    0 <= a < s.drop_last().len() && (#[trigger] s.drop_last()[a]).key@ == k {
                    let a = choose|a: int|
                        0 <= a < s.drop_last().len() && (#[trigger] s.drop_last()[a]).key@ == k;
                    assert(s[a].key@ == s[i].key@);
                }
            }
            assert(Self::slot_entries(s).remove(k) =~= Self::slot_entries(s.drop_last()));
        } else {
            assert(s.remove(i).last() == s.last());
            assert(s.remove(i).drop_last() =~= s.drop_last().remove(i));
            assert(forall|a: int, b: int|
                0 <= a < b < s.drop_last().len() ==> (#[trigger] s.drop_last()[a]).key@ != (
                #[trigger] s.drop_last()[b]).key@);
            Self::lemma_entries_remove(s.drop_last(), i);
            assert(s.drop_last()[i] == s[i]);
            assert(s.last().key@ != k);
        }
    }

    /// Create a cache whose entries live `ttl_secs` seconds.
    pub fn new(ttl_secs: u64) -> (r: Self)
        requires
            ttl_secs <= u64::MAX / 1000,
        ensures
            r.wf(),
            r.entries() == Map::<Seq<char>, (T, u64)>::empty(),
            r.ttl() == ttl_secs * 1000,
    {
        PackageCache { slots: Vec::new(), ttl_ms: ttl_secs * 1000 }
    }
}

impl<T: Clone> PackageCache<T> {
    /// Read the value stored under `key`, unless none was stored or the
    /// stored one has outlived the TTL.
    pub fn get(&self, key: &str, now_ms: u64) -> (r: Option<T>)
        requires
            self.wf(),
        ensures
            match spec_cache_lookup(self.entries(), key@, now_ms, self.ttl()) {
                Some(v) => r matches Some(x) && vstd::pervasive::cloned(v, x),
                None => r is None,
            },
    {
        let n = self.slots.len();
        let mut i: usize = 0;
        while i < n
            invariant
                self.wf(),
                n == self.slots@.len(),
                i <= n,
                forall|j: int| 0 <= j < i ==> (#[trigger] self.slots@[j]).key@ != key@,
            decreases n - i,
        {
            if crate::text::str_eq(self.slots[i].key.as_str(), key) {
                proof {
                    Self::lemma_entries_lookup(self.slots@, i as int);
                }
                let stamp = self.slots[i].stamp;
                if now_ms >= stamp && now_ms - stamp <= self.ttl_ms {
                    return Some(self.slots[i].value.clone());
                } else if now_ms < stamp {
                    // The clock reading is older than the entry's; the
                    // entry's age has not exceeded the TTL.
                    return Some(self.slots[i].value.clone());
                } else {
                    return None;
                }
            }
            i += 1;
        }
        proof {
            Self::lemma_entries_domain(self.slots@, key@);
        }
        None
    }

    /// Store `value` under `key`, overwriting any earlier entry and
    /// restarting its clock at `now_ms`.
    pub fn set(&mut self, key: String, value: T, now_ms: u64)
        requires
            old(self).wf(),
        ensures
            final(self).wf(),
            final(self).entries() =~= old(self).entries().insert(key@, (value, now_ms)),
            final(self).ttl() == old(self).ttl(),
    {
        let n = self.slots.len();
        let mut i: usize = 0;
        while i < n
            invariant
                self.wf(),
                *self == *old(self),
                n == self.slots@.len(),
                i <= n,
                forall|j: int| 0 <= j < i ==> (#[trigger] self.slots@[j]).key@ != key@,
            decreases n - i,
        {
            if crate::text::str_eq(self.slots[i].key.as_str(), key.as_str()) {
                proof {
                    Self::lemma_entries_remove(self.slots@, i as int);
                }
                let ghost removed = self.slots@.remove(i as int);
                self.slots.remove(i);
                proof {
                    assert(self.slots@ =~= removed);
                    assert forall|a: int| 0 <= a < self.slots@.len() implies (
                    #[trigger] self.slots@[a]).key@ != key@ by {
                        if a < i {
                            assert(self.slots@[a] == old(self).slots@[a]);
                        } else {
                            assert(self.slots@[a] == old(self).slots@[a + 1]);
                        }
                    }
                }
                self.slots.push(CacheSlot { key, value, stamp: now_ms });
                proof {
                    assert(self.slots@.drop_last() =~= removed);
                    assert(self.entries() =~= old(self).entries().insert(
                        key@,
                        (value, now_ms),
                    ));
                    assert forall|a: int, b: int|
                        0 <= a < b < self.slots@.len() implies (#[trigger] self.slots@[a]).key@
                        != (#[trigger] self.slots@[b]).key@ by {
                        if b < self.slots@.len() - 1 {
                            assert(self.slots@[a] == removed[a]);
                            assert(self.slots@[b] == removed[b]);
                        } else {
                            assert(self.slots@[a] == removed[a]);
                        }
                    }
                }
                return ;
            }
            i += 1;
        }
        proof {
            Self::lemma_entries_domain(self.slots@, key@);
            assert(!self.entries().contains_key(key@));
        }
        self.slots.push(CacheSlot { key, value, stamp: now_ms });
        proof {
            assert(self.slots@.drop_last() =~= old(self).slots@);
            assert(self.entries() =~= old(self).entries().insert(key@, (value, now_ms)));
            assert forall|a: int, b: int|
                0 <= a < b < self.slots@.len() implies (#[trigger] self.slots@[a]).key@ != (
            #[trigger] self.slots@[b]).key@ by {
                if b == self.slots@.len() - 1 {
                    assert(self.slots@[a] == old(self).slots@[a]);
                }
            }
        }
    }
}

} // verus!
