//! URL-keyed byte cache with time-bounded freshness.
//!
//! Every entry records the instant it was created and a time-to-live;
//! an entry whose lifetime has elapsed behaves as a miss and is evicted,
//! lazily on [`Cache::get`] and eagerly on [`Cache::clean_up`] (which
//! [`Cache::put`] runs opportunistically). Time is supplied by the caller
//! as a millisecond instant, so freshness is decided the same way under a
//! real clock and under a simulated one.
//!
//! The store is an association list with pairwise-distinct keys; its
//! mathematical model is the finite map from key text to [`EntryModel`].

use vstd::prelude::*;

use crate::urls::ResourceUrl;

verus! {

/// The mathematical content of one cache entry.
pub ghost struct EntryModel {
    pub bytes: Seq<u8>,
    pub created_at: u64,
    pub ttl: u64,
}

impl EntryModel {
    /// The entry's lifetime has elapsed at instant `now`.
    pub open spec fn spec_expired(self, now: u64) -> bool {
        now >= self.created_at + self.ttl
    }
}

/// One cached payload: the bytes, the instant the entry was created, and
/// its time-to-live, both in the caller's clock units.
pub struct CacheItem {
    pub data: Vec<u8>,
    pub created_at: u64,
    pub ttl: u64,
}

impl View for CacheItem {
    type V = EntryModel;

    open spec fn view(&self) -> EntryModel {
        EntryModel { bytes: self.data@, created_at: self.created_at, ttl: self.ttl }
    }
}

impl CacheItem {
    pub fn new(data: Vec<u8>, created_at: u64, ttl: u64) -> (r: CacheItem)
        ensures
            r@ == (EntryModel { bytes: data@, created_at, ttl }),
    {
        CacheItem { data, created_at, ttl }
    }

    pub fn expired(&self, now: u64) -> (r: bool)
        ensures
            r == self@.spec_expired(now),
    {
        now >= self.created_at && now - self.created_at >= self.ttl
    }

    /// A copy whose bytes alias nothing in `self`.
    pub fn duplicate(&self) -> (r: CacheItem)
        ensures
            r@ == self@,
    {
        CacheItem { data: copy_bytes(&self.data), created_at: self.created_at, ttl: self.ttl }
    }
}

/// An owned copy of a byte vector.
pub fn copy_bytes(v: &Vec<u8>) -> (r: Vec<u8>)
    ensures
        r@ == v@,
{
    let mut r: Vec<u8> = Vec::new();
    let mut i: usize = 0;
    while i < v.len()
        invariant
            0 <= i <= v.len(),
            r@ =~= v@.subrange(0, i as int),
        decreases v.len() - i,
    {
        r.push(v[i]);
        i += 1;
    }
    assert(r@ =~= v@);
    r
}

/// The model of a sweep: every entry still alive at `now`, and nothing else.
pub open spec fn sweep_model(m: Map<Seq<char>, EntryModel>, now: u64) -> Map<Seq<char>, EntryModel> {
    Map::new(|k: Seq<char>| m.contains_key(k) && !m[k].spec_expired(now), |k: Seq<char>| m[k])
}

/// The model of a put: insert, then sweep.
pub open spec fn put_model(
    m: Map<Seq<char>, EntryModel>,
    k: Seq<char>,
    entry: EntryModel,
    now: u64,
) -> Map<Seq<char>, EntryModel> {
    sweep_model(m.insert(k, entry), now)
}

/// The model of a lookup at instant `now`: a stale or absent entry is a miss.
pub open spec fn get_model(m: Map<Seq<char>, EntryModel>, k: Seq<char>, now: u64) -> Option<
    EntryModel,
> {
    if m.contains_key(k) && !m[k].spec_expired(now) {
        Some(m[k])
    } else {
        None
    }
}

/// URL-keyed store of previously fetched bytes with TTL-based freshness.
pub struct Cache {
    entries: Vec<(ResourceUrl, CacheItem)>,
}

impl View for Cache {
    type V = Map<Seq<char>, EntryModel>;

    closed spec fn view(&self) -> Map<Seq<char>, EntryModel> {
        entries_map(self.entries@)
    }
}

/// The map an association list denotes; [`Cache::wf`] keeps its keys
/// distinct, so which entry shadows which never arises.
pub closed spec fn entries_map(s: Seq<(ResourceUrl, CacheItem)>) -> Map<Seq<char>, EntryModel>
    decreases s.len(),
{
    if s.len() == 0 {
        Map::empty()
    } else {
        entries_map(s.drop_last()).insert(s.last().0@, s.last().1@)
    }
}

/// A key occurs in the association list.
pub closed spec fn key_in(s: Seq<(ResourceUrl, CacheItem)>, k: Seq<char>) -> bool {
    exists|i: int| 0 <= i < s.len() && s[i].0@ == k
}

/// All keys in the association list are pairwise distinct.
pub closed spec fn keys_distinct(s: Seq<(ResourceUrl, CacheItem)>) -> bool {
    forall|i: int, j: int| 0 <= i < j < s.len() ==> s[i].0@ != s[j].0@
}

proof fn lemma_entries_map_membership(s: Seq<(ResourceUrl, CacheItem)>, k: Seq<char>)
    ensures
        entries_map(s).contains_key(k) <==> key_in(s, k),
    decreases s.len(),
{
    if s.len() > 0 {
        lemma_entries_map_membership(s.drop_last(), k);
        if s.last().0@ == k {
            assert(s[s.len() - 1].0@ == k);
        } else {
            if key_in(s.drop_last(), k) {
                let i = choose|i: int| 0 <= i < s.drop_last().len() && s.drop_last()[i].0@ == k;
                assert(s[i].0@ == k);
            }
            if key_in(s, k) {
                let i = choose|i: int| 0 <= i < s.len() && s[i].0@ == k;
                assert(i < s.len() - 1);
                assert(s.drop_last()[i].0@ == k);
            }
        }
    }
}

proof fn lemma_keys_distinct_drop_last(s: Seq<(ResourceUrl, CacheItem)>)
    requires
        keys_distinct(s),
        s.len() > 0,
    ensures
        keys_distinct(s.drop_last()),
{
    assert forall|p: int, q: int| 0 <= p < q < s.drop_last().len() implies s.drop_last()[p].0@
        != s.drop_last()[q].0@ by {
        assert(s[p].0@ != s[q].0@);
    }
}

proof fn lemma_entries_map_lookup(s: Seq<(ResourceUrl, CacheItem)>, i: int)
    requires
        keys_distinct(s),
        0 <= i < s.len(),
    ensures
        entries_map(s).contains_key(s[i].0@),
        entries_map(s)[s[i].0@] == s[i].1@,
    decreases s.len(),
{
    lemma_entries_map_membership(s, s[i].0@);
    if i < s.len() - 1 {
        assert(s[i].0@ != s.last().0@);
        lemma_keys_distinct_drop_last(s);
        assert(s.drop_last()[i] == s[i]);
        lemma_entries_map_lookup(s.drop_last(), i);
    }
}

proof fn lemma_entries_map_push(s: Seq<(ResourceUrl, CacheItem)>, p: (ResourceUrl, CacheItem))
    ensures
        entries_map(s.push(p)) == entries_map(s).insert(p.0@, p.1@),
{
    assert(s.push(p).drop_last() =~= s);
    assert(s.push(p).last() == p);
}

proof fn lemma_keys_distinct_remove(s: Seq<(ResourceUrl, CacheItem)>, i: int)
    requires
        keys_distinct(s),
        0 <= i < s.len(),
    ensures
        keys_distinct(s.remove(i)),
        forall|k: Seq<char>| key_in(s.remove(i), k) ==> key_in(s, k),
{
    let t = s.remove(i);
    assert forall|p: int, q: int| 0 <= p < q < t.len() implies t[p].0@ != t[q].0@ by {
        let p0: int = if p < i {
            p
        } else {
            p + 1
        };
        let q0: int = if q < i {
            q
        } else {
            q + 1
        };
        assert(t[p] == s[p0]);
        assert(t[q] == s[q0]);
    }
    assert forall|k: Seq<char>| key_in(t, k) implies key_in(s, k) by {
        let p = choose|p: int| 0 <= p < t.len() && t[p].0@ == k;
        let p0: int = if p < i {
            p
        } else {
            p + 1
        };
        assert(t[p] == s[p0]);
        assert(s[p0].0@ == k);
    }
}

proof fn lemma_entries_map_remove(s: Seq<(ResourceUrl, CacheItem)>, i: int)
    requires
        keys_distinct(s),
        0 <= i < s.len(),
    ensures
        entries_map(s.remove(i)) == entries_map(s).remove(s[i].0@),
    decreases s.len(),
{
    let t = s.remove(i);
    if i == s.len() - 1 {
        assert(t =~= s.drop_last());
        lemma_entries_map_membership(s.drop_last(), s[i].0@);
        assert(!key_in(s.drop_last(), s[i].0@)) by {
            if key_in(s.drop_last(), s[i].0@) {
                let j = choose|j: int|
                    0 <= j < s.drop_last().len() && s.drop_last()[j].0@ == s[i].0@;
                assert(s[j].0@ == s[i].0@);
            }
        }
        assert(entries_map(s.drop_last()).insert(s.last().0@, s.last().1@).remove(s[i].0@)
            =~= entries_map(s.drop_last()));
    } else {
        lemma_keys_distinct_drop_last(s);
        lemma_entries_map_remove(s.drop_last(), i);
        assert(t.drop_last() =~= s.drop_last().remove(i));
        assert(t.len() > 0 && t.last() == s.last());
        assert(s[i].0@ != s.last().0@);
        assert(entries_map(t) == entries_map(s.drop_last()).remove(s[i].0@).insert(
            s.last().0@,
            s.last().1@,
        ));
        assert(entries_map(s.drop_last()).remove(s[i].0@).insert(s.last().0@, s.last().1@)
            =~= entries_map(s.drop_last()).insert(s.last().0@, s.last().1@).remove(s[i].0@));
    }
}

impl Cache {
    /// The association list's keys are pairwise distinct.
    pub closed spec fn wf(self) -> bool {
        keys_distinct(self.entries@)
    }

    pub fn new() -> (r: Cache)
        ensures
            r.wf(),
            r@ == Map::<Seq<char>, EntryModel>::empty(),
    {
        Cache { entries: Vec::new() }
    }

    /// The index of `url`'s entry, if one is stored.
    fn find(&self, url: &ResourceUrl) -> (r: Option<usize>)
        ensures
            match r {
                Some(i) => i < self.entries@.len() && self.entries@[i as int].0@ == url@,
                None => !key_in(self.entries@, url@),
            },
    {
        let mut i: usize = 0;
        while i < self.entries.len()
            invariant
                0 <= i <= self.entries@.len(),
                forall|j: int| 0 <= j < i ==> self.entries@[j].0@ != url@,
            decreases self.entries@.len() - i,
        {
            if self.entries[i].0.text == url.text {
                return Some(i);
            }
            i += 1;
        }
        None
    }

    /// Looks `url` up at instant `now`. A live entry is returned as an
    /// independent copy of its bytes; a stale entry is evicted and
    /// reported as a miss.
    pub fn get(&mut self, url: &ResourceUrl, now: u64) -> (r: Option<CacheItem>)
        requires
            old(self).wf(),
        ensures
            final(self).wf(),
            match get_model(old(self)@, url@, now) {
                Some(entry) => {
                    &&& r matches Some(it) && it@ == entry
                    &&& final(self)@ == old(self)@
                },
                None => {
                    &&& r is None
                    &&& final(self)@ == old(self)@.remove(url@)
                },
            },
    {
        let found = self.find(url);
        match found {
            Some(i) => {
                proof {
                    lemma_entries_map_lookup(self.entries@, i as int);
                }
                let item_expired = self.entries[i].1.expired(now);
                if item_expired {
                    proof {
                        lemma_entries_map_remove(self.entries@, i as int);
                        lemma_keys_distinct_remove(self.entries@, i as int);
                    }
                    let _ = self.entries.remove(i);
                    None
                } else {
                    Some(self.entries[i].1.duplicate())
                }
            },
            None => {
                proof {
                    lemma_entries_map_membership(self.entries@, url@);
                    assert(self@ =~= self@.remove(url@));
                }
                None
            },
        }
    }

    /// Removes `url`'s entry if one is stored.
    fn remove_key(&mut self, url: &ResourceUrl)
        requires
            old(self).wf(),
        ensures
            final(self).wf(),
            final(self)@ == old(self)@.remove(url@),
            !key_in(final(self).entries@, url@),
    {
        let found = self.find(url);
        match found {
            Some(i) => {
                proof {
                    lemma_entries_map_remove(self.entries@, i as int);
                    lemma_keys_distinct_remove(self.entries@, i as int);
                }
                let ghost s_old = self.entries@;
                let ghost idx = i as int;
                let _ = self.entries.remove(i);
                proof {
                    assert(!key_in(self.entries@, url@)) by {
                        if key_in(self.entries@, url@) {
                            let p = choose|p: int|
                                0 <= p < self.entries@.len() && self.entries@[p].0@ == url@;
                            let p0: int = if p < idx {
                                p
                            } else {
                                p + 1
                            };
                            assert(self.entries@[p] == s_old[p0]);
                            assert(p0 != idx && s_old[p0].0@ == s_old[idx].0@);
                        }
                    }
                }
            },
            None => {
                proof {
                    lemma_entries_map_membership(self.entries@, url@);
                    assert(self@ =~= self@.remove(url@));
                }
            },
        }
    }

    /// Stores `item` under `url`, replacing any previous entry, then
    /// sweeps everything stale at `now` (the new entry included, if it
    /// was born stale).
    pub fn put(&mut self, url: &ResourceUrl, item: CacheItem, now: u64)
        requires
            old(self).wf(),
        ensures
            final(self).wf(),
            final(self)@ == put_model(old(self)@, url@, item@, now),
    {
        let ghost m0 = self@;
        self.remove_key(url);
        let ghost s1 = self.entries@;
        let ghost m1 = self@;
        let dup = url.duplicate();
        self.entries.push((dup, item));
        proof {
            lemma_entries_map_push(s1, (dup, item));
            assert(self@ == m1.insert(url@, item@));
            assert forall|p: int, q: int| 0 <= p < q < self.entries@.len() implies self.entries@[p].0@
                != self.entries@[q].0@ by {
                if q == self.entries@.len() - 1 {
                    assert(self.entries@[p] == s1[p]);
                    if self.entries@[p].0@ == url@ {
                        assert(key_in(s1, url@));
                    }
                } else {
                    assert(self.entries@[p] == s1[p]);
                    assert(self.entries@[q] == s1[q]);
                }
            }
        }
        self.clean_up(now);
        proof {
            assert(sweep_model(m0.remove(url@).insert(url@, item@), now) =~= sweep_model(
                m0.insert(url@, item@),
                now,
            ));
        }
    }

    /// Removes every entry that is stale at `now`.
    pub fn clean_up(&mut self, now: u64)
        requires
            old(self).wf(),
        ensures
            final(self).wf(),
            final(self)@ == sweep_model(old(self)@, now),
    {
        let mut i: usize = 0;
        while i < self.entries.len()
            invariant
                self.wf(),
                0 <= i <= self.entries@.len(),
                forall|j: int| 0 <= j < i ==> !self.entries@[j].1@.spec_expired(now),
                sweep_model(entries_map(self.entries@), now) == sweep_model(old(self)@, now),
            decreases self.entries@.len() - i,
        {
            let item_expired = self.entries[i].1.expired(now);
            if item_expired {
                proof {
                    lemma_entries_map_lookup(self.entries@, i as int);
                    lemma_entries_map_remove(self.entries@, i as int);
                    lemma_keys_distinct_remove(self.entries@, i as int);
                    let s = self.entries@;
                    let k = s[i as int].0@;
                    assert(sweep_model(entries_map(s).remove(k), now) =~= sweep_model(
                        entries_map(s),
                        now,
                    ));
                }
                let _ = self.entries.remove(i);
            } else {
                i += 1;
            }
        }
        proof {
            lemma_sweep_of_live(self.entries@, now);
        }
    }
}

proof fn lemma_sweep_of_live(s: Seq<(ResourceUrl, CacheItem)>, now: u64)
    requires
        keys_distinct(s),
        forall|j: int| 0 <= j < s.len() ==> !s[j].1@.spec_expired(now),
    ensures
        sweep_model(entries_map(s), now) == entries_map(s),
{
    assert forall|k: Seq<char>| entries_map(s).contains_key(k) implies !entries_map(
        s,
    )[k].spec_expired(now) by {
        lemma_entries_map_membership(s, k);
        let i = choose|i: int| 0 <= i < s.len() && s[i].0@ == k;
        lemma_entries_map_lookup(s, i);
    }
    assert(sweep_model(entries_map(s), now) =~= entries_map(s));
}

/// Putting an entry and reading it back at the same instant yields that
/// entry when its lifetime is positive; once the lifetime has elapsed, and
/// only then, the read is a miss — whatever else the cache held.
pub proof fn lemma_cache_freshness(
    m: Map<Seq<char>, EntryModel>,
    k: Seq<char>,
    entry: EntryModel,
    now: u64,
    later: u64,
)
    requires
        entry.created_at == now,
        entry.ttl > 0,
    ensures
        get_model(put_model(m, k, entry, now), k, now) == Some(entry),
        (get_model(put_model(m, k, entry, now), k, later) is None) <==> later >= entry.created_at
            + entry.ttl,
{
    let p = put_model(m, k, entry, now);
    assert(p.contains_key(k));
    assert(p[k] == entry);
}

} // verus!
