use vstd::prelude::*;
use crate::error::MemeError;
use crate::post::{Listing, ListingView};

verus! {

/// A stored listing with the time at which it was last refreshed.
pub struct CacheEntry {
    pub key: String,
    pub listing: Listing,
    pub refreshed_at: u64,
}

/// What the cache holds for one key.
pub struct EntryView {
    pub listing: ListingView,
    pub refreshed_at: u64,
}

impl CacheEntry {
    pub open spec fn entry_view(&self) -> EntryView {
        EntryView { listing: self.listing@, refreshed_at: self.refreshed_at }
    }
}

/// How a lookup is to be served.
pub enum Lookup {
    /// A fresh listing was stored: it is handed back with no upstream call.
    Hit(Listing),
    /// A fetch for the key is already under way: the caller awaits its outcome.
    Wait,
    /// The caller is now the one fetcher for the key and must report back
    /// through `finish_fetch`.
    Fetch,
}

/// The three ways a lookup can go, without the data.
#[derive(PartialEq, Eq, Structural)]
pub enum LookupKind {
    Hit,
    Wait,
    Fetch,
}

impl Lookup {
    pub open spec fn kind(&self) -> LookupKind {
        match self {
            Lookup::Hit(_) => LookupKind::Hit,
            Lookup::Wait => LookupKind::Wait,
            Lookup::Fetch => LookupKind::Fetch,
        }
    }
}

/// Listings keyed by subreddit name, bounded in number and in age, with a
/// record of the keys whose fetch is under way.
pub struct ListingCache {
    capacity: usize,
    ttl: u64,
    entries: Vec<CacheEntry>,
    in_flight: Vec<String>,
}

impl View for ListingCache {
    type V = Map<Seq<char>, EntryView>;

    /// Each stored key with its entry.
    closed spec fn view(&self) -> Map<Seq<char>, EntryView> {
        Map::new(
            |k: Seq<char>| self.stores(k),
            |k: Seq<char>|
                self.entries@[choose|i: int|
                    0 <= i < self.entries@.len() && #[trigger] self.entries@[i].key@ == k].entry_view(),
        )
    }
}

impl ListingCache {
    pub closed spec fn stores(&self, k: Seq<char>) -> bool {
        exists|i: int| 0 <= i < self.entries@.len() && #[trigger] self.entries@[i].key@ == k
    }

    /// The keys whose fetch is under way.
    pub closed spec fn pending(&self) -> Set<Seq<char>> {
        Set::new(
            |k: Seq<char>|
                exists|i: int| 0 <= i < self.in_flight@.len() && #[trigger] self.in_flight@[i]@ == k,
        )
    }

    /// The number of stored entries.
    pub closed spec fn size(&self) -> nat {
        self.entries@.len()
    }

    pub closed spec fn capacity_spec(&self) -> nat {
        self.capacity as nat
    }

    pub closed spec fn ttl_spec(&self) -> nat {
        self.ttl as nat
    }

    pub closed spec fn wf(&self) -> bool {
        &&& self.capacity > 0
        &&& self.entries@.len() <= self.capacity
        &&& forall|i: int, j: int|
            0 <= i < j < self.entries@.len() ==> #[trigger] self.entries@[i].key@
                != #[trigger] self.entries@[j].key@
        &&& forall|i: int, j: int|
            0 <= i < j < self.in_flight@.len() ==> #[trigger] self.in_flight@[i]@
                != #[trigger] self.in_flight@[j]@
    }

    /// An entry is fresh while its age is below the time to live.
    pub open spec fn is_fresh(&self, e: EntryView, now: u64) -> bool {
        (now as int) < e.refreshed_at as int + self.ttl_spec()
    }

    /// How a lookup of `k` at time `now` is served.
    pub open spec fn decide(&self, k: Seq<char>, now: u64) -> LookupKind {
        if self@.contains_key(k) && self.is_fresh(self@[k], now) {
            LookupKind::Hit
        } else if self.pending().contains(k) {
            LookupKind::Wait
        } else {
            LookupKind::Fetch
        }
    }

    /// `v` is a stored key refreshed no later than any other.
    pub open spec fn is_oldest(&self, v: Seq<char>) -> bool {
        &&& self@.contains_key(v)
        &&& forall|o: Seq<char>|
            self@.contains_key(o) ==> self@[v].refreshed_at <= #[trigger] self@[o].refreshed_at
    }

    /// The stored entries after `k` is stored with `e`: a stored key is
    /// replaced, a new key is added, and a new key beyond the capacity first
    /// evicts an oldest entry.
    pub open spec fn installs(&self, after: Map<Seq<char>, EntryView>, k: Seq<char>, e: EntryView) -> bool {
        if self@.contains_key(k) || self.size() < self.capacity_spec() {
            after == self@.insert(k, e)
        } else {
            exists|v: Seq<char>| self.is_oldest(v) && after == self@.remove(v).insert(k, e)
        }
    }

    proof fn lemma_view_at(&self, i: int)
        requires
            self.wf(),
            0 <= i < self.entries@.len(),
        ensures
            self@.contains_key(self.entries@[i].key@),
            self@[self.entries@[i].key@] == self.entries@[i].entry_view(),
    {
        let k = self.entries@[i].key@;
        assert(self.stores(k));
        let j = choose|j: int| 0 <= j < self.entries@.len() && #[trigger] self.entries@[j].key@ == k;
        if j < i {
            assert(self.entries@[j].key@ != self.entries@[i].key@);
        } else if i < j {
            assert(self.entries@[i].key@ != self.entries@[j].key@);
        }
    }

    /// An empty cache that holds at most `capacity` listings, each for at most
    /// `ttl` time units.
    pub fn new(capacity: usize, ttl: u64) -> (r: ListingCache)
        requires
            capacity > 0,
        ensures
            r.wf(),
            r@ == Map::<Seq<char>, EntryView>::empty(),
            r.pending() == Set::<Seq<char>>::empty(),
            r.size() == 0,
            r.capacity_spec() == capacity,
            r.ttl_spec() == ttl,
    {
        let r = ListingCache { capacity, ttl, entries: Vec::new(), in_flight: Vec::new() };
        assert(r@ =~= Map::<Seq<char>, EntryView>::empty());
        assert(r.pending() =~= Set::<Seq<char>>::empty());
        r
    }

    pub fn capacity(&self) -> (r: usize)
        ensures
            r == self.capacity_spec(),
    {
        self.capacity
    }

    pub fn ttl(&self) -> (r: u64)
        ensures
            r == self.ttl_spec(),
    {
        self.ttl
    }

    /// The number of stored listings.
    pub fn len(&self) -> (r: usize)
        ensures
            r == self.size(),
    {
        self.entries.len()
    }

    fn find(&self, key: &String) -> (r: Option<usize>)
        requires
            self.wf(),
        ensures
            r is None ==> !self@.contains_key(key@),
            r matches Some(i) ==> i < self.entries@.len() && self.entries@[i as int].key@ == key@
                && self@.contains_key(key@) && self@[key@] == self.entries@[i as int].entry_view(),
    {
        let mut i: usize = 0;
        while i < self.entries.len()
            invariant
                self.wf(),
                i <= self.entries@.len(),
                forall|j: int| 0 <= j < i ==> #[trigger] self.entries@[j].key@ != key@,
            decreases self.entries@.len() - i,
        {
            if self.entries[i].key == *key {
                proof {
                    self.lemma_view_at(i as int);
                }
                return Some(i);
            }
            i = i + 1;
        }
        None
    }

    fn find_pending(&self, key: &String) -> (r: Option<usize>)
        ensures
            r is None ==> !self.pending().contains(key@),
            r matches Some(i) ==> i < self.in_flight@.len() && self.in_flight@[i as int]@ == key@,
    {
        let mut i: usize = 0;
        while i < self.in_flight.len()
            invariant
                i <= self.in_flight@.len(),
                forall|j: int| 0 <= j < i ==> #[trigger] self.in_flight@[j]@ != key@,
            decreases self.in_flight@.len() - i,
        {
            if self.in_flight[i] == *key {
                return Some(i);
            }
            i = i + 1;
        }
        None
    }

    /// Starts a lookup of `key` at time `now`. A fresh stored listing is
    /// handed back; otherwise a caller waits on the fetch under way, or, when
    /// there is none, the key is marked as being fetched and this caller
    /// fetches.
    pub fn begin_get(&mut self, key: &String, now: u64) -> (r: Lookup)
        requires
            old(self).wf(),
        ensures
            final(self).wf(),
            r.kind() == old(self).decide(key@, now),
            r matches Lookup::Hit(l) ==> l@ == old(self)@[key@].listing,
            r.kind() != LookupKind::Fetch ==> *final(self) == *old(self),
            final(self)@ == old(self)@,
            final(self).size() == old(self).size(),
            final(self).pending() == (if r.kind() == LookupKind::Fetch {
                old(self).pending().insert(key@)
            } else {
                old(self).pending()
            }),
            final(self).capacity_spec() == old(self).capacity_spec(),
            final(self).ttl_spec() == old(self).ttl_spec(),
    {
        if let Some(i) = self.find(key) {
            if self.fresh_at(i, now) {
                return Lookup::Hit(self.entries[i].listing.clone());
            }
        }
        if self.find_pending(key).is_some() {
            return Lookup::Wait;
        }
        let ghost before = *self;
        self.in_flight.push(key.clone());
        proof {
            assert(self.entries@ == before.entries@);
            assert(self@ =~= before@);
            assert forall|k: Seq<char>| self.pending().contains(k) == before.pending().insert(key@).contains(k) by {
                if k == key@ {
                    assert(self.in_flight@[self.in_flight@.len() - 1]@ == k);
                } else if before.pending().contains(k) {
                    let j = choose|j: int| 0 <= j < before.in_flight@.len() && #[trigger] before.in_flight@[j]@ == k;
                    assert(self.in_flight@[j]@ == k);
                } else if self.pending().contains(k) {
                    let j = choose|j: int| 0 <= j < self.in_flight@.len() && #[trigger] self.in_flight@[j]@ == k;
                    assert(j < before.in_flight@.len());
                    assert(before.in_flight@[j]@ == k);
                }
            }
            assert(self.pending() =~= before.pending().insert(key@));
            assert forall|i: int, j: int| 0 <= i < j < self.in_flight@.len() implies
                #[trigger] self.in_flight@[i]@ != #[trigger] self.in_flight@[j]@ by {
                if j == self.in_flight@.len() - 1 {
                    assert(before.in_flight@[i]@ != key@);
                }
            }
        }
        Lookup::Fetch
    }

    /// Takes `key` off the keys being fetched.
    fn stop_pending(&mut self, key: &String)
        requires
            old(self).wf(),
        ensures
            final(self).wf(),
            final(self).entries == old(self).entries,
            final(self).capacity == old(self).capacity,
            final(self).ttl == old(self).ttl,
            final(self).pending() == old(self).pending().remove(key@),
    {
        let ghost before = *self;
        if let Some(i) = self.find_pending(key) {
            self.in_flight.remove(i);
            proof {
                assert forall|k: Seq<char>| self.pending().contains(k) == before.pending().remove(key@).contains(k) by {
                    if self.pending().contains(k) {
                        let j = choose|j: int| 0 <= j < self.in_flight@.len() && #[trigger] self.in_flight@[j]@ == k;
                        if j < i {
                            assert(before.in_flight@[j]@ == k);
                            assert(before.in_flight@[j]@ != before.in_flight@[i as int]@);
                        } else {
                            assert(before.in_flight@[j + 1]@ == k);
                            assert(before.in_flight@[i as int]@ != before.in_flight@[j + 1]@);
                        }
                    }
                    if before.pending().remove(key@).contains(k) {
                        let j = choose|j: int| 0 <= j < before.in_flight@.len() && #[trigger] before.in_flight@[j]@ == k;
                        if j < i {
                            assert(self.in_flight@[j]@ == k);
                        } else {
                            assert(j != i);
                            assert(self.in_flight@[j - 1]@ == k);
                        }
                    }
                }
                assert(self.pending() =~= before.pending().remove(key@));
                assert forall|a: int, b: int| 0 <= a < b < self.in_flight@.len() implies
                    #[trigger] self.in_flight@[a]@ != #[trigger] self.in_flight@[b]@ by {
                    let a2 = if a < i { a } else { a + 1 };
                    let b2 = if b < i { b } else { b + 1 };
                    assert(before.in_flight@[a2]@ != before.in_flight@[b2]@);
                }
            }
        } else {
            assert(self.pending() =~= before.pending().remove(key@));
        }
    }

    /// The position of an entry refreshed no later than any other.
    fn oldest_index(&self) -> (r: usize)
        requires
            self.entries@.len() > 0,
        ensures
            r < self.entries@.len(),
            forall|j: int| 0 <= j < self.entries@.len() ==>
                self.entries@[r as int].refreshed_at <= #[trigger] self.entries@[j].refreshed_at,
    {
        let mut best: usize = 0;
        let mut i: usize = 1;
        while i < self.entries.len()
            invariant
                1 <= i <= self.entries@.len(),
                best < i,
                forall|j: int| 0 <= j < i ==>
                    self.entries@[best as int].refreshed_at <= #[trigger] self.entries@[j].refreshed_at,
            decreases self.entries@.len() - i,
        {
            if self.entries[i].refreshed_at < self.entries[best].refreshed_at {
                best = i;
            }
            i = i + 1;
        }
        best
    }

    /// Adds an entry for a key that is not stored.
    fn push_entry(&mut self, entry: CacheEntry)
        requires
            old(self).wf(),
            !old(self)@.contains_key(entry.key@),
            old(self).entries@.len() < old(self).capacity,
        ensures
            final(self).wf(),
            final(self)@ == old(self)@.insert(entry.key@, entry.entry_view()),
            final(self).size() == old(self).size() + 1,
            final(self).in_flight == old(self).in_flight,
            final(self).capacity == old(self).capacity,
            final(self).ttl == old(self).ttl,
    {
        let ghost before = *self;
        let ghost k = entry.key@;
        let ghost e = entry.entry_view();
        self.entries.push(entry);
        proof {
            let n = before.entries@.len() as int;
            assert forall|a: int, b: int| 0 <= a < b < self.entries@.len() implies
                #[trigger] self.entries@[a].key@ != #[trigger] self.entries@[b].key@ by {
                if b == n {
                    assert(!before.stores(k));
                    assert(before.entries@[a].key@ != k);
                } else {
                    assert(before.entries@[a].key@ != before.entries@[b].key@);
                }
            }
            assert forall|k2: Seq<char>| #![auto] self@.contains_key(k2) == before@.insert(k, e).contains_key(k2) by {
                if self.stores(k2) {
                    let j = choose|j: int| 0 <= j < self.entries@.len() && #[trigger] self.entries@[j].key@ == k2;
                    if j < n {
                        assert(before.entries@[j].key@ == k2);
                    }
                }
                if before.stores(k2) {
                    let j = choose|j: int| 0 <= j < before.entries@.len() && #[trigger] before.entries@[j].key@ == k2;
                    assert(self.entries@[j].key@ == k2);
                }
                if k2 == k {
                    assert(self.entries@[n].key@ == k2);
                }
            }
            assert forall|k2: Seq<char>| #[trigger] self@.contains_key(k2) implies self@[k2] == before@.insert(k, e)[k2] by {
                if k2 == k {
                    self.lemma_view_at(n);
                } else {
                    let j = choose|j: int| 0 <= j < before.entries@.len() && #[trigger] before.entries@[j].key@ == k2;
                    before.lemma_view_at(j);
                    self.lemma_view_at(j);
                }
            }
            assert(self@ =~= before@.insert(k, e));
        }
    }

    /// Replaces the entry at `i` with one for the same key.
    fn replace_entry(&mut self, i: usize, entry: CacheEntry)
        requires
            old(self).wf(),
            i < old(self).entries@.len(),
            old(self).entries@[i as int].key@ == entry.key@,
        ensures
            final(self).wf(),
            final(self)@ == old(self)@.insert(entry.key@, entry.entry_view()),
            final(self).size() == old(self).size(),
            final(self).in_flight == old(self).in_flight,
            final(self).capacity == old(self).capacity,
            final(self).ttl == old(self).ttl,
    {
        let ghost before = *self;
        let ghost k = entry.key@;
        let ghost e = entry.entry_view();
        self.entries.set(i, entry);
        proof {
            assert forall|a: int, b: int| 0 <= a < b < self.entries@.len() implies
                #[trigger] self.entries@[a].key@ != #[trigger] self.entries@[b].key@ by {
                assert(before.entries@[a].key@ != before.entries@[b].key@);
            }
            assert forall|k2: Seq<char>| #![auto] self@.contains_key(k2) == before@.insert(k, e).contains_key(k2) by {
                if self.stores(k2) {
                    let j = choose|j: int| 0 <= j < self.entries@.len() && #[trigger] self.entries@[j].key@ == k2;
                    assert(before.entries@[j].key@ == k2);
                }
                if before.stores(k2) {
                    let j = choose|j: int| 0 <= j < before.entries@.len() && #[trigger] before.entries@[j].key@ == k2;
                    assert(self.entries@[j].key@ == k2);
                }
                if k2 == k {
                    assert(self.entries@[i as int].key@ == k2);
                }
            }
            assert forall|k2: Seq<char>| #[trigger] self@.contains_key(k2) implies self@[k2] == before@.insert(k, e)[k2] by {
                if k2 == k {
                    self.lemma_view_at(i as int);
                } else {
                    let j = choose|j: int| 0 <= j < before.entries@.len() && #[trigger] before.entries@[j].key@ == k2;
                    before.lemma_view_at(j);
                    self.lemma_view_at(j);
                }
            }
            assert(self@ =~= before@.insert(k, e));
        }
    }

    /// Removes an entry refreshed no later than any other.
    fn evict_oldest(&mut self) -> (victim: Ghost<Seq<char>>)
        requires
            old(self).wf(),
            old(self).entries@.len() > 0,
        ensures
            final(self).wf(),
            old(self).is_oldest(victim@),
            final(self)@ == old(self)@.remove(victim@),
            final(self).size() + 1 == old(self).size(),
            final(self).in_flight == old(self).in_flight,
            final(self).capacity == old(self).capacity,
            final(self).ttl == old(self).ttl,
    {
        let ghost before = *self;
        let i = self.oldest_index();
        let ghost v = self.entries@[i as int].key@;
        proof {
            before.lemma_view_at(i as int);
            assert forall|o: Seq<char>| before@.contains_key(o) implies
                before@[v].refreshed_at <= #[trigger] before@[o].refreshed_at by {
                let j = choose|j: int| 0 <= j < before.entries@.len() && #[trigger] before.entries@[j].key@ == o;
                before.lemma_view_at(j);
            }
        }
        self.entries.remove(i);
        proof {
            let ii = i as int;
            assert forall|a: int, b: int| 0 <= a < b < self.entries@.len() implies
                #[trigger] self.entries@[a].key@ != #[trigger] self.entries@[b].key@ by {
                let a2 = if a < ii { a } else { a + 1 };
                let b2 = if b < ii { b } else { b + 1 };
                assert(before.entries@[a2].key@ != before.entries@[b2].key@);
            }
            assert forall|k2: Seq<char>| #![auto] self@.contains_key(k2) == before@.remove(v).contains_key(k2) by {
                if self.stores(k2) {
                    let j = choose|j: int| 0 <= j < self.entries@.len() && #[trigger] self.entries@[j].key@ == k2;
                    if j < ii {
                        assert(before.entries@[j].key@ == k2);
                        assert(before.entries@[j].key@ != before.entries@[ii].key@);
                    } else {
                        assert(before.entries@[j + 1].key@ == k2);
                        assert(before.entries@[ii].key@ != before.entries@[j + 1].key@);
                    }
                }
                if before@.remove(v).contains_key(k2) {
                    let j = choose|j: int| 0 <= j < before.entries@.len() && #[trigger] before.entries@[j].key@ == k2;
                    if j < ii {
                        assert(self.entries@[j].key@ == k2);
                    } else {
                        assert(j != ii);
                        assert(self.entries@[j - 1].key@ == k2);
                    }
                }
            }
            assert forall|k2: Seq<char>| #[trigger] self@.contains_key(k2) implies self@[k2] == before@.remove(v)[k2] by {
                let j = choose|j: int| 0 <= j < self.entries@.len() && #[trigger] self.entries@[j].key@ == k2;
                self.lemma_view_at(j);
                if j < ii {
                    before.lemma_view_at(j);
                } else {
                    before.lemma_view_at(j + 1);
                }
            }
            assert(self@ =~= before@.remove(v));
        }
        Ghost(v)
    }

    /// Stores `listing` for `key` as refreshed at `now`.
    fn install(&mut self, key: &String, listing: Listing, now: u64)
        requires
            old(self).wf(),
        ensures
            final(self).wf(),
            old(self).installs(final(self)@, key@, EntryView { listing: listing@, refreshed_at: now }),
            final(self).in_flight == old(self).in_flight,
            final(self).capacity == old(self).capacity,
            final(self).ttl == old(self).ttl,
    {
        let entry = CacheEntry { key: key.clone(), listing, refreshed_at: now };
        match self.find(key) {
            Some(i) => {
                self.replace_entry(i, entry);
            },
            None => {
                if self.entries.len() >= self.capacity {
                    let ghost before = *self;
                    let victim = self.evict_oldest();
                    self.push_entry(entry);
                    assert(before.is_oldest(victim@));
                } else {
                    self.push_entry(entry);
                }
            },
        }
    }

    /// Ends the fetch of `key` that `begin_get` handed out at time `now`: a
    /// listing is stored and handed back, an error is handed back and leaves the
    /// stored listings as they were. Either way the key is no longer being
    /// fetched, and every caller that waited receives this same outcome.
    pub fn finish_fetch(&mut self, key: &String, outcome: Result<Listing, MemeError>, now: u64) -> (r: Result<Listing, MemeError>)
        requires
            old(self).wf(),
        ensures
            final(self).wf(),
            r == outcome,
            final(self).pending() == old(self).pending().remove(key@),
            outcome is Err ==> final(self)@ == old(self)@ && final(self).size() == old(self).size(),
            outcome matches Ok(l) ==> old(self).installs(final(self)@, key@, EntryView { listing: l@, refreshed_at: now }),
            final(self).size() <= final(self).capacity_spec(),
            final(self).capacity_spec() == old(self).capacity_spec(),
            final(self).ttl_spec() == old(self).ttl_spec(),
    {
        self.stop_pending(key);
        match outcome {
            Err(e) => {
                assert(self@ =~= old(self)@);
                Err(e)
            },
            Ok(listing) => {
                let stored = listing.clone();
                let ghost mid = *self;
                self.install(key, stored, now);
                proof {
                    assert(mid@ =~= old(self)@);
                    assert(mid.size() == old(self).size());
                    assert(mid.capacity_spec() == old(self).capacity_spec());
                    let e = EntryView { listing: listing@, refreshed_at: now };
                    if !(mid@.contains_key(key@) || mid.size() < mid.capacity_spec()) {
                        let v = choose|v: Seq<char>| mid.is_oldest(v) && self@ == mid@.remove(v).insert(key@, e);
                        assert(old(self).is_oldest(v));
                    }
                }
                Ok(listing)
            },
        }
    }

    fn fresh_at(&self, i: usize, now: u64) -> (r: bool)
        requires
            i < self.entries@.len(),
        ensures
            r == self.is_fresh(self.entries@[i as int].entry_view(), now),
    {
        let at = self.entries[i].refreshed_at;
        now < at || now - at < self.ttl
    }
}

} // verus!

verus! {

/// While a key is neither stored nor being fetched, a first lookup of it
/// becomes the one fetch for that key, and any later lookup made before that
/// fetch ends waits for it instead of fetching again.
pub proof fn lemma_one_fetch_per_key(
    c: ListingCache,
    during: ListingCache,
    k: Seq<char>,
    first: u64,
    second: u64,
)
    requires
        c.wf(),
        !c@.contains_key(k),
        !c.pending().contains(k),
        during@ == c@,
        during.pending() == c.pending().insert(k),
        during.ttl_spec() == c.ttl_spec(),
    ensures
        c.decide(k, first) == LookupKind::Fetch,
        during.decide(k, second) == LookupKind::Wait,
{
}

/// A fetch that succeeds stores its listing under its key, as refreshed at the
/// time the fetch ended.
pub proof fn lemma_fetch_stores_listing(
    c: ListingCache,
    after: Map<Seq<char>, EntryView>,
    k: Seq<char>,
    e: EntryView,
)
    requires
        c.wf(),
        c.installs(after, k, e),
    ensures
        after.contains_key(k),
        after[k] == e,
{
    if !(c@.contains_key(k) || c.size() < c.capacity_spec()) {
        let v = choose|v: Seq<char>| c.is_oldest(v) && after == c@.remove(v).insert(k, e);
    }
}

/// A listing refreshed at `fetched` is served from the cache at any time less
/// than the time to live after it; from that time on, a lookup starts one new
/// fetch, and lookups made while it is under way wait for it.
pub proof fn lemma_served_until_ttl(
    c: ListingCache,
    during: ListingCache,
    k: Seq<char>,
    fetched: u64,
    now: u64,
    later: u64,
)
    requires
        c.wf(),
        c@.contains_key(k),
        c@[k].refreshed_at == fetched,
        during@ == c@,
        during.pending() == c.pending().insert(k),
        during.ttl_spec() == c.ttl_spec(),
    ensures
        now - fetched < c.ttl_spec() ==> c.decide(k, now) == LookupKind::Hit,
        now >= fetched + c.ttl_spec() && !c.pending().contains(k) ==> c.decide(k, now) == LookupKind::Fetch,
        later >= fetched + c.ttl_spec() ==> during.decide(k, later) == LookupKind::Wait,
{
}

/// Storing a new key in a full cache evicts exactly one entry, one refreshed
/// no later than any other; every other entry stays as it was and is served as
/// before.
pub proof fn lemma_overflow_evicts_oldest(
    c: ListingCache,
    after: ListingCache,
    k: Seq<char>,
    e: EntryView,
    now: u64,
)
    requires
        c.wf(),
        !c@.contains_key(k),
        c.size() == c.capacity_spec(),
        c.installs(after@, k, e),
        after.pending() == c.pending(),
        after.ttl_spec() == c.ttl_spec(),
    ensures
        exists|v: Seq<char>|
            #![trigger c.is_oldest(v)]
            c.is_oldest(v) && !after@.contains_key(v) && forall|o: Seq<char>|
                #![trigger c@.contains_key(o)]
                c@.contains_key(o) && o != v ==> after@.contains_key(o) && after@[o] == c@[o]
                    && after.decide(o, now) == c.decide(o, now),
        after@.contains_key(k),
        after@[k] == e,
{
    let v = choose|v: Seq<char>| c.is_oldest(v) && after@ == c@.remove(v).insert(k, e);
    assert(v != k);
    assert forall|o: Seq<char>| c@.contains_key(o) && o != v implies after@.contains_key(o)
        && after@[o] == c@[o] && after.decide(o, now) == c.decide(o, now) by {
        assert(o != k);
    }
}

} // verus!
