//! Caching of looked-up records: the in-memory cache, the age limit of cached
//! files, and the order in which a lookup tries memory, disk and the network.

use vstd::prelude::*;

verus! {

/// How long a cached file stays fresh: one year, in seconds.
pub const CACHE_TTL_SECS: u64 = 60 * 60 * 24 * 365;

/// Nanoseconds in a second.
pub const NANOS_PER_SEC: u64 = 1_000_000_000;

/// Whether an age of `secs` seconds and `nanos` nanoseconds is at most `CACHE_TTL_SECS`.
pub open spec fn age_within_ttl(secs: int, nanos: int) -> bool {
    secs * NANOS_PER_SEC + nanos <= CACHE_TTL_SECS * NANOS_PER_SEC
}

/// Whether a cached file whose age is `elapsed` (seconds and nanoseconds;
/// `None` when it was modified after now) is still fresh: its age is at most
/// `CACHE_TTL_SECS`, and a file from the future counts as new.
pub fn is_cache_fresh(elapsed: Option<(u64, u32)>) -> (r: bool)
    requires
        elapsed matches Some((_, nanos)) ==> nanos < NANOS_PER_SEC,
    ensures
        r == match elapsed {
            None => true,
            Some((secs, nanos)) => age_within_ttl(secs as int, nanos as int),
        },
        r == match elapsed {
            None => true,
            Some((secs, nanos)) => secs < 31_536_000 || (secs == 31_536_000 && nanos == 0),
        },
{
    match elapsed {
        None => true,
        Some((secs, nanos)) => {
            assert(secs < CACHE_TTL_SECS ==> secs * NANOS_PER_SEC + nanos <= CACHE_TTL_SECS * NANOS_PER_SEC)
                by (nonlinear_arith)
                requires
                    nanos < NANOS_PER_SEC,
                    NANOS_PER_SEC == 1_000_000_000,
            ;
            assert(secs > CACHE_TTL_SECS ==> secs * NANOS_PER_SEC > CACHE_TTL_SECS * NANOS_PER_SEC)
                by (nonlinear_arith)
                requires
                    NANOS_PER_SEC == 1_000_000_000,
            ;
            secs < CACHE_TTL_SECS || (secs == CACHE_TTL_SECS && nanos == 0)
        },
    }
}

/// The records of a cache, keyed by name; a later pair for a key overrides an earlier one.
pub open spec fn pairs_map<V>(pairs: Seq<(String, V)>) -> Map<Seq<char>, V>
    decreases pairs.len(),
{
    if pairs.len() == 0 {
        Map::empty()
    } else {
        pairs_map(pairs.drop_last()).insert(pairs.last().0@, pairs.last().1)
    }
}

/// A file younger than a fresh one is fresh too.
pub proof fn lemma_younger_is_fresh(secs1: int, nanos1: int, secs2: int, nanos2: int)
    requires
        0 <= nanos1 < NANOS_PER_SEC,
        0 <= nanos2 < NANOS_PER_SEC,
        secs1 < secs2 || (secs1 == secs2 && nanos1 <= nanos2),
        age_within_ttl(secs2, nanos2),
    ensures
        age_within_ttl(secs1, nanos1),
{
    assert(secs1 * NANOS_PER_SEC + nanos1 <= secs2 * NANOS_PER_SEC + nanos2) by (nonlinear_arith)
        requires
            0 <= nanos1 < NANOS_PER_SEC,
            0 <= nanos2 < NANOS_PER_SEC,
            secs1 < secs2 || (secs1 == secs2 && nanos1 <= nanos2),
            NANOS_PER_SEC == 1_000_000_000,
    ;
}

/// An in-memory cache of records keyed by name.
pub struct InfoCache<V> {
    pairs: Vec<(String, V)>,
}

impl<V> View for InfoCache<V> {
    type V = Map<Seq<char>, V>;

    closed spec fn view(&self) -> Map<Seq<char>, V> {
        pairs_map(self.pairs@)
    }
}

/// With distinct keys, the map holds each pair's value under the pair's key.
proof fn lemma_pairs_map_contains<V>(pairs: Seq<(String, V)>, i: int)
    requires
        0 <= i < pairs.len(),
        forall|a: int, b: int| 0 <= a < b < pairs.len() ==> (#[trigger] pairs[a]).0@ != (#[trigger] pairs[b]).0@,
    ensures
        pairs_map(pairs).contains_key(pairs[i].0@),
        pairs_map(pairs)[pairs[i].0@] == pairs[i].1,
    decreases pairs.len(),
{
    if i < pairs.len() - 1 {
        let d = pairs.drop_last();
        assert(d[i] == pairs[i]);
        assert forall|a: int, b: int| 0 <= a < b < d.len() implies (#[trigger] d[a]).0@ != (#[trigger] d[b]).0@ by {
            assert(d[a] == pairs[a] && d[b] == pairs[b]);
        }
        lemma_pairs_map_contains(d, i);
        assert(pairs[pairs.len() - 1] == pairs.last());
    }
}

/// A key that no pair has is not in the map.
proof fn lemma_pairs_map_lacks<V>(pairs: Seq<(String, V)>, k: Seq<char>)
    requires
        forall|i: int| 0 <= i < pairs.len() ==> (#[trigger] pairs[i]).0@ != k,
    ensures
        !pairs_map(pairs).contains_key(k),
    decreases pairs.len(),
{
    if pairs.len() > 0 {
        let d = pairs.drop_last();
        assert forall|i: int| 0 <= i < d.len() implies (#[trigger] d[i]).0@ != k by {
            assert(d[i] == pairs[i]);
        }
        assert(pairs[pairs.len() - 1] == pairs.last());
        lemma_pairs_map_lacks(d, k);
    }
}

/// Replacing the value of the pair at `i` replaces the value under its key.
proof fn lemma_pairs_map_update<V>(pairs: Seq<(String, V)>, i: int, v: V)
    requires
        0 <= i < pairs.len(),
        forall|a: int, b: int| 0 <= a < b < pairs.len() ==> (#[trigger] pairs[a]).0@ != (#[trigger] pairs[b]).0@,
    ensures
        pairs_map(pairs.update(i, (pairs[i].0, v))) == pairs_map(pairs).insert(pairs[i].0@, v),
    decreases pairs.len(),
{
    let np = pairs.update(i, (pairs[i].0, v));
    if i == pairs.len() - 1 {
        assert(np.drop_last() =~= pairs.drop_last());
        assert(pairs_map(np) =~= pairs_map(pairs).insert(pairs[i].0@, v));
    } else {
        let d = pairs.drop_last();
        assert(d[i] == pairs[i]);
        assert forall|a: int, b: int| 0 <= a < b < d.len() implies (#[trigger] d[a]).0@ != (#[trigger] d[b]).0@ by {
            assert(d[a] == pairs[a] && d[b] == pairs[b]);
        }
        lemma_pairs_map_update(d, i, v);
        assert(np.drop_last() =~= d.update(i, (d[i].0, v)));
        assert(pairs[pairs.len() - 1] == pairs.last());
        assert(pairs.last().0@ != pairs[i].0@);
        assert(pairs_map(np) =~= pairs_map(pairs).insert(pairs[i].0@, v));
    }
}

impl<V> InfoCache<V> {
    #[verifier::type_invariant]
    spec fn keys_distinct(self) -> bool {
        forall|a: int, b: int|
            0 <= a < b < self.pairs@.len() ==> (#[trigger] self.pairs@[a]).0@ != (
            #[trigger] self.pairs@[b]).0@
    }

    /// An empty cache.
    pub fn new() -> (r: Self)
        ensures
            r@ == Map::<Seq<char>, V>::empty(),
    {
        InfoCache { pairs: Vec::new() }
    }

    /// The index of the pair for `key`, if there is one.
    fn find(&self, key: &String) -> (r: Option<usize>)
        ensures
            match r {
                Some(i) => i < self.pairs@.len() && self.pairs@[i as int].0@ == key@,
                None => forall|i: int| 0 <= i < self.pairs@.len() ==> (#[trigger] self.pairs@[i]).0@ != key@,
            },
    {
        let n = self.pairs.len();
        let mut i: usize = 0;
        while i < n
            invariant
                n == self.pairs@.len(),
                i <= n,
                forall|j: int| 0 <= j < i ==> (#[trigger] self.pairs@[j]).0@ != key@,
            decreases n - i,
        {
            if self.pairs[i].0 == *key {
                return Some(i);
            }
            i += 1;
        }
        None
    }

    /// The record cached under `key`, if any.
    pub fn get(&self, key: &String) -> (r: Option<&V>)
        ensures
            match r {
                Some(v) => self@.contains_key(key@) && *v == self@[key@],
                None => !self@.contains_key(key@),
            },
    {
        proof {
            use_type_invariant(self);
        }
        match self.find(key) {
            Some(i) => {
                proof {
                    lemma_pairs_map_contains(self.pairs@, i as int);
                }
                Some(&self.pairs[i].1)
            },
            None => {
                proof {
                    lemma_pairs_map_lacks(self.pairs@, key@);
                }
                None
            },
        }
    }

    /// Caches `value` under `key`, replacing what was cached under it.
    pub fn insert(&mut self, key: String, value: V)
        ensures
            final(self)@ == old(self)@.insert(key@, value),
    {
        proof {
            use_type_invariant(&*self);
        }
        let ghost old_pairs = self.pairs@;
        match self.find(&key) {
            Some(i) => {
                let mut pairs = Vec::new();
                std::mem::swap(&mut pairs, &mut self.pairs);
                let (k, _old) = pairs.remove(i);
                pairs.insert(i, (k, value));
                proof {
                    assert(pairs@ =~= old_pairs.update(i as int, (old_pairs[i as int].0, value)));
                    lemma_pairs_map_update(old_pairs, i as int, value);
                    assert forall|a: int, b: int| 0 <= a < b < pairs@.len() implies (
                    #[trigger] pairs@[a]).0@ != (#[trigger] pairs@[b]).0@ by {
                        assert(pairs@[a].0 == old_pairs[a].0 && pairs@[b].0 == old_pairs[b].0);
                    }
                }
                self.pairs = pairs;
            },
            None => {
                let mut pairs = Vec::new();
                std::mem::swap(&mut pairs, &mut self.pairs);
                let ghost kv = key@;
                pairs.push((key, value));
                proof {
                    assert(pairs@.drop_last() =~= old_pairs);
                    assert forall|a: int, b: int| 0 <= a < b < pairs@.len() implies (
                    #[trigger] pairs@[a]).0@ != (#[trigger] pairs@[b]).0@ by {
                        if b < old_pairs.len() {
                            assert(pairs@[a] == old_pairs[a] && pairs@[b] == old_pairs[b]);
                        } else {
                            assert(pairs@[a] == old_pairs[a]);
                        }
                    }
                }
                self.pairs = pairs;
            },
        }
    }
}

/// Reading a cache back after `insert` gives what was last written under its
/// key, and writing under one key leaves the records under the other keys as
/// they were: `after` is `before` after `insert(key, value)`.
pub proof fn lemma_cache_read_after_write<V>(
    before: InfoCache<V>,
    after: InfoCache<V>,
    key: Seq<char>,
    value: V,
    other: Seq<char>,
)
    requires
        after@ == before@.insert(key, value),
        other != key,
    ensures
        after@.contains_key(key),
        after@[key] == value,
        after@.contains_key(other) == before@.contains_key(other),
        before@.contains_key(other) ==> after@[other] == before@[other],
{
}

/// What a lookup has just learned.
pub enum LookupEvent<V> {
    /// What the in-memory cache holds under the key.
    InMemory(Option<V>),
    /// What the fresh cache file holds, if there is one.
    OnDisk(Option<V>),
    /// The record built from the network's reply.
    Fetched(V),
}

/// What a lookup does next.
pub enum LookupAction<V> {
    /// Hand back the record.
    Return(V),
    /// Write the record to the in-memory cache and the cache file, then hand it back.
    StoreAndReturn(V),
    /// Read the cache file.
    ReadDisk,
    /// Ask the network.
    Fetch,
}

/// The next step of a lookup: the in-memory cache first, then the cache file
/// (whose record is written back to both caches), then the network (whose record
/// is cached too).
pub fn next_lookup_action<V>(event: LookupEvent<V>) -> (r: LookupAction<V>)
    ensures
        match event {
            LookupEvent::InMemory(Some(v)) => r == LookupAction::Return(v),
            LookupEvent::InMemory(None) => r == LookupAction::<V>::ReadDisk,
            LookupEvent::OnDisk(Some(v)) => r == LookupAction::StoreAndReturn(v),
            LookupEvent::OnDisk(None) => r == LookupAction::<V>::Fetch,
            LookupEvent::Fetched(v) => r == LookupAction::StoreAndReturn(v),
        },
{
    match event {
        LookupEvent::InMemory(Some(v)) => LookupAction::Return(v),
        LookupEvent::InMemory(None) => LookupAction::ReadDisk,
        LookupEvent::OnDisk(Some(v)) => LookupAction::StoreAndReturn(v),
        LookupEvent::OnDisk(None) => LookupAction::Fetch,
        LookupEvent::Fetched(v) => LookupAction::StoreAndReturn(v),
    }
}

} // verus!
