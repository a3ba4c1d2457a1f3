//! A time-bounded product cache: identifier to record plus expiry, with
//! staleness checked lazily at lookup time and no eviction pass.
use vstd::prelude::*;

use crate::record::ProductRecord;
use crate::text::str_eq;

verus! {

/// Cache freshness window: thirty minutes, in seconds.
pub const TTL_SECONDS: i64 = 1800;

/// One cached record and the moment it stops being fresh.
pub struct CacheEntry {
    pub record: ProductRecord,
    pub expires_at: i64,
}

/// The first entry of `entries` whose key reads `k`, if any.
pub open spec fn spec_assoc(entries: Seq<(String, CacheEntry)>, k: Seq<char>) -> Option<CacheEntry>
    decreases entries.len(),
{
    if entries.len() == 0 {
        None
    } else if entries[0].0@ == k {
        Some(entries[0].1)
    } else {
        spec_assoc(entries.drop_first(), k)
    }
}

/// What a cache read returns on the map `m` at time `now`: the record under
/// `k`, provided its entry has not expired.
pub open spec fn spec_cache_get(
    m: Map<Seq<char>, CacheEntry>,
    k: Seq<char>,
    now: i64,
) -> Option<ProductRecord> {
    if m.contains_key(k) && now <= m[k].expires_at {
        Some(m[k].record)
    } else {
        None
    }
}

/// Maps each identifier to at most one entry; unbounded, with no capacity
/// eviction.
pub struct ProductCache {
    entries: Vec<(String, CacheEntry)>,
}

proof fn lemma_assoc_push(s: Seq<(String, CacheEntry)>, e: (String, CacheEntry), k: Seq<char>)
    ensures
        spec_assoc(s.push(e), k) == if spec_assoc(s, k) is Some {
            spec_assoc(s, k)
        } else if e.0@ == k {
            Some(e.1)
        } else {
            None
        },
    decreases s.len(),
{
    if s.len() == 0 {
        assert(spec_assoc(s, k) is None);
        assert(s.push(e)[0] == e);
        if e.0@ == k {
            assert(spec_assoc(s.push(e), k) == Some(e.1));
        } else {
            assert(s.push(e).drop_first() =~= Seq::<(String, CacheEntry)>::empty());
            assert(spec_assoc(s.push(e).drop_first(), k) is None);
            assert(spec_assoc(s.push(e), k) is None);
        }
    } else {
        assert(s.push(e)[0] == s[0]);
        if s[0].0@ == k {
            assert(spec_assoc(s, k) == Some(s[0].1));
            assert(spec_assoc(s.push(e), k) == Some(s[0].1));
        } else {
            assert(s.push(e).drop_first() =~= s.drop_first().push(e));
            lemma_assoc_push(s.drop_first(), e, k);
        }
    }
}

/// Pairwise-distinct keys.
pub open spec fn unique_keys(s: Seq<(String, CacheEntry)>) -> bool {
    forall|i: int, j: int| 0 <= i < j < s.len() ==> s[i].0@ != s[j].0@
}

proof fn lemma_assoc_update(
    s: Seq<(String, CacheEntry)>,
    i: int,
    e: (String, CacheEntry),
    k: Seq<char>,
)
    requires
        0 <= i < s.len(),
        unique_keys(s),
        s[i].0@ == e.0@,
    ensures
        spec_assoc(s.update(i, e), k) == if e.0@ == k {
            Some(e.1)
        } else {
            spec_assoc(s, k)
        },
    decreases s.len(),
{
    let s2 = s.update(i, e);
    if i == 0 {
        assert(s2[0] == e);
        if e.0@ != k {
            assert(s2.drop_first() =~= s.drop_first());
        }
    } else {
        assert(s2[0] == s[0]);
        if s[0].0@ == k {
            // The updated key sits deeper in the list, so it differs from the
            // head's key and the head still answers first.
            assert(e.0@ != k);
        } else {
            assert(s2.drop_first() =~= s.drop_first().update(i - 1, e));
            assert(unique_keys(s.drop_first())) by {
                assert(forall|a: int, b: int|
                    0 <= a < b < s.drop_first().len() ==> s.drop_first()[a] == s[a + 1]
                        && s.drop_first()[b] == s[b + 1]);
            }
            lemma_assoc_update(s.drop_first(), i - 1, e, k);
        }
    }
}

impl View for ProductCache {
    type V = Map<Seq<char>, CacheEntry>;

    /// The cache as a mapping from identifier characters to entries.
    closed spec fn view(&self) -> Map<Seq<char>, CacheEntry> {
        Map::new(
            |k: Seq<char>| spec_assoc(self.entries@, k) is Some,
            |k: Seq<char>| spec_assoc(self.entries@, k)->Some_0,
        )
    }
}

impl ProductCache {
    /// Internal shape: at most one entry per identifier.
    pub closed spec fn wf(&self) -> bool {
        unique_keys(self.entries@)
    }

    /// An empty cache.
    pub fn new() -> (r: Self)
        ensures
            r.wf(),
            r@ == Map::<Seq<char>, CacheEntry>::empty(),
    {
        let r = ProductCache { entries: Vec::new() };
        proof {
            assert(r@ =~= Map::<Seq<char>, CacheEntry>::empty());
        }
        r
    }

    /// The position of `identifier`'s entry, if it has one.
    fn find_index(&self, identifier: &str) -> (r: Option<usize>)
        ensures
            match r {
                Some(i) => i < self.entries@.len() && self.entries@[i as int].0@ == identifier@
                    && spec_assoc(self.entries@, identifier@) == Some(self.entries@[i as int].1),
                None => spec_assoc(self.entries@, identifier@) is None,
            },
    {
        let n = self.entries.len();
        let mut i: usize = 0;
        assert(self.entries@.skip(0) =~= self.entries@);
        while i < n
            invariant
                i <= n,
                n == self.entries@.len(),
                spec_assoc(self.entries@.skip(i as int), identifier@) == spec_assoc(
                    self.entries@,
                    identifier@,
                ),
            decreases n - i,
        {
            assert(self.entries@.skip(i as int)[0] == self.entries@[i as int]);
            if str_eq(self.entries[i].0.as_str(), identifier) {
                return Some(i);
            }
            assert(self.entries@.skip(i as int).drop_first() =~= self.entries@.skip(i as int + 1));
            i += 1;
        }
        assert(self.entries@.skip(n as int).len() == 0);
        None
    }

    /// Serves `identifier` if an entry exists and is still fresh at `now`;
    /// a stale or absent entry reads as nothing, so the caller refetches.
    pub fn get(&self, identifier: &str, now: i64) -> (r: Option<ProductRecord>)
        requires
            self.wf(),
        ensures
            r == spec_cache_get(self@, identifier@, now),
    {
        match self.find_index(identifier) {
            None => None,
            Some(i) => {
                let entry = &self.entries[i].1;
                if now <= entry.expires_at {
                    Some(entry.record.clone())
                } else {
                    None
                }
            },
        }
    }

    /// Overwrites (or creates) `identifier`'s entry with `record`, fresh for
    /// the whole window starting at `now`.
    pub fn put(&mut self, identifier: &str, record: ProductRecord, now: i64)
        requires
            old(self).wf(),
            now <= i64::MAX - TTL_SECONDS,
        ensures
            final(self).wf(),
            final(self)@ == old(self)@.insert(
                identifier@,
                (CacheEntry { record, expires_at: (now + TTL_SECONDS) as i64 }),
            ),
    {
        let entry = CacheEntry { record, expires_at: now + TTL_SECONDS };
        let key = identifier.to_owned();
        match self.find_index(identifier) {
            Some(i) => {
                let ghost olds = self.entries@;
                self.entries[i] = (key, entry);
                proof {
                    assert forall|k2: Seq<char>|
                        spec_assoc(self.entries@, k2) == if identifier@ == k2 {
                            Some(self.entries@[i as int].1)
                        } else {
                            spec_assoc(olds, k2)
                        } by {
                        lemma_assoc_update(olds, i as int, self.entries@[i as int], k2);
                    }
                    assert(self@ =~= old(self)@.insert(identifier@, self.entries@[i as int].1));
                }
            },
            None => {
                let ghost olds = self.entries@;
                let ghost e = (key, entry);
                self.entries.push((key, entry));
                proof {
                    assert forall|k2: Seq<char>|
                        spec_assoc(self.entries@, k2) == if spec_assoc(olds, k2) is Some {
                            spec_assoc(olds, k2)
                        } else if identifier@ == k2 {
                            Some(self.entries@.last().1)
                        } else {
                            None::<CacheEntry>
                        } by {
                        lemma_assoc_push(olds, e, k2);
                    }
                    // The new key was absent, so the keys stay pairwise
                    // distinct.
                    assert(unique_keys(self.entries@)) by {
                        assert forall|a: int| 0 <= a < olds.len() implies olds[a].0@ != identifier@
                            by {
                            if olds[a].0@ == identifier@ {
                                lemma_assoc_some_at(olds, a, identifier@);
                            }
                        }
                        assert(forall|a: int|
                            0 <= a < olds.len() ==> self.entries@[a] == olds[a]);
                    }
                    assert(self@ =~= old(self)@.insert(identifier@, e.1));
                }
            },
        }
    }
}

proof fn lemma_assoc_some_at(s: Seq<(String, CacheEntry)>, i: int, k: Seq<char>)
    requires
        0 <= i < s.len(),
        s[i].0@ == k,
    ensures
        spec_assoc(s, k) is Some,
    decreases s.len(),
{
    if s[0].0@ != k {
        lemma_assoc_some_at(s.drop_first(), i - 1, k);
    }
}

/// Law: a `get` after a `put` at time `t` is a hit — returning exactly the
/// record that was put — for every `now` up to `t` plus the freshness window,
/// and a miss for every later `now`.
pub proof fn lemma_get_after_put(
    m: Map<Seq<char>, CacheEntry>,
    k: Seq<char>,
    record: ProductRecord,
    t: i64,
    now: i64,
)
    requires
        t <= i64::MAX - TTL_SECONDS,
    ensures
        t <= now <= t + TTL_SECONDS ==> spec_cache_get(
            m.insert(k, (CacheEntry { record, expires_at: (t + TTL_SECONDS) as i64 })),
            k,
            now,
        ) == Some(record),
        now > t + TTL_SECONDS ==> spec_cache_get(
            m.insert(k, (CacheEntry { record, expires_at: (t + TTL_SECONDS) as i64 })),
            k,
            now,
        ) is None,
{
}

} // verus!
