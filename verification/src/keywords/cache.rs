//! In-memory keyword cache with expiry and least-recently-used eviction.
//!
//! Time is a caller-supplied monotonic tick count, so every operation is a
//! function of the cache and its arguments.
use vstd::prelude::*;

use crate::keywords::intent::{ExtractedKeywords, KeywordsView};

verus! {

broadcast use vstd::string::group_string_axioms;

/// Hit, miss and size counters of a cache.
#[derive(Debug, Clone, Copy, PartialEq, Eq, Structural)]
pub struct CacheStats {
    pub hits: u64,
    pub misses: u64,
    pub size: usize,
}

/// One cached keyword set.
pub struct CacheEntry {
    pub key: String,
    pub keywords: ExtractedKeywords,
    /// Tick at which the entry expires, if it does.
    pub expires_at: Option<u64>,
    /// Tick of the last write or hit.
    pub accessed_at: u64,
}

/// The mathematical value of a cache entry.
pub struct EntryModel {
    pub key: Seq<char>,
    pub keywords: KeywordsView,
    pub expires_at: Option<u64>,
    pub accessed_at: u64,
}

impl View for CacheEntry {
    type V = EntryModel;

    open spec fn view(&self) -> EntryModel {
        EntryModel {
            key: self.key@,
            keywords: self.keywords@,
            expires_at: self.expires_at,
            accessed_at: self.accessed_at,
        }
    }
}

/// The views of a list of entries.
pub open spec fn entry_models(s: Seq<CacheEntry>) -> Seq<EntryModel> {
    s.map_values(|e: CacheEntry| e@)
}

/// A bounded keyword cache: entries expire at their deadline, and when full
/// the least recently used entry is evicted.
pub struct InMemoryKeywordCache {
    entries: Vec<CacheEntry>,
    max_size: usize,
    stats: CacheStats,
}

/// The mathematical value of a cache: its entries, capacity and counters.
pub struct CacheModel {
    pub entries: Seq<EntryModel>,
    pub max_size: usize,
    pub stats: CacheStats,
}

impl View for InMemoryKeywordCache {
    type V = CacheModel;

    closed spec fn view(&self) -> CacheModel {
        CacheModel {
            entries: entry_models(self.entries@),
            max_size: self.max_size,
            stats: self.stats,
        }
    }
}

/// Index of the first entry with key `key`, or -1.
pub open spec fn find_key(s: Seq<EntryModel>, key: Seq<char>) -> int
    decreases s.len(),
{
    if s.len() == 0 {
        -1
    } else if s[0].key == key {
        0
    } else if find_key(s.drop_first(), key) < 0 {
        -1
    } else {
        1 + find_key(s.drop_first(), key)
    }
}

/// The entry has expired at tick `now`.
pub open spec fn is_expired(e: EntryModel, now: u64) -> bool {
    match e.expires_at {
        Some(x) => x <= now,
        None => false,
    }
}

/// The entries that have not expired at `now`, in order.
pub open spec fn live_entries(s: Seq<EntryModel>, now: u64) -> Seq<EntryModel>
    decreases s.len(),
{
    if s.len() == 0 {
        seq![]
    } else {
        let p = live_entries(s.drop_last(), now);
        if is_expired(s.last(), now) {
            p
        } else {
            p.push(s.last())
        }
    }
}

/// Index of the first least recently used entry.
pub open spec fn lru_index(s: Seq<EntryModel>) -> int
    decreases s.len(),
{
    if s.len() <= 1 {
        0
    } else {
        let m = lru_index(s.drop_last());
        if s.last().accessed_at < s[m].accessed_at {
            s.len() - 1
        } else {
            m
        }
    }
}

/// Evict least recently used entries until fewer than `max` remain (all of
/// them for `max == 0`).
pub open spec fn evict_lru(s: Seq<EntryModel>, max: usize) -> Seq<EntryModel>
    decreases s.len(),
{
    if s.len() > 0 && s.len() >= max {
        proof {
            lemma_lru_index(s);
        }
        evict_lru(s.remove(lru_index(s)), max)
    } else {
        s
    }
}

/// `x + 1`, wrapping to 0 after the largest value.
pub open spec fn wrap_inc(x: u64) -> u64 {
    if x == u64::MAX {
        0
    } else {
        (x + 1) as u64
    }
}

/// What a get returns and leaves.
pub open spec fn get_spec(m: CacheModel, key: Seq<char>, now: u64) -> (Option<KeywordsView>, CacheModel) {
    let k = find_key(m.entries, key);
    if k < 0 || is_expired(m.entries[k], now) {
        (
            None,
            CacheModel {
                stats: CacheStats { misses: wrap_inc(m.stats.misses), ..m.stats },
                ..m
            },
        )
    } else {
        (
            Some(m.entries[k].keywords),
            CacheModel {
                entries: m.entries.update(k, EntryModel { accessed_at: now, ..m.entries[k] }),
                stats: CacheStats { hits: wrap_inc(m.stats.hits), ..m.stats },
                ..m
            },
        )
    }
}

/// What a set leaves.
pub open spec fn set_spec(
    m: CacheModel,
    key: Seq<char>,
    kw: KeywordsView,
    ttl: Option<u64>,
    now: u64,
) -> CacheModel {
    let e = evict_lru(live_entries(m.entries, now), m.max_size);
    let new_entry = EntryModel {
        key,
        keywords: kw,
        expires_at: match ttl {
            Some(d) => Some((now + d) as u64),
            None => None,
        },
        accessed_at: now,
    };
    let k = find_key(e, key);
    let es = if k >= 0 {
        e.update(k, new_entry)
    } else {
        e.push(new_entry)
    };
    CacheModel { entries: es, stats: CacheStats { size: es.len() as usize, ..m.stats }, ..m }
}

proof fn lemma_find_key(s: Seq<EntryModel>, key: Seq<char>)
    ensures
        -1 <= find_key(s, key) < s.len(),
        find_key(s, key) >= 0 ==> s[find_key(s, key)].key == key && forall|j: int|
            0 <= j < find_key(s, key) ==> s[j].key != key,
        find_key(s, key) < 0 ==> forall|j: int| 0 <= j < s.len() ==> s[j].key != key,
    decreases s.len(),
{
    if s.len() > 0 {
        lemma_find_key(s.drop_first(), key);
        assert forall|j: int| 1 <= j < s.len() implies s[j] == s.drop_first()[j - 1] by {}
    }
}

pub proof fn lemma_lru_index(s: Seq<EntryModel>)
    requires
        s.len() > 0,
    ensures
        0 <= lru_index(s) < s.len(),
    decreases s.len(),
{
    if s.len() > 1 {
        lemma_lru_index(s.drop_last());
    }
}

impl InMemoryKeywordCache {
    /// An empty cache holding at most `max_size` entries.
    pub fn new(max_size: usize) -> (c: Self)
        ensures
            c@.entries.len() == 0,
            c@.max_size == max_size,
            c@.stats == (CacheStats { hits: 0, misses: 0, size: 0 }),
    {
        let c = InMemoryKeywordCache {
            entries: Vec::new(),
            max_size,
            stats: CacheStats { hits: 0, misses: 0, size: 0 },
        };
        proof {
            assert(entry_models(c.entries@) =~= Seq::<EntryModel>::empty());
        }
        c
    }

    fn find(&self, key: &str) -> (r: Option<usize>)
        ensures
            match r {
                Some(k) => k as int == find_key(self@.entries, key@) && k < self.entries@.len(),
                None => find_key(self@.entries, key@) < 0,
            },
    {
        proof {
            lemma_find_key(self@.entries, key@);
        }
        let mut i: usize = 0;
        while i < self.entries.len()
            invariant
                i <= self.entries@.len(),
                forall|j: int| 0 <= j < i ==> entry_models(self.entries@)[j].key != key@,
            decreases self.entries.len() - i,
        {
            if crate::text::str_eq(self.entries[i].key.as_str(), key) {
                proof {
                    lemma_find_key(self@.entries, key@);
                    assert(entry_models(self.entries@)[i as int].key == key@);
                }
                return Some(i);
            }
            i = i + 1;
        }
        proof {
            lemma_find_key(self@.entries, key@);
            if find_key(self@.entries, key@) >= 0 {
                let f = find_key(self@.entries, key@);
                assert(entry_models(self.entries@)[f].key == key@);
            }
        }
        None
    }

    /// Look `key` up at tick `now`: a present, unexpired entry is a hit (its
    /// keywords, with its access tick set to `now`); anything else a miss.
    pub fn get(&mut self, key: &str, now: u64) -> (r: Option<ExtractedKeywords>)
        ensures
            (match r {
                Some(k) => Some(k@),
                None => None,
            }) == get_spec(old(self)@, key@, now).0,
            final(self)@ == get_spec(old(self)@, key@, now).1,
    {
        match self.find(key) {
            Some(k) => {
                let expired = match self.entries[k].expires_at {
                    Some(x) => x <= now,
                    None => false,
                };
                if expired {
                    self.stats.misses = self.stats.misses.wrapping_add(1);
                    return None;
                }
                let kw = self.entries[k].keywords.clone();
                let ghost e0 = self.entries@;
                let mut e = self.entries.remove(k);
                e.accessed_at = now;
                self.entries.insert(k, e);
                self.stats.hits = self.stats.hits.wrapping_add(1);
                proof {
                    assert(entry_models(self.entries@) =~= entry_models(e0).update(
                        k as int,
                        EntryModel { accessed_at: now, ..entry_models(e0)[k as int] },
                    ));
                }
                Some(kw)
            },
            None => {
                self.stats.misses = self.stats.misses.wrapping_add(1);
                None
            },
        }
    }

    /// Store `keywords` under `key` at tick `now`, expiring `ttl` ticks later
    /// (never for `None`): expired entries are dropped first, then least
    /// recently used entries until there is room, then the entry replaces the
    /// one with the same key or is appended.
    pub fn set(&mut self, key: &str, keywords: &ExtractedKeywords, ttl: Option<u64>, now: u64)
        requires
            ttl matches Some(d) ==> now + d <= u64::MAX,
        ensures
            final(self)@ == set_spec(old(self)@, key@, keywords@, ttl, now),
    {
        self.drop_expired(now);
        self.evict_to_fit();
        let entry = CacheEntry {
            key: crate::text::to_string(key),
            keywords: keywords.clone(),
            expires_at: match ttl {
                Some(d) => Some(now + d),
                None => None,
            },
            accessed_at: now,
        };
        let ghost e0 = self.entries@;
        match self.find(key) {
            Some(k) => {
                self.entries.set(k, entry);
                proof {
                    assert(entry_models(self.entries@) =~= entry_models(e0).update(k as int, entry@));
                }
            },
            None => {
                self.entries.push(entry);
                proof {
                    assert(entry_models(self.entries@) =~= entry_models(e0).push(entry@));
                }
            },
        }
        self.stats.size = self.entries.len();
    }

    fn drop_expired(&mut self, now: u64)
        ensures
            final(self)@ == (CacheModel {
                entries: live_entries(old(self)@.entries, now),
                ..old(self)@
            }),
    {
        let mut kept: Vec<CacheEntry> = Vec::new();
        let mut old_entries: Vec<CacheEntry> = Vec::new();
        std::mem::swap(&mut old_entries, &mut self.entries);
        let ghost src = entry_models(old_entries@);
        let n = old_entries.len();
        let mut i: usize = 0;
        proof {
            assert(entry_models(kept@) =~= live_entries(src.take(0), now));
            assert(entry_models(old_entries@) =~= src.skip(0));
        }
        while old_entries.len() > 0
            invariant
                i + old_entries@.len() == n,
                src.len() == n,
                entry_models(old_entries@) == src.skip(i as int),
                entry_models(kept@) == live_entries(src.take(i as int), now),
                self.entries@.len() == 0,
                self.max_size == old(self).max_size,
                self.stats == old(self).stats,
            decreases old_entries.len(),
        {
            let ghost o0 = old_entries@;
            let e = old_entries.remove(0);
            proof {
                assert(entry_models(o0)[0] == e@);
                assert(src.skip(i as int)[0] == src[i as int]);
                assert forall|k: int| 0 <= k < old_entries@.len() implies entry_models(old_entries@)[k]
                    == src.skip(i + 1)[k] by {
                    assert(old_entries@[k] == o0[k + 1]);
                    assert(entry_models(o0)[k + 1] == src.skip(i as int)[k + 1]);
                }
                assert(entry_models(old_entries@) =~= src.skip(i + 1));
                assert(src.take(i + 1).drop_last() =~= src.take(i as int));
                assert(src.take(i + 1).last() == src[i as int]);
            }
            let expired = match e.expires_at {
                Some(x) => x <= now,
                None => false,
            };
            if !expired {
                let ghost k0 = kept@;
                let ghost ev = e@;
                kept.push(e);
                proof {
                    assert(entry_models(kept@) =~= entry_models(k0).push(ev));
                }
            }
            i = i + 1;
        }
        proof {
            assert(src.take(n as int) =~= src);
        }
        self.entries = kept;
    }

    fn lru_position(&self) -> (r: usize)
        requires
            self.entries@.len() > 0,
        ensures
            r as int == lru_index(self@.entries),
            r < self.entries@.len(),
    {
        let ghost s = self@.entries;
        let mut m: usize = 0;
        let mut i: usize = 1;
        proof {
            assert(s.take(1).len() == 1);
        }
        while i < self.entries.len()
            invariant
                1 <= i <= self.entries@.len(),
                s == entry_models(self.entries@),
                m < i,
                m as int == lru_index(s.take(i as int)),
            decreases self.entries.len() - i,
        {
            proof {
                let t = s.take(i + 1);
                assert(t.drop_last() =~= s.take(i as int));
                assert(t.last() == s[i as int]);
                assert(t[m as int] == s[m as int]);
                assert(s.take(i as int)[m as int] == s[m as int]);
            }
            if self.entries[i].accessed_at < self.entries[m].accessed_at {
                m = i;
            }
            i = i + 1;
        }
        proof {
            assert(s.take(s.len() as int) =~= s);
        }
        m
    }

    fn evict_to_fit(&mut self)
        ensures
            final(self)@ == (CacheModel {
                entries: evict_lru(old(self)@.entries, old(self)@.max_size),
                ..old(self)@
            }),
    {
        while self.entries.len() > 0 && self.entries.len() >= self.max_size
            invariant
                evict_lru(old(self)@.entries, old(self)@.max_size) == evict_lru(
                    self@.entries,
                    self.max_size,
                ),
                self.max_size == old(self).max_size,
                self.stats == old(self).stats,
            decreases self.entries.len(),
        {
            let k = self.lru_position();
            let ghost e0 = self.entries@;
            let _gone = self.entries.remove(k);
            proof {
                assert(entry_models(self.entries@) =~= entry_models(e0).remove(k as int));
            }
        }
    }

    /// Remove the entry of `key`, if any.
    pub fn delete(&mut self, key: &str)
        ensures
            final(self)@ == (if find_key(old(self)@.entries, key@) >= 0 {
                CacheModel {
                    entries: old(self)@.entries.remove(find_key(old(self)@.entries, key@)),
                    stats: CacheStats {
                        size: (old(self)@.entries.len() - 1) as usize,
                        ..old(self)@.stats
                    },
                    ..old(self)@
                }
            } else {
                CacheModel {
                    stats: CacheStats { size: old(self)@.entries.len() as usize, ..old(self)@.stats },
                    ..old(self)@
                }
            }),
    {
        match self.find(key) {
            Some(k) => {
                let ghost e0 = self.entries@;
                let _gone = self.entries.remove(k);
                proof {
                    assert(entry_models(self.entries@) =~= entry_models(e0).remove(k as int));
                }
            },
            None => {},
        }
        self.stats.size = self.entries.len();
    }

    /// Remove every entry.
    pub fn clear(&mut self)
        ensures
            final(self)@ == (CacheModel {
                entries: Seq::<EntryModel>::empty(),
                stats: CacheStats { size: 0, ..old(self)@.stats },
                ..old(self)@
            }),
    {
        self.entries = Vec::new();
        self.stats.size = 0;
        proof {
            assert(entry_models(self.entries@) =~= Seq::<EntryModel>::empty());
        }
    }

    /// The hit, miss and size counters.
    pub fn stats(&self) -> (s: CacheStats)
        ensures
            s == self@.stats,
    {
        self.stats
    }

    /// Bring keywords found in a durable second-level cache into this one at
    /// tick `now` (ticks are milliseconds): they are stored for a day, or
    /// until the clock's end when a day would run past it.
    pub fn promote_durable_hit(&mut self, key: &str, keywords: &ExtractedKeywords, now: u64)
        ensures
            final(self)@ == set_spec(
                old(self)@,
                key@,
                keywords@,
                Some(
                    if DURABLE_PROMOTION_TTL_MS <= u64::MAX - now {
                        DURABLE_PROMOTION_TTL_MS
                    } else {
                        (u64::MAX - now) as u64
                    },
                ),
                now,
            ),
    {
        let room = u64::MAX - now;
        let ttl = if DURABLE_PROMOTION_TTL_MS <= room {
            DURABLE_PROMOTION_TTL_MS
        } else {
            room
        };
        self.set(key, keywords, Some(ttl), now);
    }
}

/// How long keywords promoted from the durable cache stay: one day, in
/// milliseconds.
pub const DURABLE_PROMOTION_TTL_MS: u64 = 86_400_000;

/// A read gives back the last write: right after storing `kw` under `key`
/// at tick `now`, a lookup of `key` at tick `later` (no earlier than `now`)
/// hits with `kw` unless the entry's time to live has run out by then.
pub proof fn law_get_after_set(
    m: CacheModel,
    key: Seq<char>,
    kw: KeywordsView,
    ttl: Option<u64>,
    now: u64,
    later: u64,
)
    requires
        ttl matches Some(d) ==> now + d <= u64::MAX,
        now <= later,
    ensures
        get_spec(set_spec(m, key, kw, ttl, now), key, later).0 == (match ttl {
            Some(d) => if now + d <= later {
                None
            } else {
                Some(kw)
            },
            None => Some(kw),
        }),
{
    let e = evict_lru(live_entries(m.entries, now), m.max_size);
    let s = set_spec(m, key, kw, ttl, now);
    lemma_find_key(e, key);
    lemma_find_key(s.entries, key);
    let k = find_key(e, key);
    let j = find_key(s.entries, key);
    if k >= 0 {
        assert(s.entries[k].key == key);
        if j < k {
            assert(s.entries[j] == e[j]);
        }
        if j > k {
            assert(s.entries[k].key == key);
        }
        assert(j == k);
    } else {
        assert(s.entries[e.len() as int].key == key);
        if j >= 0 && j < e.len() {
            assert(s.entries[j] == e[j]);
        }
        assert(j == e.len());
    }
}

proof fn lemma_evict_lru_len(s: Seq<EntryModel>, max: usize)
    ensures
        evict_lru(s, max).len() < max || evict_lru(s, max).len() == 0,
        evict_lru(s, max).len() <= s.len(),
    decreases s.len(),
{
    if s.len() > 0 && s.len() >= max {
        lemma_lru_index(s);
        lemma_evict_lru_len(s.remove(lru_index(s)), max);
    }
}

proof fn lemma_live_len(s: Seq<EntryModel>, now: u64)
    ensures
        live_entries(s, now).len() <= s.len(),
    decreases s.len(),
{
    if s.len() > 0 {
        lemma_live_len(s.drop_last(), now);
    }
}

/// A cache stays within its capacity: after a store it holds at most
/// `max(max_size, 1)` entries.
pub proof fn law_set_respects_capacity(
    m: CacheModel,
    key: Seq<char>,
    kw: KeywordsView,
    ttl: Option<u64>,
    now: u64,
)
    ensures
        set_spec(m, key, kw, ttl, now).entries.len() <= (if m.max_size == 0 {
            1
        } else {
            m.max_size as int
        }),
{
    let l = live_entries(m.entries, now);
    lemma_evict_lru_len(l, m.max_size);
    let e = evict_lru(l, m.max_size);
    lemma_find_key(e, key);
}

} // verus!
