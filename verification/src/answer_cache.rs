//! Product answer cache: identical fully built prompts get the same answer
//! back without a new generation.
//!
//! The key of a prompt is the lowercase hex SHA-256 of its UTF-8 bytes.
//! Time is a caller-supplied monotonic tick count (milliseconds for
//! [`InMemoryAnswerCache::with_defaults`]).
use vstd::prelude::*;

use sha2::Digest;

use crate::keywords::cache::wrap_inc;

verus! {

broadcast use vstd::string::group_string_axioms;

// ---------------------------------------------------------------------------
// Keys
// ---------------------------------------------------------------------------

/// The SHA-256 digest of `data`, as the `sha2` crate computes it.
pub uninterp spec fn sha256_of(data: Seq<u8>) -> Seq<u8>;

/// `sha2::Sha256::digest`: the 32-byte SHA-256 digest of `data`. The
/// digest is named by `sha256_of`; its length is the one fact stated.
#[verifier::external_body]
fn sha256_digest(data: &[u8]) -> (r: Vec<u8>)
    ensures
        r@ == sha256_of(data@),
        r@.len() == 32,
{
    sha2::Sha256::digest(data).to_vec()
}

/// The lowercase hex digit of `d` (0 to 15).
pub open spec fn hex_digit(d: nat) -> char {
    if d < 10 {
        ((d + 48) as u32) as char
    } else {
        ((d + 87) as u32) as char
    }
}

/// Two lowercase hex digits per byte, in order.
pub open spec fn hex_lower(bytes: Seq<u8>) -> Seq<char>
    decreases bytes.len(),
{
    if bytes.len() == 0 {
        seq![]
    } else {
        hex_lower(bytes.drop_last()) + seq![
            hex_digit((bytes.last() / 16) as nat),
            hex_digit((bytes.last() % 16) as nat),
        ]
    }
}

fn hex_digit_exec(d: u8) -> (c: char)
    requires
        d < 16,
    ensures
        c == hex_digit(d as nat),
{
    if d < 10 {
        ((d + 48) as u32 as u8) as char
    } else {
        ((d + 87) as u32 as u8) as char
    }
}

/// The cache key of a fully built prompt: the lowercase hex SHA-256 of its
/// UTF-8 bytes (64 characters).
pub fn answer_cache_key(prompt: &str) -> (k: String)
    ensures
        k@ == hex_lower(sha256_of(vstd::utf8::encode_utf8(prompt@))),
{
    let digest = sha256_digest(prompt.as_bytes());
    let mut out = String::new();
    let mut i: usize = 0;
    proof {
        assert(digest@.take(0) =~= Seq::<u8>::empty());
    }
    while i < digest.len()
        invariant
            i <= digest@.len(),
            out@ == hex_lower(digest@.take(i as int)),
        decreases digest.len() - i,
    {
        let b = digest[i];
        crate::text::push_char(&mut out, hex_digit_exec(b / 16));
        crate::text::push_char(&mut out, hex_digit_exec(b % 16));
        proof {
            let t = digest@.take(i + 1);
            assert(t.drop_last() =~= digest@.take(i as int));
            assert(t.last() == b);
            assert(out@ =~= hex_lower(t));
        }
        i = i + 1;
    }
    proof {
        assert(digest@.take(digest@.len() as int) =~= digest@);
    }
    out
}

// ---------------------------------------------------------------------------
// The cache
// ---------------------------------------------------------------------------

/// One cached answer.
pub struct AnswerEntry {
    pub key: String,
    pub answer: String,
    /// Tick at which the entry expires, if it does.
    pub expires_at: Option<u64>,
    /// Tick of the last write or hit.
    pub accessed_at: u64,
}

/// The mathematical value of an answer entry.
pub struct AnswerEntryModel {
    pub key: Seq<char>,
    pub answer: Seq<char>,
    pub expires_at: Option<u64>,
    pub accessed_at: u64,
}

impl View for AnswerEntry {
    type V = AnswerEntryModel;

    open spec fn view(&self) -> AnswerEntryModel {
        AnswerEntryModel {
            key: self.key@,
            answer: self.answer@,
            expires_at: self.expires_at,
            accessed_at: self.accessed_at,
        }
    }
}

pub open spec fn answer_models(s: Seq<AnswerEntry>) -> Seq<AnswerEntryModel> {
    s.map_values(|e: AnswerEntry| e@)
}

/// A bounded answer cache with a fixed time to live: entries expire
/// `ttl` ticks after their write; when full the least recently used entry
/// is evicted.
pub struct InMemoryAnswerCache {
    entries: Vec<AnswerEntry>,
    max_size: usize,
    ttl: u64,
    hits: u64,
    misses: u64,
}

/// The mathematical value of an answer cache.
pub struct AnswerCacheModel {
    pub entries: Seq<AnswerEntryModel>,
    pub max_size: usize,
    pub ttl: u64,
    pub hits: u64,
    pub misses: u64,
}

impl View for InMemoryAnswerCache {
    type V = AnswerCacheModel;

    closed spec fn view(&self) -> AnswerCacheModel {
        AnswerCacheModel {
            entries: answer_models(self.entries@),
            max_size: self.max_size,
            ttl: self.ttl,
            hits: self.hits,
            misses: self.misses,
        }
    }
}

/// Index of the first entry with key `key`, or -1.
pub open spec fn find_answer(s: Seq<AnswerEntryModel>, key: Seq<char>) -> int
    decreases s.len(),
{
    if s.len() == 0 {
        -1
    } else if s[0].key == key {
        0
    } else if find_answer(s.drop_first(), key) < 0 {
        -1
    } else {
        1 + find_answer(s.drop_first(), key)
    }
}

/// The entry has expired at tick `now`.
pub open spec fn answer_expired(e: AnswerEntryModel, now: u64) -> bool {
    match e.expires_at {
        Some(x) => x <= now,
        None => false,
    }
}

/// The entries that have not expired at `now`, in order.
pub open spec fn live_answers(s: Seq<AnswerEntryModel>, now: u64) -> Seq<AnswerEntryModel>
    decreases s.len(),
{
    if s.len() == 0 {
        seq![]
    } else {
        let p = live_answers(s.drop_last(), now);
        if answer_expired(s.last(), now) {
            p
        } else {
            p.push(s.last())
        }
    }
}

/// Index of the first least recently used entry.
pub open spec fn oldest_index(s: Seq<AnswerEntryModel>) -> int
    decreases s.len(),
{
    if s.len() <= 1 {
        0
    } else {
        let m = oldest_index(s.drop_last());
        if s.last().accessed_at < s[m].accessed_at {
            s.len() - 1
        } else {
            m
        }
    }
}

pub proof fn lemma_oldest_index(s: Seq<AnswerEntryModel>)
    requires
        s.len() > 0,
    ensures
        0 <= oldest_index(s) < s.len(),
    decreases s.len(),
{
    if s.len() > 1 {
        lemma_oldest_index(s.drop_last());
    }
}

/// Evict least recently used entries until fewer than `max` remain.
pub open spec fn evict_oldest(s: Seq<AnswerEntryModel>, max: usize) -> Seq<AnswerEntryModel>
    decreases s.len(),
{
    if s.len() > 0 && s.len() >= max {
        proof {
            lemma_oldest_index(s);
        }
        evict_oldest(s.remove(oldest_index(s)), max)
    } else {
        s
    }
}

/// What a lookup returns and leaves: a present, unexpired entry is a hit
/// (its access tick set to `now`); an expired one is removed and, like an
/// absent one, counts as a miss.
pub open spec fn answer_get_spec(m: AnswerCacheModel, key: Seq<char>, now: u64) -> (
    Option<Seq<char>>,
    AnswerCacheModel,
) {
    let k = find_answer(m.entries, key);
    if k < 0 {
        (None, AnswerCacheModel { misses: wrap_inc(m.misses), ..m })
    } else if answer_expired(m.entries[k], now) {
        (None, AnswerCacheModel { entries: m.entries.remove(k), misses: wrap_inc(m.misses), ..m })
    } else {
        (
            Some(m.entries[k].answer),
            AnswerCacheModel {
                entries: m.entries.update(k, AnswerEntryModel { accessed_at: now, ..m.entries[k] }),
                hits: wrap_inc(m.hits),
                ..m
            },
        )
    }
}

/// What a store leaves: expired entries dropped, least recently used ones
/// evicted until there is room, then the entry (expiring `ttl` ticks
/// after `now`) replacing the one of its key or appended.
pub open spec fn answer_set_spec(m: AnswerCacheModel, key: Seq<char>, answer: Seq<char>, now: u64) -> AnswerCacheModel {
    let e = evict_oldest(live_answers(m.entries, now), m.max_size);
    let new_entry = AnswerEntryModel {
        key,
        answer,
        expires_at: Some((now + m.ttl) as u64),
        accessed_at: now,
    };
    let k = find_answer(e, key);
    AnswerCacheModel {
        entries: if k >= 0 {
            e.update(k, new_entry)
        } else {
            e.push(new_entry)
        },
        ..m
    }
}

proof fn lemma_find_answer(s: Seq<AnswerEntryModel>, key: Seq<char>)
    ensures
        -1 <= find_answer(s, key) < s.len(),
        find_answer(s, key) >= 0 ==> s[find_answer(s, key)].key == key && forall|j: int|
            0 <= j < find_answer(s, key) ==> s[j].key != key,
        find_answer(s, key) < 0 ==> forall|j: int| 0 <= j < s.len() ==> s[j].key != key,
    decreases s.len(),
{
    if s.len() > 0 {
        lemma_find_answer(s.drop_first(), key);
        assert forall|j: int| 1 <= j < s.len() implies s[j] == s.drop_first()[j - 1] by {}
    }
}

impl InMemoryAnswerCache {
    /// An empty cache holding at most `max_size` answers for `ttl` ticks.
    pub fn new(max_size: usize, ttl: u64) -> (c: Self)
        ensures
            c@.entries.len() == 0,
            c@.max_size == max_size,
            c@.ttl == ttl,
            c@.hits == 0,
            c@.misses == 0,
    {
        let c = InMemoryAnswerCache { entries: Vec::new(), max_size, ttl, hits: 0, misses: 0 };
        proof {
            assert(answer_models(c.entries@) =~= Seq::<AnswerEntryModel>::empty());
        }
        c
    }

    /// 1 000 answers for an hour (3 600 000 millisecond ticks).
    pub fn with_defaults() -> (c: Self)
        ensures
            c@.entries.len() == 0,
            c@.max_size == 1000,
            c@.ttl == 3_600_000,
            c@.hits == 0,
            c@.misses == 0,
    {
        Self::new(1000, 3_600_000)
    }

    pub fn hits(&self) -> (n: u64)
        ensures
            n == self@.hits,
    {
        self.hits
    }

    pub fn misses(&self) -> (n: u64)
        ensures
            n == self@.misses,
    {
        self.misses
    }

    fn find(&self, key: &str) -> (r: Option<usize>)
        ensures
            match r {
                Some(k) => k as int == find_answer(self@.entries, key@) && k < self.entries@.len(),
                None => find_answer(self@.entries, key@) < 0,
            },
    {
        proof {
            lemma_find_answer(self@.entries, key@);
        }
        let mut i: usize = 0;
        while i < self.entries.len()
            invariant
                i <= self.entries@.len(),
                forall|j: int| 0 <= j < i ==> answer_models(self.entries@)[j].key != key@,
            decreases self.entries.len() - i,
        {
            if crate::text::str_eq(self.entries[i].key.as_str(), key) {
                proof {
                    lemma_find_answer(self@.entries, key@);
                    assert(answer_models(self.entries@)[i as int].key == key@);
                }
                return Some(i);
            }
            i = i + 1;
        }
        proof {
            lemma_find_answer(self@.entries, key@);
            if find_answer(self@.entries, key@) >= 0 {
                let f = find_answer(self@.entries, key@);
                assert(answer_models(self.entries@)[f].key == key@);
            }
        }
        None
    }

    /// Look `key` up at tick `now` (see [`answer_get_spec`]).
    pub fn get(&mut self, key: &str, now: u64) -> (r: Option<String>)
        ensures
            (match r {
                Some(a) => Some(a@),
                None => None,
            }) == answer_get_spec(old(self)@, key@, now).0,
            final(self)@ == answer_get_spec(old(self)@, key@, now).1,
    {
        match self.find(key) {
            Some(k) => {
                let expired = match self.entries[k].expires_at {
                    Some(x) => x <= now,
                    None => false,
                };
                let ghost e0 = self.entries@;
                if expired {
                    let _gone = self.entries.remove(k);
                    self.misses = self.misses.wrapping_add(1);
                    proof {
                        assert(answer_models(self.entries@) =~= answer_models(e0).remove(k as int));
                    }
                    return None;
                }
                let answer = self.entries[k].answer.clone();
                let mut e = self.entries.remove(k);
                e.accessed_at = now;
                self.entries.insert(k, e);
                self.hits = self.hits.wrapping_add(1);
                proof {
                    assert(answer_models(self.entries@) =~= answer_models(e0).update(
                        k as int,
                        AnswerEntryModel { accessed_at: now, ..answer_models(e0)[k as int] },
                    ));
                }
                Some(answer)
            },
            None => {
                self.misses = self.misses.wrapping_add(1);
                None
            },
        }
    }

    fn drop_expired(&mut self, now: u64)
        ensures
            final(self)@ == (AnswerCacheModel {
                entries: live_answers(old(self)@.entries, now),
                ..old(self)@
            }),
    {
        let mut kept: Vec<AnswerEntry> = Vec::new();
        let mut old_entries: Vec<AnswerEntry> = Vec::new();
        std::mem::swap(&mut old_entries, &mut self.entries);
        let ghost src = answer_models(old_entries@);
        let n = old_entries.len();
        let mut i: usize = 0;
        proof {
            assert(answer_models(kept@) =~= live_answers(src.take(0), now));
            assert(answer_models(old_entries@) =~= src.skip(0));
        }
        while old_entries.len() > 0
            invariant
                i + old_entries@.len() == n,
                src.len() == n,
                answer_models(old_entries@) == src.skip(i as int),
                answer_models(kept@) == live_answers(src.take(i as int), now),
                self.entries@.len() == 0,
                self.max_size == old(self).max_size,
                self.ttl == old(self).ttl,
                self.hits == old(self).hits,
                self.misses == old(self).misses,
            decreases old_entries.len(),
        {
            let ghost o0 = old_entries@;
            let e = old_entries.remove(0);
            proof {
                assert(answer_models(o0)[0] == e@);
                assert(src.skip(i as int)[0] == src[i as int]);
                assert forall|k: int| 0 <= k < old_entries@.len() implies answer_models(old_entries@)[k]
                    == src.skip(i + 1)[k] by {
                    assert(old_entries@[k] == o0[k + 1]);
                    assert(answer_models(o0)[k + 1] == src.skip(i as int)[k + 1]);
                }
                assert(answer_models(old_entries@) =~= src.skip(i + 1));
                assert(src.take(i + 1).drop_last() =~= src.take(i as int));
                assert(src.take(i + 1).last() == src[i as int]);
            }
            let expired = match e.expires_at {
                Some(x) => x <= now,
                None => false,
            };
            if !expired {
                let ghost k0 = kept@;
                let ghost ev = e@;
                kept.push(e);
                proof {
                    assert(answer_models(kept@) =~= answer_models(k0).push(ev));
                }
            }
            i = i + 1;
        }
        proof {
            assert(src.take(n as int) =~= src);
        }
        self.entries = kept;
    }

    fn oldest_position(&self) -> (r: usize)
        requires
            self.entries@.len() > 0,
        ensures
            r as int == oldest_index(self@.entries),
            r < self.entries@.len(),
    {
        let ghost s = self@.entries;
        let mut m: usize = 0;
        let mut i: usize = 1;
        while i < self.entries.len()
            invariant
                1 <= i <= self.entries@.len(),
                s == answer_models(self.entries@),
                m < i,
                m as int == oldest_index(s.take(i as int)),
            decreases self.entries.len() - i,
        {
            proof {
                let t = s.take(i + 1);
                assert(t.drop_last() =~= s.take(i as int));
                assert(t.last() == s[i as int]);
                assert(t[m as int] == s[m as int]);
                assert(s.take(i as int)[m as int] == s[m as int]);
            }
            if self.entries[i].accessed_at < self.entries[m].accessed_at {
                m = i;
            }
            i = i + 1;
        }
        proof {
            assert(s.take(s.len() as int) =~= s);
        }
        m
    }

    fn evict_to_fit(&mut self)
        ensures
            final(self)@ == (AnswerCacheModel {
                entries: evict_oldest(old(self)@.entries, old(self)@.max_size),
                ..old(self)@
            }),
    {
        while self.entries.len() > 0 && self.entries.len() >= self.max_size
            invariant
                evict_oldest(old(self)@.entries, old(self)@.max_size) == evict_oldest(
                    self@.entries,
                    self.max_size,
                ),
                self.max_size == old(self).max_size,
                self.ttl == old(self).ttl,
                self.hits == old(self).hits,
                self.misses == old(self).misses,
            decreases self.entries.len(),
        {
            let k = self.oldest_position();
            let ghost e0 = self.entries@;
            let _gone = self.entries.remove(k);
            proof {
                assert(answer_models(self.entries@) =~= answer_models(e0).remove(k as int));
            }
        }
    }

    /// Store `answer` under `key` at tick `now` (see [`answer_set_spec`]).
    pub fn set(&mut self, key: &str, answer: &str, now: u64)
        requires
            now + old(self)@.ttl <= u64::MAX,
        ensures
            final(self)@ == answer_set_spec(old(self)@, key@, answer@, now),
    {
        self.drop_expired(now);
        self.evict_to_fit();
        let entry = AnswerEntry {
            key: crate::text::to_string(key),
            answer: crate::text::to_string(answer),
            expires_at: Some(now + self.ttl),
            accessed_at: now,
        };
        let ghost e0 = self.entries@;
        match self.find(key) {
            Some(k) => {
                self.entries.set(k, entry);
                proof {
                    assert(answer_models(self.entries@) =~= answer_models(e0).update(k as int, entry@));
                }
            },
            None => {
                self.entries.push(entry);
                proof {
                    assert(answer_models(self.entries@) =~= answer_models(e0).push(entry@));
                }
            },
        }
    }

    /// Remove every entry.
    pub fn clear(&mut self)
        ensures
            final(self)@ == (AnswerCacheModel { entries: Seq::<AnswerEntryModel>::empty(), ..old(self)@ }),
    {
        self.entries = Vec::new();
        proof {
            assert(answer_models(self.entries@) =~= Seq::<AnswerEntryModel>::empty());
        }
    }
}

/// A read gives back the last write: right after storing `answer` under
/// `key` at tick `now`, a lookup of `key` at tick `later` hits with
/// `answer` while the time to live has not run out, and misses once it has.
pub proof fn law_answer_get_after_set(
    m: AnswerCacheModel,
    key: Seq<char>,
    answer: Seq<char>,
    now: u64,
    later: u64,
)
    requires
        now + m.ttl <= u64::MAX,
    ensures
        answer_get_spec(answer_set_spec(m, key, answer, now), key, later).0 == (if now + m.ttl
            <= later {
            None
        } else {
            Some(answer)
        }),
{
    let e = evict_oldest(live_answers(m.entries, now), m.max_size);
    let s = answer_set_spec(m, key, answer, now);
    lemma_find_answer(e, key);
    lemma_find_answer(s.entries, key);
    let k = find_answer(e, key);
    let j = find_answer(s.entries, key);
    if k >= 0 {
        assert(s.entries[k].key == key);
        if j < k {
            assert(s.entries[j] == e[j]);
        }
        assert(j == k);
    } else {
        assert(s.entries[e.len() as int].key == key);
        if j >= 0 && j < e.len() {
            assert(s.entries[j] == e[j]);
        }
        assert(j == e.len());
    }
}

} // verus!
