//! A bounded, time-limited cache of generated capsules, keyed by query, token
//! budget, intent and index generation.
use vstd::prelude::*;

use std::time::Instant;

verus! {

#[verifier::external_type_specification]
#[verifier::external_body]
pub struct ExInstant(Instant);

/// `Instant::now`: the current reading of the monotonic clock. Nothing is
/// claimed about the value.
#[verifier::external_body]
fn instant_now() -> Instant {
    Instant::now()
}

/// `Instant::elapsed`: nanoseconds since `epoch`, saturated to `u64`. The
/// value depends on the clock, so nothing is claimed about it.
#[verifier::external_body]
fn nanos_since(epoch: &Instant) -> u64 {
    u64::try_from(epoch.elapsed().as_nanos()).unwrap_or(u64::MAX)
}

/// The key of a cached capsule.
#[derive(Debug, Clone)]
struct CacheKey {
    query: String,
    token_budget: usize,
    intent: String,
    index_generation: u64,
}

struct CacheEntry {
    key: CacheKey,
    result: String,
    /// Nanoseconds since the cache's epoch at which the entry was stored.
    created_at: u64,
}

/// Default number of cached capsules.
pub const DEFAULT_MAX_ENTRIES: usize = 100;

/// Default lifetime of a cached capsule, in seconds.
pub const DEFAULT_TTL_SECS: u64 = 300;

/// Capsules cached by (query, token budget, intent, index generation); an
/// entry expires `ttl_secs` seconds after it was stored, and at capacity the
/// oldest entry makes room for a new one.
pub struct CapsuleCache {
    entries: Vec<CacheEntry>,
    max_entries: usize,
    ttl_secs: u64,
    epoch: Instant,
}

/// (query, token budget, intent, index generation)
pub type KeyView = (Seq<char>, int, Seq<char>, int);

/// (key, cached capsule, creation time in nanoseconds since the epoch)
pub type EntryView = (KeyView, Seq<char>, int);

spec fn key_view(k: CacheKey) -> KeyView {
    (k.query@, k.token_budget as int, k.intent@, k.index_generation as int)
}

spec fn entry_view(e: CacheEntry) -> EntryView {
    (key_view(e.key), e.result@, e.created_at as int)
}

/// Whole seconds between `created` and `now` (zero if `now` is earlier).
pub open spec fn age_secs(created: int, now: int) -> int {
    if now >= created {
        (now - created) / 1_000_000_000
    } else {
        0
    }
}

/// The entries younger than `ttl` seconds at `now`, in order.
pub open spec fn fresh_entries(s: Seq<EntryView>, now: int, ttl: int) -> Seq<EntryView>
    decreases s.len(),
{
    if s.len() == 0 {
        seq![]
    } else if age_secs(s.last().2, now) < ttl {
        fresh_entries(s.drop_last(), now, ttl).push(s.last())
    } else {
        fresh_entries(s.drop_last(), now, ttl)
    }
}

/// The first index of an entry with the least creation time.
pub open spec fn oldest_index(s: Seq<EntryView>) -> int
    decreases s.len(),
{
    if s.len() <= 1 {
        0
    } else {
        let i = oldest_index(s.drop_last());
        if s.last().2 < s[i].2 {
            s.len() - 1
        } else {
            i
        }
    }
}

/// The first index at or after `i` whose entry has key `k`, or `-1`.
pub open spec fn find_from(s: Seq<EntryView>, k: KeyView, i: int) -> int
    decreases s.len() - i,
{
    if i < 0 || i >= s.len() {
        -1
    } else if s[i].0 == k {
        i
    } else {
        find_from(s, k, i + 1)
    }
}

/// The cached capsule for `k` at time `now`, if it is present and younger
/// than `ttl` seconds.
pub open spec fn lookup(s: Seq<EntryView>, k: KeyView, now: int, ttl: int) -> Option<Seq<char>> {
    let i = find_from(s, k, 0);
    if i < 0 {
        None
    } else if age_secs(s[i].2, now) < ttl {
        Some(s[i].1)
    } else {
        None
    }
}

/// The entries after storing `v` under `k` at `now`: expired entries are
/// dropped; at capacity the first oldest remaining entry is evicted; then the
/// entry for `k` is replaced in place, or appended when there is none.
pub open spec fn stored(s: Seq<EntryView>, k: KeyView, v: Seq<char>, now: int, ttl: int, max: int) -> Seq<EntryView> {
    let f = fresh_entries(s, now, ttl);
    let e = if f.len() >= max && f.len() > 0 {
        f.remove(oldest_index(f))
    } else {
        f
    };
    let i = find_from(e, k, 0);
    if i >= 0 {
        e.update(i, (k, v, now))
    } else {
        e.push((k, v, now))
    }
}

impl CapsuleCache {
    /// The cached entries, in order.
    pub closed spec fn view_entries(&self) -> Seq<EntryView> {
        self.entries@.map_values(|e: CacheEntry| entry_view(e))
    }

    pub closed spec fn capacity(&self) -> int {
        self.max_entries as int
    }

    pub closed spec fn ttl(&self) -> int {
        self.ttl_secs as int
    }

    /// An empty cache holding at most `max_entries` entries (once full, the
    /// oldest makes room) that expire `ttl_secs` seconds after being stored.
    pub fn new(max_entries: usize, ttl_secs: u64) -> (r: Self)
        ensures
            r.view_entries().len() == 0,
            r.capacity() == max_entries,
            r.ttl() == ttl_secs,
    {
        let epoch = instant_now();
        CapsuleCache { entries: Vec::new(), max_entries, ttl_secs, epoch }
    }

    fn find(&self, k: &CacheKey) -> (r: usize)
        ensures
            r <= self.entries@.len(),
            find_from(self.view_entries(), key_view(*k), 0) == if r < self.entries@.len() {
                r as int
            } else {
                -1
            },
    {
        let ghost s = self.view_entries();
        let mut i: usize = 0;
        while i < self.entries.len()
            invariant
                i <= self.entries@.len(),
                s == self.view_entries(),
                find_from(s, key_view(*k), 0) == find_from(s, key_view(*k), i as int),
            decreases self.entries@.len() - i,
        {
            let e = &self.entries[i];
            assert(s[i as int] == entry_view(*e));
            if e.key.query == k.query && e.key.token_budget == k.token_budget && e.key.intent
                == k.intent && e.key.index_generation == k.index_generation {
                return i;
            }
            i += 1;
        }
        i
    }

    /// The cached capsule for the key at time `now` (nanoseconds since the
    /// cache's epoch): present and younger than the time-to-live, or `None`.
    pub fn get_at(
        &self,
        query: &str,
        token_budget: usize,
        intent: &str,
        index_generation: u64,
        now: u64,
    ) -> (r: Option<String>)
        ensures
            match r {
                Some(s) => lookup(
                    self.view_entries(),
                    (query@, token_budget as int, intent@, index_generation as int),
                    now as int,
                    self.ttl(),
                ) == Some(s@),
                None => lookup(
                    self.view_entries(),
                    (query@, token_budget as int, intent@, index_generation as int),
                    now as int,
                    self.ttl(),
                ) is None,
            },
    {
        let k = Self::make_key(query, token_budget, intent, index_generation);
        let i = self.find(&k);
        if i == self.entries.len() {
            return None;
        }
        let e = &self.entries[i];
        assert(self.view_entries()[i as int] == entry_view(*e));
        let age = if now >= e.created_at {
            (now - e.created_at) / 1_000_000_000
        } else {
            0
        };
        if age < self.ttl_secs {
            Some(e.result.clone())
        } else {
            None
        }
    }

    /// Tries to get a cached capsule; `None` on a miss or an expired entry.
    /// Whether an entry has expired depends on the clock: the result is the
    /// lookup at one reading of it (nanoseconds since the cache's epoch), so a
    /// present entry whose lifetime no reading can exceed is always found.
    pub fn get(&self, query: &str, token_budget: usize, intent: &str, index_generation: u64) -> (r: Option<String>)
        ensures
            exists|now: u64|
                #[trigger] lookup(
                    self.view_entries(),
                    (query@, token_budget as int, intent@, index_generation as int),
                    now as int,
                    self.ttl(),
                ) == match r {
                    Some(s) => Some(s@),
                    None => None,
                },
            r matches Some(s) ==> exists|now: int|
                lookup(
                    self.view_entries(),
                    (query@, token_budget as int, intent@, index_generation as int),
                    now,
                    self.ttl(),
                ) == Some(s@),
            find_from(
                self.view_entries(),
                (query@, token_budget as int, intent@, index_generation as int),
                0,
            ) < 0 ==> r is None,
    {
        let now = nanos_since(&self.epoch);
        let r = self.get_at(query, token_budget, intent, index_generation, now);
        assert(lookup(
            self.view_entries(),
            (query@, token_budget as int, intent@, index_generation as int),
            now as int,
            self.ttl(),
        ) == match r {
            Some(s) => Some(s@),
            None => None,
        });
        r
    }

    /// Stores a capsule under the key at time `now` (nanoseconds since the
    /// cache's epoch): expired entries are dropped first, then, at capacity,
    /// the oldest entry is evicted, and the key's entry is replaced or added.
    pub fn put_at(
        &mut self,
        query: &str,
        token_budget: usize,
        intent: &str,
        index_generation: u64,
        result: String,
        now: u64,
    )
        ensures
            final(self).view_entries() == stored(
                old(self).view_entries(),
                (query@, token_budget as int, intent@, index_generation as int),
                result@,
                now as int,
                old(self).ttl(),
                old(self).capacity(),
            ),
            final(self).capacity() == old(self).capacity(),
            final(self).ttl() == old(self).ttl(),
    {
        let ghost s = self.view_entries();
        let ttl = self.ttl_secs;
        let mut kept: Vec<CacheEntry> = Vec::new();
        let mut old_entries: Vec<CacheEntry> = Vec::new();
        std::mem::swap(&mut old_entries, &mut self.entries);
        let ghost ov = old_entries@;
        assert(ov.map_values(|e: CacheEntry| entry_view(e)) == s);
        let mut src = old_entries;
        let mut i: usize = 0;
        let n = src.len();
        while i < n
            invariant
                n == ov.len(),
                i <= n,
                src@ == ov.skip(i as int),
                s == ov.map_values(|e: CacheEntry| entry_view(e)),
                kept@.map_values(|e: CacheEntry| entry_view(e)) == fresh_entries(s.take(i as int), now as int, ttl as int),
            decreases n - i,
        {
            let e = src.remove(0);
            assert(e == ov[i as int]);
            assert(src@ =~= ov.skip(i as int + 1));
            assert(s.take(i as int + 1).drop_last() =~= s.take(i as int));
            assert(s.take(i as int + 1).last() == entry_view(e));
            let age = if now >= e.created_at {
                (now - e.created_at) / 1_000_000_000
            } else {
                0
            };
            if age < ttl {
                let ghost o = kept@;
                kept.push(e);
                assert(kept@.map_values(|x: CacheEntry| entry_view(x)) =~= o.map_values(|x: CacheEntry| entry_view(x)).push(entry_view(e)));
            }
            i += 1;
        }
        assert(s.take(n as int) =~= s);
        let ghost f = fresh_entries(s, now as int, ttl as int);
        if kept.len() >= self.max_entries && kept.len() > 0 {
            let mut oldest: usize = 0;
            let mut j: usize = 1;
            while j < kept.len()
                invariant
                    1 <= j <= kept@.len(),
                    oldest < j,
                    f == kept@.map_values(|e: CacheEntry| entry_view(e)),
                    oldest == oldest_index(f.take(j as int)),
                decreases kept@.len() - j,
            {
                assert(f.take(j as int + 1).drop_last() =~= f.take(j as int));
                assert(f.take(j as int)[oldest as int] == f[oldest as int]);
                if kept[j].created_at < kept[oldest].created_at {
                    oldest = j;
                }
                j += 1;
            }
            assert(f.take(kept@.len() as int) =~= f);
            let ghost kb = kept@;
            kept.remove(oldest);
            assert(kept@.map_values(|e: CacheEntry| entry_view(e)) =~= f.remove(oldest as int));
        }
        self.entries = kept;
        let k = Self::make_key(query, token_budget, intent, index_generation);
        let at = self.find(&k);
        let entry = CacheEntry { key: k, result, created_at: now };
        let ghost e = self.view_entries();
        if at < self.entries.len() {
            self.entries.set(at, entry);
            assert(self.view_entries() =~= e.update(at as int, entry_view(entry)));
        } else {
            self.entries.push(entry);
            assert(self.view_entries() =~= e.push(entry_view(entry)));
        }
    }

    /// Stores a capsule in the cache, evicting expired entries and, at
    /// capacity, the oldest one. Which entries have expired depends on the
    /// clock.
    pub fn put(
        &mut self,
        query: &str,
        token_budget: usize,
        intent: &str,
        index_generation: u64,
        result: String,
    )
        ensures
            exists|now: int|
                final(self).view_entries() == stored(
                    old(self).view_entries(),
                    (query@, token_budget as int, intent@, index_generation as int),
                    result@,
                    now,
                    old(self).ttl(),
                    old(self).capacity(),
                ),
            final(self).capacity() == old(self).capacity(),
            final(self).ttl() == old(self).ttl(),
    {
        let now = nanos_since(&self.epoch);
        self.put_at(query, token_budget, intent, index_generation, result, now);
    }

    fn make_key(query: &str, token_budget: usize, intent: &str, index_generation: u64) -> (r: CacheKey)
        ensures
            key_view(r) == (query@, token_budget as int, intent@, index_generation as int),
    {
        CacheKey {
            query: query.to_owned(),
            token_budget,
            intent: intent.to_owned(),
            index_generation,
        }
    }
}

impl Default for CapsuleCache {
    fn default() -> (r: Self)
        ensures
            r.view_entries().len() == 0,
            r.capacity() == DEFAULT_MAX_ENTRIES,
            r.ttl() == DEFAULT_TTL_SECS,
    {
        Self::new(DEFAULT_MAX_ENTRIES, DEFAULT_TTL_SECS)
    }
}

proof fn lemma_find_from_update(s: Seq<EntryView>, k: KeyView, i: int, e: EntryView)
    requires
        0 <= i < s.len(),
        find_from(s, k, 0) == i,
        e.0 == k,
    ensures
        find_from(s.update(i, e), k, 0) == i,
{
    assert forall|t: int| 0 <= t < i implies s.update(i, e)[t].0 != k by {
        lemma_find_skips(s, k, 0, t);
    }
    lemma_find_reaches(s.update(i, e), k, 0, i);
}

/// When `find_from(s, k, lo)` is `r`, no index in `lo..r` (or `lo..` when `r`
/// is `-1`) holds key `k`.
proof fn lemma_find_skips(s: Seq<EntryView>, k: KeyView, lo: int, t: int)
    requires
        0 <= lo <= t < s.len(),
        find_from(s, k, lo) > t || find_from(s, k, lo) < 0,
    ensures
        s[t].0 != k,
    decreases t - lo,
{
    if lo < t {
        if s[lo].0 == k {
        } else {
            lemma_find_skips(s, k, lo + 1, t);
        }
    }
}

/// If no index in `lo..i` holds `k` and index `i` does, the search from `lo`
/// finds `i`.
proof fn lemma_find_reaches(s: Seq<EntryView>, k: KeyView, lo: int, i: int)
    requires
        0 <= lo <= i < s.len(),
        forall|t: int| lo <= t < i ==> s[t].0 != k,
        s[i].0 == k,
    ensures
        find_from(s, k, lo) == i,
    decreases i - lo,
{
    if lo < i {
        lemma_find_reaches(s, k, lo + 1, i);
    }
}

/// After a capsule is stored under a key at time `now`, reading the key at
/// time `later` gives that capsule while it is younger than the lifetime, and
/// nothing once it is not (with a lifetime of zero, never): an expired entry
/// is never served, and a second store under the key replaces the first.
pub proof fn lemma_get_after_put(
    s: Seq<EntryView>,
    k: KeyView,
    v: Seq<char>,
    now: int,
    later: int,
    ttl: int,
    max: int,
)
    ensures
        lookup(stored(s, k, v, now, ttl, max), k, later, ttl) == if age_secs(now, later) < ttl {
            Some(v)
        } else {
            None
        },
{
    let f = fresh_entries(s, now, ttl);
    let e = if f.len() >= max && f.len() > 0 {
        f.remove(oldest_index(f))
    } else {
        f
    };
    let i = find_from(e, k, 0);
    if i >= 0 {
        lemma_find_in_range(e, k, 0);
        lemma_find_from_update(e, k, i, (k, v, now));
    } else {
        let p = e.push((k, v, now));
        assert forall|t: int| 0 <= t < e.len() implies p[t].0 != k by {
            lemma_find_skips(e, k, 0, t);
            assert(p[t] == e[t]);
        }
        lemma_find_reaches(p, k, 0, e.len() as int);
    }
}

/// At capacity, with every entry still fresh and a key not cached yet,
/// storing evicts the first of the oldest entries and appends the new one;
/// every other entry stays as it was.
pub proof fn lemma_put_evicts_oldest(s: Seq<EntryView>, k: KeyView, v: Seq<char>, now: int, ttl: int, max: int)
    requires
        s.len() >= max,
        s.len() > 0,
        fresh_entries(s, now, ttl) == s,
        forall|j: int| 0 <= j < s.len() ==> #[trigger] s[j].0 != k,
    ensures
        stored(s, k, v, now, ttl, max) == s.remove(oldest_index(s)).push((k, v, now)),
{
    lemma_oldest_in_range(s);
    let o = oldest_index(s);
    let e = s.remove(o);
    lemma_find_in_range(e, k, 0);
    if find_from(e, k, 0) >= 0 {
        let r = find_from(e, k, 0);
        if r < o {
            assert(e[r] == s[r]);
        } else {
            assert(e[r] == s[r + 1]);
        }
    }
}

proof fn lemma_find_in_range(s: Seq<EntryView>, k: KeyView, lo: int)
    requires
        0 <= lo,
    ensures
        find_from(s, k, lo) >= 0 ==> lo <= find_from(s, k, lo) < s.len() && s[find_from(s, k, lo)].0
            == k,
    decreases s.len() - lo,
{
    if lo < s.len() {
        lemma_find_in_range(s, k, lo + 1);
    }
}

proof fn lemma_fresh_len(s: Seq<EntryView>, now: int, ttl: int)
    ensures
        fresh_entries(s, now, ttl).len() <= s.len(),
    decreases s.len(),
{
    if s.len() > 0 {
        lemma_fresh_len(s.drop_last(), now, ttl);
    }
}

proof fn lemma_oldest_in_range(s: Seq<EntryView>)
    requires
        s.len() > 0,
    ensures
        0 <= oldest_index(s) < s.len(),
    decreases s.len(),
{
    if s.len() > 1 {
        lemma_oldest_in_range(s.drop_last());
    }
}

/// The cache never grows past its capacity (one entry when the capacity is
/// zero): storing into a cache that holds at most that many entries leaves at
/// most that many.
pub proof fn lemma_stored_within_capacity(
    s: Seq<EntryView>,
    k: KeyView,
    v: Seq<char>,
    now: int,
    ttl: int,
    max: int,
)
    requires
        s.len() <= if max >= 1 {
            max
        } else {
            1
        },
    ensures
        stored(s, k, v, now, ttl, max).len() <= if max >= 1 {
            max
        } else {
            1
        },
{
    let f = fresh_entries(s, now, ttl);
    lemma_fresh_len(s, now, ttl);
    let e = if f.len() >= max && f.len() > 0 {
        lemma_oldest_in_range(f);
        f.remove(oldest_index(f))
    } else {
        f
    };
    assert(e.len() < if max >= 1 {
        max
    } else {
        1
    });
    lemma_find_in_range(e, k, 0);
    let i = find_from(e, k, 0);
    if i >= 0 {
        assert(e.update(i, (k, v, now)).len() == e.len());
    }
}

} // verus!
