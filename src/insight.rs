use vstd::prelude::*;
use vstd::string::StringExecFns;
use crate::ambient::now_seconds;
use crate::error::{found, StoreError};
use crate::keyed::KeyedTable;

verus! {

/// How long a saved insight stays readable unless a caller says otherwise:
/// 24 hours, in seconds.
pub const DEFAULT_TTL_SECS: u32 = 86400;

/// A cached insight document, the time it was saved and the time from which
/// it is no longer valid (both in seconds since the Unix epoch).
pub struct CachedInsight {
    pub insight: serde_json::Value,
    pub created_at: i64,
    pub expires_at: i64,
}

/// The cache slot of a product handle: `scope:handle` when a scope qualifier
/// is given, the bare handle otherwise.
pub open spec fn cache_key_of(scope: Option<Seq<char>>, handle: Seq<char>) -> Seq<char> {
    match scope {
        Some(s) => s + seq![':'] + handle,
        None => handle,
    }
}

/// `now + ttl`, held at the largest representable time where it would pass it.
pub open spec fn expiry(now: i64, ttl: u32) -> i64 {
    if now + ttl > i64::MAX {
        i64::MAX
    } else {
        (now + ttl) as i64
    }
}

/// The cache after `insight` is saved under `key` at time `now` for `ttl`
/// seconds: the slot is overwritten whole, creation time and expiry included.
pub open spec fn cache_saved(
    m: Map<Seq<char>, CachedInsight>,
    key: Seq<char>,
    insight: serde_json::Value,
    now: i64,
    ttl: u32,
) -> Map<Seq<char>, CachedInsight> {
    m.insert(key, CachedInsight { insight, created_at: now, expires_at: expiry(now, ttl) })
}

/// Whether the slot `key` holds an entry that has not expired at `now`.
pub open spec fn is_live(m: Map<Seq<char>, CachedInsight>, key: Seq<char>, now: i64) -> bool {
    m.contains_key(key) && now < m[key].expires_at
}

/// What a read of `key` at `now` yields.
pub open spec fn cache_read(m: Map<Seq<char>, CachedInsight>, key: Seq<char>, now: i64) -> Option<
    serde_json::Value,
> {
    if is_live(m, key, now) {
        Some(m[key].insight)
    } else {
        None
    }
}

/// The cache after a read of `key` at `now`: an expired entry under `key` is
/// evicted, nothing else changes.
pub open spec fn cache_after_read(m: Map<Seq<char>, CachedInsight>, key: Seq<char>, now: i64) -> Map<
    Seq<char>,
    CachedInsight,
> {
    if m.contains_key(key) && now >= m[key].expires_at {
        m.remove(key)
    } else {
        m
    }
}

/// Builds the cache slot name for `product_handle` under an optional scope.
pub fn cache_key(scope: Option<&str>, product_handle: &str) -> (r: String)
    ensures
        r@ == cache_key_of(
            match scope {
                Some(s) => Some(s@),
                None => None,
            },
            product_handle@,
        ),
{
    match scope {
        Some(s) => {
            let mut key = <String as StringExecFns>::from_str(s);
            key.append(":");
            key.append(product_handle);
            proof {
                reveal_strlit(":");
            }
            key
        },
        None => <String as StringExecFns>::from_str(product_handle),
    }
}

/// A time-bounded cache of insight documents with lazy eviction: an entry is
/// only removed by a read that finds it expired, or replaced by a later save.
pub struct InsightCache {
    table: KeyedTable<CachedInsight>,
}

impl View for InsightCache {
    type V = Map<Seq<char>, CachedInsight>;

    closed spec fn view(&self) -> Map<Seq<char>, CachedInsight> {
        self.table@
    }
}

impl InsightCache {
    pub closed spec fn wf(&self) -> bool {
        self.table.wf()
    }

    /// An empty cache.
    pub fn new() -> (r: Self)
        ensures
            r.wf(),
            r@ == Map::<Seq<char>, CachedInsight>::empty(),
    {
        InsightCache { table: KeyedTable::new() }
    }

    /// Whether a row is stored under `key`, expired or not.
    pub fn holds(&self, key: &String) -> (r: bool)
        requires
            self.wf(),
        ensures
            r == self@.contains_key(key@),
    {
        self.table.contains(key)
    }

    /// Reads `key` at time `now`. A live entry's document is returned; an
    /// expired one is deleted and reported `NotFound`, as is a missing one.
    pub fn get(&mut self, key: &String, now: i64) -> (r: Result<serde_json::Value, StoreError>)
        requires
            old(self).wf(),
        ensures
            final(self).wf(),
            r == found(cache_read(old(self)@, key@, now)),
            final(self)@ == cache_after_read(old(self)@, key@, now),
    {
        let expired = match self.table.get(key) {
            Some(e) => {
                if now < e.expires_at {
                    return Ok(e.insight.clone());
                }
                true
            },
            None => false,
        };
        if expired {
            self.table.remove(key);
        }
        Err(StoreError::NotFound)
    }

    /// Saves `insight` under `key` at time `now`, valid for `ttl` seconds:
    /// insert-or-replace of document and expiry.
    pub fn save(&mut self, key: String, insight: serde_json::Value, now: i64, ttl: u32)
        requires
            old(self).wf(),
        ensures
            final(self).wf(),
            final(self)@ == cache_saved(old(self)@, key@, insight, now, ttl),
    {
        let expires_at: i64 = if now > i64::MAX - ttl as i64 {
            i64::MAX
        } else {
            now + ttl as i64
        };
        self.table.upsert(key, CachedInsight { insight, created_at: now, expires_at });
    }

    /// Reads `key` at the current time.
    pub fn get_now(&mut self, key: &String) -> (r: Result<serde_json::Value, StoreError>)
        requires
            old(self).wf(),
        ensures
            final(self).wf(),
            exists|now: i64|
                r == found(cache_read(old(self)@, key@, now)) && final(self)@ == #[trigger] cache_after_read(
                    old(self)@,
                    key@,
                    now,
                ),
    {
        let now = now_seconds();
        self.get(key, now)
    }

    /// Saves `insight` under `key` at the current time, valid for the default
    /// 24 hours.
    pub fn save_now(&mut self, key: String, insight: serde_json::Value)
        requires
            old(self).wf(),
        ensures
            final(self).wf(),
            exists|now: i64|
                final(self)@ == #[trigger] cache_saved(
                    old(self)@,
                    key@,
                    insight,
                    now,
                    DEFAULT_TTL_SECS,
                ),
    {
        let now = now_seconds();
        self.save(key, insight, now, DEFAULT_TTL_SECS);
    }
}

/// An entry saved at `saved_at` with a TTL of `ttl` seconds is returned by
/// every read before `saved_at + ttl`, which leaves it in place; every read
/// from then on reports it absent and removes its row.
pub proof fn lemma_ttl(
    m: Map<Seq<char>, CachedInsight>,
    key: Seq<char>,
    insight: serde_json::Value,
    saved_at: i64,
    ttl: u32,
    t: i64,
)
    requires
        saved_at + ttl <= i64::MAX,
    ensures
        t < saved_at + ttl ==> cache_read(cache_saved(m, key, insight, saved_at, ttl), key, t)
            == Some(insight) && cache_after_read(cache_saved(m, key, insight, saved_at, ttl), key, t)
            == cache_saved(m, key, insight, saved_at, ttl),
        t >= saved_at + ttl ==> cache_read(cache_saved(m, key, insight, saved_at, ttl), key, t)
            == None::<serde_json::Value> && cache_after_read(
            cache_saved(m, key, insight, saved_at, ttl),
            key,
            t,
        ) == m.remove(key),
{
    let saved = cache_saved(m, key, insight, saved_at, ttl);
    assert(saved.remove(key) =~= m.remove(key));
}

/// Saving the same insight twice under one key leaves the cache as the
/// second save alone would: every read agrees with it, and a read before the
/// second save's expiry returns the insight.
pub proof fn lemma_cache_save_twice(
    m: Map<Seq<char>, CachedInsight>,
    key: Seq<char>,
    insight: serde_json::Value,
    t0: i64,
    t1: i64,
    ttl: u32,
    t: i64,
)
    ensures
        cache_saved(cache_saved(m, key, insight, t0, ttl), key, insight, t1, ttl) == cache_saved(
            m,
            key,
            insight,
            t1,
            ttl,
        ),
        t1 + ttl <= i64::MAX && t < t1 + ttl ==> cache_read(
            cache_saved(cache_saved(m, key, insight, t0, ttl), key, insight, t1, ttl),
            key,
            t,
        ) == Some(insight),
{
    assert(cache_saved(cache_saved(m, key, insight, t0, ttl), key, insight, t1, ttl) =~= cache_saved(
        m,
        key,
        insight,
        t1,
        ttl,
    ));
}

/// The scoped slot of a handle is never its unscoped slot.
pub proof fn lemma_scoped_slots_distinct(scope: Seq<char>, handle: Seq<char>)
    ensures
        cache_key_of(Some(scope), handle) != cache_key_of(None, handle),
{
    assert(cache_key_of(Some(scope), handle).len() > handle.len());
}

} // verus!
