use vstd::prelude::*;

verus! {

/// How long a cached copy of the artifact database stays fresh, in seconds:
/// 24 hours.
pub const CACHE_MAX_AGE_SECS: u64 = 86400;

/// The cached copy of the artifact database: its JSON text and how many
/// seconds ago it was written.
pub struct CachedDb {
    pub json: String,
    pub age_secs: u64,
}

/// An artifact database text to use, and whether it came over the network
/// and so belongs in the cache.
pub struct LoadedDb {
    pub json: String,
    pub store_in_cache: bool,
}

/// Whether a copy written `age_secs` seconds ago is still fresh.
pub open spec fn is_fresh(age_secs: u64) -> bool {
    age_secs < CACHE_MAX_AGE_SECS
}

/// A copy is fresh exactly while it is younger than 24 hours: every younger
/// copy is fresh, every copy that old or older is stale, and a copy that is
/// stale stays stale as it ages.
pub proof fn lemma_freshness(age: u64, older: u64)
    ensures
        is_fresh(age) <==> age < 86400,
        age <= older && is_fresh(older) ==> is_fresh(age),
        age <= older && !is_fresh(age) ==> !is_fresh(older),
        !is_fresh(CACHE_MAX_AGE_SECS),
        CACHE_MAX_AGE_SECS > 0 ==> is_fresh((CACHE_MAX_AGE_SECS - 1) as u64),
{
}

/// Whether the cache holds a fresh copy.
pub open spec fn has_fresh(cache: Option<CachedDb>) -> bool {
    cache matches Some(c) && is_fresh(c.age_secs)
}

/// Whether the database must be fetched: only when the cache holds no fresh
/// copy.
pub fn needs_fetch(cache: &Option<CachedDb>) -> (r: bool)
    ensures
        r == !has_fresh(*cache),
        cache is None ==> r,
        cache matches Some(c) ==> (r <==> c.age_secs >= CACHE_MAX_AGE_SECS),
{
    match cache {
        Some(c) => c.age_secs >= CACHE_MAX_AGE_SECS,
        None => true,
    }
}

/// The newer artifact database to use, if there is one: a fresh cached copy
/// first, else a copy just fetched (which then belongs in the cache), else
/// none, and the copy bundled with the program is used.
pub fn load_or_fetch(cache: Option<CachedDb>, fetched: Option<String>) -> (r: Option<LoadedDb>)
    ensures
        has_fresh(cache) ==> (r matches Some(l) && l.json@ == cache->0.json@ && !l.store_in_cache),
        !has_fresh(cache) && fetched is Some ==> (r matches Some(l) && l.json@ == fetched->0@
            && l.store_in_cache),
        !has_fresh(cache) && fetched is None ==> r is None,
        cache is Some && cache->0.age_secs < CACHE_MAX_AGE_SECS ==> (r matches Some(l) && l.json@
            == cache->0.json@ && !l.store_in_cache),
        (cache is None || cache->0.age_secs >= CACHE_MAX_AGE_SECS) && fetched is Some ==> (r matches Some(
            l,
        ) && l.json@ == fetched->0@ && l.store_in_cache),
        (cache is None || cache->0.age_secs >= CACHE_MAX_AGE_SECS) && fetched is None ==> r is None,
{
    match cache {
        Some(c) => {
            if c.age_secs < CACHE_MAX_AGE_SECS {
                return Some(LoadedDb { json: c.json, store_in_cache: false });
            }
        },
        None => {},
    }
    match fetched {
        Some(f) => Some(LoadedDb { json: f, store_in_cache: true }),
        None => None,
    }
}

/// The JSON text of the artifact database to use: a loaded one if there is
/// one, else the copy bundled with the program.
pub fn artifacts_json(loaded: Option<LoadedDb>, bundled: &str) -> (r: String)
    ensures
        loaded matches Some(l) ==> r@ == l.json@,
        loaded is None ==> r@ == bundled@,
{
    match loaded {
        Some(l) => l.json,
        None => {
            let mut r = String::new();
            r.append(bundled);
            r
        },
    }
}

} // verus!
