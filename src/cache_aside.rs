use vstd::prelude::*;

use crate::base62::encode_digits;
use crate::error::AppError;
use crate::models::{opt_view, Url, UrlView};
use crate::store::{find_code, find_id, UrlStore};

verus! {

/// Prefix of every cache key.
pub const URL_CACHE_PREFIX: &'static str = "url:";

/// Lifetime of a cache entry, in seconds.
pub const CACHE_TTL_SECONDS: u64 = 3600;

/// Cache-control header value sent with every redirect.
pub const NO_CACHE: &'static str = "no-cache, no-store, must-revalidate";

/// The cache key for short code `code`.
pub open spec fn cache_key_spec(code: Seq<char>) -> Seq<char> {
    URL_CACHE_PREFIX@ + code
}

/// What a cache read gave back. A failed read is kept apart from a miss only
/// so that it can be logged; the lookup treats the two alike.
pub enum CacheProbe {
    Hit(String),
    Miss,
    Unavailable,
}

/// The target that a cache read supplies, if any.
pub open spec fn cached_target(p: CacheProbe) -> Option<Seq<char>> {
    match p {
        CacheProbe::Hit(t) => Some(t@),
        _ => None,
    }
}

/// A resolved lookup: the target, and whether the cache supplied it.
pub struct Resolution {
    pub target: String,
    pub cache_hit: bool,
}

/// The next step of a lookup after the cache has been read.
pub enum LookupNext {
    Resolved(Resolution),
    QueryStore,
}

/// Side work that a lookup schedules and never waits for.
pub enum Task {
    Refill { key: String, target: String, ttl_seconds: u64 },
    CountClick { code: String },
}

/// The answer to a redirect request that found its target.
pub struct Redirect {
    pub status: u16,
    pub location: String,
    pub cache_control: &'static str,
}

/// The result of a whole lookup of `code`: the cache's target when it has
/// one, else the target of the store's record, with whether the cache
/// supplied it.
pub open spec fn lookup_result(cached: Option<Seq<char>>, recs: Seq<UrlView>, code: Seq<char>) -> Option<
    (Seq<char>, bool),
> {
    match cached {
        Some(t) => Some((t, true)),
        None => match find_code(recs, code) {
            Some(u) => Some((u.original_url, false)),
            None => None,
        },
    }
}

pub open spec fn resolution_view(r: Option<Resolution>) -> Option<(Seq<char>, bool)> {
    match r {
        Some(res) => Some((res.target@, res.cache_hit)),
        None => None,
    }
}

/// Message of the not-found error for `code`.
pub open spec fn not_found_message(code: Seq<char>) -> Seq<char> {
    "Short URL '"@ + code + "' not found"@
}

/// `a` followed by `b`.
fn concat(a: &str, b: &str) -> (r: String)
    ensures
        r@ == a@ + b@,
{
    let mut s = a.to_owned();
    s.append(b);
    s
}

/// The decisions of the cache-aside lookup.
pub struct CacheService;

impl CacheService {
    /// The cache key under which the target of `code` is kept.
    pub fn cache_key(code: &str) -> (r: String)
        ensures
            r@ == cache_key_spec(code@),
    {
        concat(URL_CACHE_PREFIX, code)
    }

    /// After the cache read: a hit resolves the lookup; a miss or a failed
    /// read sends it on to the store.
    pub fn after_probe(probe: CacheProbe) -> (r: LookupNext)
        ensures
            match cached_target(probe) {
                Some(t) => r matches LookupNext::Resolved(res) && res.target@ == t && res.cache_hit,
                None => r is QueryStore,
            },
    {
        match probe {
            CacheProbe::Hit(t) => LookupNext::Resolved(Resolution { target: t, cache_hit: true }),
            CacheProbe::Miss => LookupNext::QueryStore,
            CacheProbe::Unavailable => LookupNext::QueryStore,
        }
    }

    /// After the store read: a record resolves the lookup, its absence means
    /// not found.
    pub fn after_store(found: Option<Url>) -> (r: Option<Resolution>)
        ensures
            match opt_view(found) {
                Some(u) => r matches Some(res) && res.target@ == u.original_url && !res.cache_hit,
                None => r is None,
            },
    {
        match found {
            Some(u) => Some(Resolution { target: u.original_url, cache_hit: false }),
            None => None,
        }
    }

    /// The whole lookup of `code` against `store`, given what the cache read
    /// gave back: the cache's target on a hit, else the store's.
    pub fn get_url_with_cache_aside(store: &UrlStore, code: &str, probe: CacheProbe) -> (r: Option<
        Resolution,
    >)
        requires
            store.wf(),
        ensures
            resolution_view(r) == lookup_result(cached_target(probe), store.records(), code@),
    {
        match Self::after_probe(probe) {
            LookupNext::Resolved(res) => Some(res),
            LookupNext::QueryStore => Self::after_store(store.get_by_code(code)),
        }
    }

    /// The side work of a resolved lookup: a refill of the cache when the
    /// store supplied the target, then one click for `code`.
    pub fn follow_up(code: &str, res: &Resolution) -> (r: Vec<Task>)
        ensures
            res.cache_hit ==> r@.len() == 1,
            !res.cache_hit ==> r@.len() == 2 && (r@[0] matches Task::Refill {
                key,
                target,
                ttl_seconds,
            } && key@ == cache_key_spec(code@) && target@ == res.target@ && ttl_seconds
                == CACHE_TTL_SECONDS),
            r@.last() matches Task::CountClick { code: c } && c@ == code@,
    {
        let mut tasks: Vec<Task> = Vec::new();
        if !res.cache_hit {
            tasks.push(
                Task::Refill {
                    key: Self::cache_key(code),
                    target: res.target.clone(),
                    ttl_seconds: CACHE_TTL_SECONDS,
                },
            );
        }
        tasks.push(Task::CountClick { code: code.to_owned() });
        tasks
    }

    /// The reply to a redirect request for `code`: a 302 to the target, or
    /// a not-found error.
    pub fn redirect_reply(code: &str, res: Option<Resolution>) -> (r: Result<Redirect, AppError>)
        ensures
            match res {
                Some(x) => r matches Ok(d) && d.status == 302 && d.location@ == x.target@
                    && d.cache_control == NO_CACHE,
                None => r matches Err(AppError::NotFound(m)) && m@ == not_found_message(code@),
            },
    {
        match res {
            Some(x) => Ok(Redirect { status: 302, location: x.target, cache_control: NO_CACHE }),
            None => {
                let mut m = concat("Short URL '", code);
                m.append("' not found");
                Err(AppError::NotFound(m))
            },
        }
    }
}

/// A failed cache read is handled exactly as a miss: the lookup goes on to
/// the store.
pub proof fn lemma_outage_is_a_miss()
    ensures
        cached_target(CacheProbe::Unavailable) == cached_target(CacheProbe::Miss),
        cached_target(CacheProbe::Unavailable) is None,
{
}

/// A code that no record holds is not found, whether the cache missed or
/// could not be read, and nothing is scheduled to be cached for it.
pub proof fn lemma_unknown_code_not_found(recs: Seq<UrlView>, code: Seq<char>)
    requires
        forall|i: int| 0 <= i < recs.len() ==> recs[i].short_code != code,
    ensures
        find_code(recs, code) is None,
        lookup_result(None, recs, code) is None,
{
    assert forall|k: int| !crate::store::is_first_with_code(recs, code, k) by {
        if 0 <= k < recs.len() {
            assert(recs[k].short_code != code);
        }
    }
}

/// The codes of a well-formed store are unique: a record whose code is the
/// encoding of its identifier is the one that a lookup by that code finds.
proof fn lemma_code_finds_record(s: &UrlStore, id: i64, u: UrlView)
    requires
        s.wf(),
        id >= 0,
        find_id(s.records(), id) == Some(u),
        u.short_code == encode_digits(id as nat),
    ensures
        find_code(s.records(), encode_digits(id as nat)) == Some(u),
{
    let recs = s.records();
    let code = encode_digits(id as nat);
    let k = choose|k: int| 0 <= k < recs.len() && recs[k].id == id;
    assert(recs[k] == u);
    assert forall|i: int| 0 <= i < k implies recs[i].short_code != code by {
        s.lemma_code_owner(i, k);
    }
    crate::store::lemma_first_unique(recs, code, k);
}

/// Creating a record and then looking up its code gives back the target,
/// whether the cache holds the target, missed, or could not be read.
pub proof fn lemma_create_then_lookup(
    s: &UrlStore,
    created: UrlView,
    target: Seq<char>,
    cached: Option<Seq<char>>,
)
    requires
        s.wf(),
        created.id >= 0,
        created.original_url == target,
        created.short_code == encode_digits(created.id as nat),
        find_id(s.records(), created.id) == Some(created),
        cached is None || cached == Some(target),
    ensures
        lookup_result(cached, s.records(), created.short_code) matches Some(
            (t, _),
        ) && t == target,
{
    lemma_code_finds_record(s, created.id, created);
}

} // verus!
