//! The bookkeeping of the performance optimizer: the caches of propagated
//! states and of coordinate transformation contexts, their expiry, the
//! reuse decision for a cached state, the memory limit, and the grid of
//! time steps for a scan.
//!
//! Instants are nanoseconds since the Unix epoch.

use crate::passes::{in_range, whole_seconds, INSTANT_BOUND, NANOS_PER_SECOND};
use std::collections::BTreeMap;
use vstd::prelude::*;

verus! {

broadcast use {vstd::std_specs::btree::group_btree_axioms, vstd::laws_cmp::group_laws_cmp};

/// The quotient of `t` by `d`, rounded toward zero, as Rust's `/` computes
/// it on signed integers.
pub open spec fn div_toward_zero(t: int, d: int) -> int {
    if t >= 0 {
        t / d
    } else {
        -((-t) / d)
    }
}

/// The key of the coordinate-context cache for an instant given as a Unix
/// timestamp in seconds: the hour it falls in, counted from the epoch and
/// rounded toward zero.
pub fn hour_key(timestamp: i64) -> (r: i64)
    ensures
        r == div_toward_zero(timestamp as int, 3600),
{
    let t = timestamp as i128;
    let q = if t >= 0 {
        t / 3600
    } else {
        -((-t) / 3600)
    };
    q as i64
}

/// How a cached propagation serves a request for another instant.
#[derive(Debug, Clone, Copy, PartialEq, Eq, Structural)]
pub enum CacheUse {
    /// Within a second: the cached state itself.
    Reuse,
    /// Within thirty seconds: the cached state extrapolated along its
    /// velocity.
    Extrapolate,
    /// Further away: propagate anew.
    Recompute,
}

/// The reuse decision for a state cached for instant `cached` when the
/// state at `requested` is wanted, by the whole seconds between them.
pub open spec fn spec_cache_use(cached: int, requested: int) -> CacheUse {
    let secs = whole_seconds(cached - requested);
    let gap = if secs < 0 {
        -secs
    } else {
        secs
    };
    if gap < 1 {
        CacheUse::Reuse
    } else if gap < 30 {
        CacheUse::Extrapolate
    } else {
        CacheUse::Recompute
    }
}

/// Decides how a state cached for instant `cached` serves a request for
/// instant `requested`.
pub fn cache_use(cached: i128, requested: i128) -> (r: CacheUse)
    requires
        in_range(cached as int),
        in_range(requested as int),
    ensures
        r == spec_cache_use(cached as int, requested as int),
{
    let d = cached - requested;
    let secs = if d >= 0 {
        d / NANOS_PER_SECOND
    } else {
        -((-d) / NANOS_PER_SECOND)
    };
    let gap = if secs < 0 {
        -secs
    } else {
        secs
    };
    if gap < 1 {
        CacheUse::Reuse
    } else if gap < 30 {
        CacheUse::Extrapolate
    } else {
        CacheUse::Recompute
    }
}

/// Cache memory beyond its limit: the usage in whole mebibytes, and the
/// limit.
#[derive(Debug, Clone, Copy, PartialEq, Eq, Structural)]
pub struct MemoryExcess {
    pub current_mb: usize,
    pub limit_mb: usize,
}

/// The rough memory held by the caches: the entries of each cache times
/// the size of one entry, in bytes.
pub fn estimated_memory(
    propagation_entries: usize,
    propagation_entry_bytes: usize,
    context_entries: usize,
    context_entry_bytes: usize,
) -> (r: usize)
    requires
        propagation_entries * propagation_entry_bytes + context_entries * context_entry_bytes
            <= usize::MAX,
    ensures
        r == propagation_entries * propagation_entry_bytes + context_entries * context_entry_bytes,
{
    assert(0 <= propagation_entries * propagation_entry_bytes && 0 <= context_entries
        * context_entry_bytes) by (nonlinear_arith);
    let propagation_bytes = propagation_entries * propagation_entry_bytes;
    let context_bytes = context_entries * context_entry_bytes;
    propagation_bytes + context_bytes
}

/// Checks a cache memory usage in bytes against a limit in mebibytes.
pub fn check_memory_limit(usage_bytes: usize, limit_mb: usize) -> (r: Result<(), MemoryExcess>)
    requires
        limit_mb * 1024 * 1024 <= usize::MAX,
    ensures
        usage_bytes <= limit_mb * 1024 * 1024 ==> r is Ok,
        usage_bytes > limit_mb * 1024 * 1024 ==> r == Err::<(), MemoryExcess>(
            MemoryExcess { current_mb: usage_bytes / 1048576usize, limit_mb },
        ),
{
    let limit_bytes = limit_mb * 1024 * 1024;
    if usage_bytes > limit_bytes {
        return Err(MemoryExcess { current_mb: usage_bytes / (1024 * 1024), limit_mb });
    }
    Ok(())
}

/// The instants `t, t + step, ...` up to and including `end`.
pub open spec fn time_grid(t: int, end: int, step: int) -> Seq<int>
    decreases end + step - t,
    when step > 0
{
    if t > end {
        seq![]
    } else {
        seq![t] + time_grid(t + step, end, step)
    }
}

/// The time steps of a scan from `start` to `end`: the grid from `start` at
/// `step`, with `end` added unless the grid already ends there.
pub open spec fn spec_time_steps(start: int, end: int, step: int) -> Seq<int> {
    let g = time_grid(start, end, step);
    if g.len() > 0 && g.last() == end {
        g
    } else {
        g.push(end)
    }
}

/// The instants of a sequence of `i128`, as integers.
pub open spec fn instants(v: Seq<i128>) -> Seq<int> {
    v.map_values(|x: i128| x as int)
}

proof fn lemma_grid_unfold(t: int, end: int, step: int)
    requires
        step > 0,
        t <= end,
    ensures
        time_grid(t, end, step) == seq![t] + time_grid(t + step, end, step),
{
}

/// The time steps of a scan from `start` to `end` at `step` nanoseconds:
/// every `step` from `start` while not past `end`, then `end` itself unless
/// already the last.
pub fn time_steps(start: i128, end: i128, step: i128) -> (r: Vec<i128>)
    requires
        in_range(start as int),
        in_range(end as int),
        0 < step <= INSTANT_BOUND,
    ensures
        instants(r@) == spec_time_steps(start as int, end as int, step as int),
{
    let mut v: Vec<i128> = Vec::new();
    let mut t = start;
    while t <= end
        invariant
            in_range(start as int),
            in_range(end as int),
            0 < step <= INSTANT_BOUND,
            start <= t,
            t > start ==> t <= end + step,
            instants(v@) + time_grid(t as int, end as int, step as int) == time_grid(
                start as int,
                end as int,
                step as int,
            ),
            v@.len() > 0 ==> v@.last() == t - step,
        decreases end + step - t,
    {
        proof {
            lemma_grid_unfold(t as int, end as int, step as int);
            assert(instants(v@.push(t)) =~= instants(v@).push(t as int));
            assert(instants(v@).push(t as int) + time_grid(t + step, end as int, step as int)
                =~= instants(v@) + (seq![t as int] + time_grid(t + step, end as int, step as int)));
        }
        v.push(t);
        t = t + step;
    }
    proof {
        assert(time_grid(t as int, end as int, step as int) =~= Seq::<int>::empty());
        assert(instants(v@) =~= time_grid(start as int, end as int, step as int));
    }
    let n = v.len();
    if n == 0 || v[n - 1] != end {
        proof {
            assert(instants(v@.push(end)) =~= instants(v@).push(end as int));
        }
        v.push(end);
    }
    v
}

/// The instants, in nanoseconds since the Unix epoch, at which coordinate
/// contexts are computed ahead for the range from `start` to `end`: every
/// `step` from `start` while not past `end`.
pub fn context_instants(start: i128, end: i128, step: i128) -> (r: Vec<i128>)
    requires
        in_range(start as int),
        in_range(end as int),
        0 < step <= INSTANT_BOUND,
    ensures
        instants(r@) == time_grid(start as int, end as int, step as int),
{
    let mut v: Vec<i128> = Vec::new();
    let mut t = start;
    while t <= end
        invariant
            in_range(start as int),
            in_range(end as int),
            0 < step <= INSTANT_BOUND,
            start <= t,
            t > start ==> t <= end + step,
            instants(v@) + time_grid(t as int, end as int, step as int) == time_grid(
                start as int,
                end as int,
                step as int,
            ),
        decreases end + step - t,
    {
        proof {
            lemma_grid_unfold(t as int, end as int, step as int);
            assert(instants(v@.push(t)) =~= instants(v@).push(t as int));
            assert(instants(v@).push(t as int) + time_grid(t + step, end as int, step as int)
                =~= instants(v@) + (seq![t as int] + time_grid(t + step, end as int, step as int)));
        }
        v.push(t);
        t = t + step;
    }
    proof {
        assert(time_grid(t as int, end as int, step as int) =~= Seq::<int>::empty());
        assert(instants(v@) =~= time_grid(start as int, end as int, step as int));
    }
    v
}

/// Counts of the propagation requests answered from the cache and of those
/// that had to propagate.
#[derive(Debug, Clone, Copy, PartialEq, Eq, Structural)]
pub struct CacheCounters {
    /// Requests answered from the cache.
    pub cache_hits: u64,
    /// Requests that propagated.
    pub cache_misses: u64,
}

impl CacheCounters {
    /// Counts one request by how the cache served it: a hit where the
    /// cached state is used as it is or extrapolated, a miss where the
    /// request propagates anew. Exactly one of the two counts grows by one.
    pub fn record(&mut self, u: CacheUse)
        requires
            u == CacheUse::Recompute ==> old(self).cache_misses < u64::MAX,
            u != CacheUse::Recompute ==> old(self).cache_hits < u64::MAX,
        ensures
            u == CacheUse::Recompute ==> final(self).cache_misses == old(self).cache_misses + 1
                && final(self).cache_hits == old(self).cache_hits,
            u != CacheUse::Recompute ==> final(self).cache_hits == old(self).cache_hits + 1
                && final(self).cache_misses == old(self).cache_misses,
    {
        match u {
            CacheUse::Recompute => self.cache_misses = self.cache_misses + 1,
            _ => self.cache_hits = self.cache_hits + 1,
        }
    }
}

/// How a request for the state at `requested` is served when the cache
/// holds a state for the instant `cached` under the request's key, if any.
pub open spec fn spec_request_use(cached: Option<int>, requested: int) -> CacheUse {
    match cached {
        Some(c) => spec_cache_use(c, requested),
        None => CacheUse::Recompute,
    }
}

/// Decides how a propagation request for instant `requested` is served,
/// given the instant of the state cached under its key, if any, and counts
/// it: each request is counted exactly once, as a miss (and so a new
/// propagation) exactly when nothing usable is cached, else as a hit.
pub fn serve_request(counters: &mut CacheCounters, cached: Option<i128>, requested: i128) -> (r:
    CacheUse)
    requires
        cached matches Some(c) ==> in_range(c as int),
        in_range(requested as int),
        old(counters).cache_hits < u64::MAX,
        old(counters).cache_misses < u64::MAX,
    ensures
        r == spec_request_use(
            match cached {
                Some(c) => Some(c as int),
                None => None,
            },
            requested as int,
        ),
        final(counters).cache_hits + final(counters).cache_misses == old(counters).cache_hits
            + old(counters).cache_misses + 1,
        (final(counters).cache_misses == old(counters).cache_misses + 1) <==> r
            == CacheUse::Recompute,
{
    let u = match cached {
        Some(c) => cache_use(c, requested),
        None => CacheUse::Recompute,
    };
    counters.record(u);
    u
}

proof fn lemma_grid_shape(t: int, end: int, step: int)
    requires
        step > 0,
    ensures
        t > end ==> time_grid(t, end, step).len() == 0,
        t <= end ==> {
            let g = time_grid(t, end, step);
            &&& g.len() >= 1
            &&& g[0] == t
            &&& g.last() <= end < g.last() + step
            &&& forall|i: int| 0 <= i < g.len() - 1 ==> #[trigger] g[i + 1] == g[i] + step
        },
    decreases end + step - t,
{
    if t <= end {
        lemma_grid_shape(t + step, end, step);
        let g = time_grid(t, end, step);
        let rest = time_grid(t + step, end, step);
        assert(g == seq![t] + rest);
        assert forall|i: int| 0 <= i < g.len() - 1 implies #[trigger] g[i + 1] == g[i] + step by {
            if i > 0 {
                assert(g[i + 1] == rest[i] && g[i] == rest[i - 1]);
                assert(rest[(i - 1) + 1] == rest[i - 1] + step);
            } else {
                assert(rest.len() > 0);
                assert(t + step <= end);
                assert(g[1] == rest[0]);
                assert(rest[0] == t + step);
                assert(g[0] == t);
            }
        }
    }
}

/// Law: the time steps of a scan are in strictly increasing order, never
/// more than one step apart, begin at the start when the start does not
/// lie after the end, and always end with the end.
pub proof fn law_time_steps_ordered(start: int, end: int, step: int)
    requires
        step > 0,
    ensures
        ({
            let s = spec_time_steps(start, end, step);
            &&& s.len() > 0
            &&& s.last() == end
            &&& start <= end ==> s[0] == start
            &&& forall|i: int| 0 <= i < s.len() - 1 ==> #[trigger] s[i] < s[i + 1] <= s[i] + step
        }),
{
    lemma_grid_shape(start, end, step);
    let g = time_grid(start, end, step);
    let s = spec_time_steps(start, end, step);
    if g.len() > 0 && g.last() == end {
    } else {
        assert forall|i: int| 0 <= i < s.len() - 1 implies #[trigger] s[i] < s[i + 1] <= s[i]
            + step by {
            if i < g.len() - 1 {
                assert(s[i] == g[i] && s[i + 1] == g[i + 1]);
            } else {
                assert(s[i] == g.last());
            }
        }
    }
}

/// The first `n` elements of `s`.
pub open spec fn prefix<K>(s: Seq<K>, n: usize) -> Seq<K> {
    s.take(n as int)
}

/// The first `n + 1` elements of `s`.
pub open spec fn prefix_through<K>(s: Seq<K>, n: usize) -> Seq<K> {
    s.take(n + 1)
}

/// The element of `s` at `n`.
pub open spec fn element<K>(s: Seq<K>, n: usize) -> K {
    s[n as int]
}

/// Removes the keys of `doomed`, each present once, from `map`.
fn remove_all<K: Ord, V>(map: &mut BTreeMap<K, V>, doomed: &Vec<K>)
    requires
        vstd::laws_cmp::obeys_cmp::<K>(),
        doomed@.no_duplicates(),
        forall|x: K| #[trigger] doomed@.contains(x) ==> old(map)@.contains_key(x),
    ensures
        forall|x: K| #[trigger]
            final(map)@.contains_key(x) <==> old(map)@.contains_key(x) && !doomed@.contains(x),
        forall|x: K| #[trigger] final(map)@.contains_key(x) ==> final(map)@[x] == old(map)@[x],
        final(map)@.dom().len() + doomed@.len() == old(map)@.dom().len(),
{
    let ghost old_map = map@;
    let mut i: usize = 0;
    while i < doomed.len()
        invariant
            i <= doomed@.len(),
            vstd::laws_cmp::obeys_cmp::<K>(),
            doomed@.no_duplicates(),
            forall|x: K| #[trigger] doomed@.contains(x) ==> old_map.contains_key(x),
            old_map.dom().finite(),
            map@.dom().finite(),
            forall|x: K| #[trigger]
                map@.contains_key(x) <==> old_map.contains_key(x) && !prefix(doomed@, i).contains(x),
            forall|x: K| #[trigger] map@.contains_key(x) ==> map@[x] == old_map[x],
            map@.dom().len() + i == old_map.dom().len(),
        decreases doomed@.len() - i,
    {
        let key = &doomed[i];
        proof {
            assert(doomed@.contains(*key));
            let before = prefix(doomed@, i);
            if before.contains(*key) {
                let j = choose|j: int| 0 <= j < before.len() && before[j] == *key;
                assert(doomed@[j] == element(doomed@, i));
            }
            assert(map@.contains_key(*key));
        }
        map.remove(key);
        proof {
            let before = prefix(doomed@, i);
            let after = prefix_through(doomed@, i);
            assert(after =~= before.push(*key));
            assert forall|x: K| after.contains(x) <==> before.contains(x) || x == *key by {
                if after.contains(x) {
                    let j = choose|j: int| 0 <= j < after.len() && after[j] == x;
                    if j < i {
                        assert(before[j] == x);
                    }
                }
                if before.contains(x) {
                    let j = choose|j: int| 0 <= j < before.len() && before[j] == x;
                    assert(after[j] == x);
                }
                if x == *key {
                    assert(element(after, i) == x);
                }
            }
        }
        i = i + 1;
    }
    proof {
        assert(prefix(doomed@, i) =~= doomed@);
    }
}

/// Pre-computed coordinate transformation contexts, keyed by the hour
/// ([`hour_key`]) of their instant.
pub struct ContextCache<T> {
    entries: BTreeMap<i64, T>,
}

impl<T> ContextCache<T> {
    /// The contexts, by hour.
    pub closed spec fn view(&self) -> Map<i64, T> {
        self.entries@
    }

    /// An empty cache.
    pub fn new() -> (r: Self)
        ensures
            r.view() == Map::<i64, T>::empty(),
    {
        ContextCache { entries: BTreeMap::new() }
    }

    /// Whether a context of hour `key` is cached.
    pub fn contains_key(&self, key: i64) -> (r: bool)
        ensures
            r == self.view().contains_key(key),
    {
        self.entries.contains_key(&key)
    }

    /// The context of hour `key`, if cached.
    pub fn get(&self, key: i64) -> (r: Option<&T>)
        ensures
            match r {
                Some(v) => self.view().contains_key(key) && *v == self.view()[key],
                None => !self.view().contains_key(key),
            },
    {
        self.entries.get(&key)
    }

    /// Caches the context of hour `key`, replacing any cached one.
    pub fn insert(&mut self, key: i64, context: T)
        ensures
            final(self).view() == old(self).view().insert(key, context),
    {
        self.entries.insert(key, context);
    }

    /// The number of cached contexts.
    pub fn len(&self) -> (r: usize)
        ensures
            r == self.view().dom().len(),
    {
        self.entries.len()
    }

    /// Removes the contexts of the hours before `cutoff`; returns how many.
    pub fn remove_before(&mut self, cutoff: i64) -> (r: usize)
        ensures
            forall|k: i64| #[trigger]
                final(self).view().contains_key(k) <==> old(self).view().contains_key(k) && k
                    >= cutoff,
            forall|k: i64| #[trigger]
                final(self).view().contains_key(k) ==> final(self).view()[k] == old(
                    self,
                ).view()[k],
            r + final(self).view().dom().len() == old(self).view().dom().len(),
    {
        let ghost old_map = self.entries@;
        let mut doomed: Vec<i64> = Vec::new();
        for k in it: self.entries.keys()
            invariant
                self.entries@ == old_map,
                doomed@.no_duplicates(),
                forall|x: i64| #[trigger]
                    doomed@.contains(x) ==> old_map.contains_key(x) && x < cutoff && exists|j: int|
                        0 <= j < it.index() && *it.seq()[j] == x,
                forall|j: int| 0 <= j < it.index() && *it.seq()[j] < cutoff ==> doomed@.contains(
                    *#[trigger] it.seq()[j],
                ),
        {
            let key = *k;
            let ghost j0 = it.index();
            let ghost old_doomed = doomed@;
            assert(*it.seq()[j0 as int] == key);
            assert(old_map.contains_key(key));
            if key < cutoff {
                proof {
                    if doomed@.contains(key) {
                        let j = choose|j: int| 0 <= j < j0 && *it.seq()[j] == key;
                        assert(it.seq()[j] == it.seq()[j0 as int]);
                    }
                }
                doomed.push(key);
            }
            proof {
                assert forall|x: i64| #[trigger] doomed@.contains(x) implies old_map.contains_key(x)
                    && x < cutoff && exists|j: int| 0 <= j < j0 + 1 && *it.seq()[j] == x by {
                    if old_doomed.contains(x) {
                        let j = choose|j: int| 0 <= j < j0 && *it.seq()[j] == x;
                        assert(0 <= j < j0 + 1 && *it.seq()[j] == x);
                    } else {
                        let j = choose|j: int| 0 <= j < doomed@.len() && doomed@[j] == x;
                        assert(j == old_doomed.len());
                        assert(*it.seq()[j0 as int] == x);
                    }
                }
                assert forall|j: int| 0 <= j < j0 + 1 && *it.seq()[j] < cutoff implies doomed@.contains(
                    *#[trigger] it.seq()[j],
                ) by {
                    if j < j0 {
                        let x = *it.seq()[j];
                        assert(old_doomed.contains(x));
                        let m = choose|m: int| 0 <= m < old_doomed.len() && old_doomed[m] == x;
                        assert(doomed@[m] == x);
                    } else {
                        assert(doomed@[doomed@.len() - 1] == key);
                    }
                }
            }
        }
        remove_all(&mut self.entries, &doomed);
        doomed.len()
    }
}

/// The key of a cached propagation: NORAD catalog number, minutes since
/// the Unix epoch at the cache resolution, and element set number.
pub type PropagationKey = (u32, i64, u32);

/// A cached propagation result.
pub struct CachedPropagation<T> {
    /// The propagated state.
    pub state: T,
    /// When the result was cached.
    pub cached_at: i128,
    /// The instant the state was propagated to.
    pub propagation_time: i128,
}

/// A cached result is older than the time to live at instant `now`.
pub open spec fn expired<T>(e: CachedPropagation<T>, now: int, ttl: int) -> bool {
    now - e.cached_at > ttl
}

/// Propagation results by satellite, time and element set.
///
/// The results are held in a `BTreeMap`: vstd specifies `HashMap` only for
/// key types whose hashing and equality it knows to follow its model (the
/// integer types), and the key here is a tuple; the ordered map is
/// specified for it through the tuple's ordering.
pub struct PropagationCache<T> {
    entries: BTreeMap<PropagationKey, CachedPropagation<T>>,
}

impl<T> PropagationCache<T> {
    /// The cached results, by key.
    pub closed spec fn view(&self) -> Map<PropagationKey, CachedPropagation<T>> {
        self.entries@
    }

    /// Every cached instant is within the handled range.
    pub open spec fn wf(&self) -> bool {
        forall|k: PropagationKey| #[trigger]
            self.view().contains_key(k) ==> in_range(self.view()[k].cached_at as int) && in_range(
                self.view()[k].propagation_time as int,
            )
    }

    /// An empty cache.
    pub fn new() -> (r: Self)
        ensures
            r.wf(),
            r.view() == Map::<PropagationKey, CachedPropagation<T>>::empty(),
    {
        PropagationCache { entries: BTreeMap::new() }
    }

    /// The result cached under `key`, if any.
    pub fn get(&self, key: PropagationKey) -> (r: Option<&CachedPropagation<T>>)
        ensures
            match r {
                Some(v) => self.view().contains_key(key) && *v == self.view()[key],
                None => !self.view().contains_key(key),
            },
    {
        self.entries.get(&key)
    }

    /// Caches a result under `key`, replacing any cached one.
    pub fn insert(&mut self, key: PropagationKey, entry: CachedPropagation<T>)
        requires
            old(self).wf(),
            in_range(entry.cached_at as int),
            in_range(entry.propagation_time as int),
        ensures
            final(self).wf(),
            final(self).view() == old(self).view().insert(key, entry),
    {
        self.entries.insert(key, entry);
    }

    /// The number of cached results.
    pub fn len(&self) -> (r: usize)
        ensures
            r == self.view().dom().len(),
    {
        self.entries.len()
    }

    /// Removes the results cached more than `ttl` nanoseconds before `now`;
    /// returns how many.
    pub fn remove_expired(&mut self, now: i128, ttl: i128) -> (r: usize)
        requires
            old(self).wf(),
            in_range(now as int),
            in_range(ttl as int),
        ensures
            final(self).wf(),
            forall|k: PropagationKey| #[trigger]
                final(self).view().contains_key(k) <==> old(self).view().contains_key(k)
                    && !expired(old(self).view()[k], now as int, ttl as int),
            forall|k: PropagationKey| #[trigger]
                final(self).view().contains_key(k) ==> final(self).view()[k] == old(
                    self,
                ).view()[k],
            r + final(self).view().dom().len() == old(self).view().dom().len(),
    {
        let ghost old_map = self.entries@;
        let mut doomed: Vec<PropagationKey> = Vec::new();
        for k in it: self.entries.keys()
            invariant
                self.entries@ == old_map,
                self.wf(),
                in_range(now as int),
                in_range(ttl as int),
                doomed@.no_duplicates(),
                forall|x: PropagationKey| #[trigger]
                    doomed@.contains(x) ==> old_map.contains_key(x) && expired(
                        old_map[x],
                        now as int,
                        ttl as int,
                    ) && exists|j: int| 0 <= j < it.index() && *it.seq()[j] == x,
                forall|j: int|
                    0 <= j < it.index() && expired(
                        old_map[*it.seq()[j]],
                        now as int,
                        ttl as int,
                    ) ==> doomed@.contains(*#[trigger] it.seq()[j]),
        {
            let key = *k;
            let ghost j0 = it.index();
            let ghost old_doomed = doomed@;
            assert(*it.seq()[j0 as int] == key);
            assert(old_map.contains_key(key));
            let entry = self.entries.get(&key).unwrap();
            assert(self.view().contains_key(key));
            let is_expired = now - entry.cached_at > ttl;
            if is_expired {
                proof {
                    if doomed@.contains(key) {
                        let j = choose|j: int| 0 <= j < j0 && *it.seq()[j] == key;
                        assert(it.seq()[j] == it.seq()[j0 as int]);
                    }
                }
                doomed.push(key);
            }
            proof {
                assert forall|x: PropagationKey| #[trigger] doomed@.contains(x) implies old_map.contains_key(
                    x,
                ) && expired(old_map[x], now as int, ttl as int) && exists|j: int|
                    0 <= j < j0 + 1 && *it.seq()[j] == x by {
                    if old_doomed.contains(x) {
                        let j = choose|j: int| 0 <= j < j0 && *it.seq()[j] == x;
                        assert(0 <= j < j0 + 1 && *it.seq()[j] == x);
                    } else {
                        let j = choose|j: int| 0 <= j < doomed@.len() && doomed@[j] == x;
                        assert(j == old_doomed.len());
                        assert(*it.seq()[j0 as int] == x);
                    }
                }
                assert forall|j: int|
                    0 <= j < j0 + 1 && expired(
                        old_map[*it.seq()[j]],
                        now as int,
                        ttl as int,
                    ) implies doomed@.contains(*#[trigger] it.seq()[j]) by {
                    if j < j0 {
                        let x = *it.seq()[j];
                        assert(old_doomed.contains(x));
                        let m = choose|m: int| 0 <= m < old_doomed.len() && old_doomed[m] == x;
                        assert(doomed@[m] == x);
                    } else {
                        assert(doomed@[doomed@.len() - 1] == key);
                    }
                }
            }
        }
        proof {
            assert forall|x: PropagationKey|
                old_map.contains_key(x) && expired(
                    old_map[x],
                    now as int,
                    ttl as int,
                ) implies #[trigger] doomed@.contains(x) by {
                assert(self.entries@.dom().contains(x));
            }
        }
        remove_all(&mut self.entries, &doomed);
        proof {
            assert forall|k: PropagationKey| #[trigger] self.view().contains_key(k) implies in_range(
                self.view()[k].cached_at as int,
            ) && in_range(self.view()[k].propagation_time as int) by {
                assert(old_map.contains_key(k));
                assert(old(self).view().contains_key(k));
            }
        }
        doomed.len()
    }
}

/// Law: how a cached state serves a request depends only on how far apart
/// the two instants are, whichever comes first: the cached state itself
/// when they are less than a second apart, extrapolated when less than
/// thirty seconds apart, and a new propagation otherwise.
pub proof fn law_cache_use_by_distance(cached: int, requested: int)
    ensures
        spec_cache_use(cached, requested) == spec_cache_use(requested, cached),
        spec_cache_use(cached, requested) == CacheUse::Reuse <==> -1_000_000_000 < cached
            - requested < 1_000_000_000,
        spec_cache_use(cached, requested) == CacheUse::Extrapolate <==> ((1_000_000_000 <= cached
            - requested < 30_000_000_000) || (1_000_000_000 <= requested - cached
            < 30_000_000_000)),
        spec_cache_use(cached, requested) == CacheUse::Recompute <==> (cached - requested
            >= 30_000_000_000 || requested - cached >= 30_000_000_000),
{
}

/// Law: the key of an instant is the hour it falls in, counted from the
/// Unix epoch: for an instant at or after the epoch, `3600 * key` is at
/// most the timestamp and the next hour starts after it; before the epoch
/// the hour is counted toward zero, so `3600 * key` is at least the
/// timestamp and the previous hour ends before it.
pub proof fn law_hour_key_is_hour(timestamp: int)
    ensures
        timestamp >= 0 ==> 3600 * div_toward_zero(timestamp, 3600) <= timestamp < 3600 * (
        div_toward_zero(timestamp, 3600) + 1),
        timestamp < 0 ==> 3600 * (div_toward_zero(timestamp, 3600) - 1) < timestamp <= 3600
            * div_toward_zero(timestamp, 3600),
{
}

} // verus!
