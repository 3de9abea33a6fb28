//! Eviction of the least recently used cache entries under memory pressure.
use crate::math;
use crate::math::Ratio;
use vstd::prelude::*;

verus! {

/// Hard RAM limit in bytes (8GB)
pub const RAM_LIMIT_BYTES: u64 = 8_589_934_592;

/// Soft RAM threshold for triggering eviction (90% of limit)
pub const SOFT_THRESHOLD_BYTES: u64 = 7_730_941_132;

/// Critical RAM threshold for aggressive eviction (95% of limit)
pub const CRITICAL_THRESHOLD_BYTES: u64 = 8_160_437_862;

/// Minimum free memory to maintain (500MB)
pub const MIN_FREE_MEMORY_BYTES: u64 = 524_288_000;

/// Maximum entries in LRU queue per cache type
pub const MAX_LRU_QUEUE_SIZE: usize = 10_000;

/// Number of cache types
pub const CACHE_TYPES: usize = 5;

/// Number of cache types that are swept under pressure
pub const SWEPT_TYPES: usize = 3;

/// Cache entry types for prioritized eviction
#[derive(Debug, Clone, Copy, PartialEq, Eq, Structural)]
pub enum CacheType {
    /// Tick history (lowest priority - first to evict)
    TickHistory,
    /// Order book snapshots (low priority)
    OrderBookSnapshots,
    /// Trade history (medium priority)
    TradeHistory,
    /// Strategy state (high priority - keep longer)
    StrategyState,
    /// Active positions (critical - never evict while active)
    ActivePositions,
}

impl CacheType {
    /// The place of the type in the order of eviction.
    pub open spec fn rank(self) -> int {
        match self {
            CacheType::TickHistory => 0,
            CacheType::OrderBookSnapshots => 1,
            CacheType::TradeHistory => 2,
            CacheType::StrategyState => 3,
            CacheType::ActivePositions => 4,
        }
    }

    pub fn index(self) -> (r: usize)
        ensures
            r == self.rank(),
            r < CACHE_TYPES,
    {
        match self {
            CacheType::TickHistory => 0,
            CacheType::OrderBookSnapshots => 1,
            CacheType::TradeHistory => 2,
            CacheType::StrategyState => 3,
            CacheType::ActivePositions => 4,
        }
    }
}

/// LRU cache entry
#[derive(Debug, Clone, Copy, PartialEq, Eq, Structural)]
pub struct LRUCacheEntry {
    /// Unique identifier for the cached item
    pub key: u64,
    /// Symbol index this entry belongs to
    pub symbol_idx: u8,
    /// Type of cache entry (determines eviction priority)
    pub cache_type: CacheType,
    /// Size in bytes
    pub size_bytes: u64,
    /// Last access timestamp (milliseconds)
    pub last_access_ms: u64,
    /// Creation timestamp (milliseconds)
    pub created_ms: u64,
    /// Whether this entry is locked (cannot be evicted)
    pub is_locked: bool,
}

/// Whether an entry may be evicted: it is not locked, and no active position.
pub open spec fn evictable(e: LRUCacheEntry) -> bool {
    !e.is_locked && e.cache_type != CacheType::ActivePositions
}

fn can_evict(e: &LRUCacheEntry) -> (r: bool)
    ensures
        r == evictable(*e),
{
    !e.is_locked && e.cache_type != CacheType::ActivePositions
}

/// An entry that was evicted.
#[derive(Debug, Clone, Copy, PartialEq, Eq, Structural)]
pub struct Evicted {
    pub key: u64,
    pub cache_type: CacheType,
}

/// Memory statistics
#[derive(Debug, Clone, Copy, PartialEq, Eq, Structural)]
pub struct MemoryStats {
    /// Total memory currently used
    pub total_used_bytes: u64,
    /// Memory used by each cache type
    pub tick_history_bytes: u64,
    pub orderbook_bytes: u64,
    pub trade_history_bytes: u64,
    pub strategy_state_bytes: u64,
    pub position_state_bytes: u64,
    /// Number of entries evicted
    pub total_evictions: u64,
    /// Evictions in last second
    pub recent_evictions_per_sec: u64,
    /// Current memory pressure level (at most one)
    pub pressure_level: Ratio,
}

/// The first place from `i` on that holds an entry with a key, or the length.
pub open spec fn place_of(s: Seq<LRUCacheEntry>, key: u64, i: int) -> int
    decreases s.len() - i,
{
    if i >= s.len() {
        s.len() as int
    } else if s[i].key == key {
        i
    } else {
        place_of(s, key, i + 1)
    }
}

/// The first place from `i` on that holds an evictable entry, or the length.
pub open spec fn first_evictable(s: Seq<LRUCacheEntry>, i: int) -> int
    decreases s.len() - i,
{
    if i >= s.len() {
        s.len() as int
    } else if evictable(s[i]) {
        i
    } else {
        first_evictable(s, i + 1)
    }
}

/// Entries without the one with a key.
pub open spec fn without(s: Seq<LRUCacheEntry>, key: u64) -> Seq<LRUCacheEntry> {
    let p = place_of(s, key, 0);
    if p < s.len() {
        s.remove(p)
    } else {
        s
    }
}

/// Entries in which those with a key are locked or unlocked.
pub open spec fn with_lock(s: Seq<LRUCacheEntry>, key: u64, locked: bool) -> Seq<LRUCacheEntry> {
    Seq::new(
        s.len(),
        |i: int|
            if s[i].key == key {
                LRUCacheEntry { is_locked: locked, ..s[i] }
            } else {
                s[i]
            },
    )
}

/// Eviction times without those at the front that lie more than a second back.
pub open spec fn recent(times: Seq<u64>, now_ms: u64) -> Seq<u64>
    decreases times.len(),
{
    if times.len() > 0 && now_ms - times[0] > 1000 {
        recent(times.subrange(1, times.len() as int), now_ms)
    } else {
        times
    }
}

/// What an evictor holds.
#[verifier::ext_equal]
pub struct EvictorState {
    pub usage: u64,
    pub queues: Seq<Seq<LRUCacheEntry>>,
    pub entries: Seq<LRUCacheEntry>,
    pub evictions: u64,
    pub times: Seq<u64>,
    pub evicted: Seq<Evicted>,
}

/// The state without the entry with a key: it leaves the entries, its queue and
/// the memory in use.
pub open spec fn removed(st: EvictorState, key: u64) -> EvictorState {
    let p = place_of(st.entries, key, 0);
    if p < st.entries.len() {
        let e = st.entries[p];
        let t = e.cache_type.rank();
        EvictorState {
            entries: st.entries.remove(p),
            queues: st.queues.update(t, without(st.queues[t], key)),
            usage: st.usage.wrapping_sub(e.size_bytes),
            ..st
        }
    } else {
        st
    }
}

/// The state after the entry with a key is used: it becomes the newest of its
/// queue.
pub open spec fn touched(st: EvictorState, key: u64, now_ms: u64) -> EvictorState {
    let p = place_of(st.entries, key, 0);
    if p < st.entries.len() {
        let e = LRUCacheEntry { last_access_ms: now_ms, ..st.entries[p] };
        let t = e.cache_type.rank();
        let q = st.queues[t];
        let at = place_of(q, key, 0);
        EvictorState {
            entries: st.entries.update(p, e),
            queues: if at < q.len() {
                st.queues.update(t, q.remove(at).push(e))
            } else {
                st.queues
            },
            ..st
        }
    } else {
        st
    }
}

/// The state after an entry, already out of its queue, is evicted.
pub open spec fn evict_one(st: EvictorState, e: LRUCacheEntry, now_ms: u64) -> EvictorState {
    EvictorState {
        usage: st.usage.wrapping_sub(e.size_bytes),
        queues: st.queues,
        entries: without(st.entries, e.key),
        evictions: st.evictions.wrapping_add(1),
        times: recent(st.times.push(now_ms), now_ms),
        evicted: st.evicted.push(Evicted { key: e.key, cache_type: e.cache_type }),
    }
}

/// The state after the entry at a place of a queue is evicted.
pub open spec fn evict_at(st: EvictorState, t: int, p: int, now_ms: u64) -> EvictorState {
    let q = st.queues[t];
    evict_one(
        EvictorState { queues: st.queues.update(t, q.remove(p)), ..st },
        q[p],
        now_ms,
    )
}

/// The state after entries of one queue are evicted, oldest first, until
/// enough is freed, with the bytes freed.
pub open spec fn sweep_queue(
    st: EvictorState,
    t: int,
    freed: int,
    to_free: int,
    now_ms: u64,
) -> (EvictorState, int)
    decreases st.queues[t].len(),
{
    let q = st.queues[t];
    let p = first_evictable(q, 0);
    if freed >= to_free || !(0 <= p < q.len()) || !(0 <= t < st.queues.len()) {
        (st, freed)
    } else {
        sweep_queue(evict_at(st, t, p, now_ms), t, freed + q[p].size_bytes, to_free, now_ms)
    }
}

/// The state after the queues of the first `n` types are swept in order.
pub open spec fn sweep(st: EvictorState, n: int, to_free: int, now_ms: u64) -> (EvictorState, int)
    decreases n,
{
    if n <= 0 {
        (st, 0)
    } else {
        let (before, freed) = sweep(st, n - 1, to_free, now_ms);
        sweep_queue(before, n - 1, freed, to_free, now_ms)
    }
}

/// How much is to be freed at some usage.
pub open spec fn bytes_to_free(usage: u64) -> int {
    let target = if usage >= CRITICAL_THRESHOLD_BYTES {
        CRITICAL_THRESHOLD_BYTES
    } else {
        SOFT_THRESHOLD_BYTES
    };
    math::max_int(usage - target, MIN_FREE_MEMORY_BYTES as int)
}

/// The state after memory use is checked.
pub open spec fn relieved(st: EvictorState, now_ms: u64) -> EvictorState {
    if st.usage < SOFT_THRESHOLD_BYTES {
        st
    } else {
        sweep(st, SWEPT_TYPES as int, bytes_to_free(st.usage), now_ms).0
    }
}

/// The state in which the oldest evictable entry of a full queue made room.
pub open spec fn with_room(st: EvictorState, t: int, now_ms: u64) -> EvictorState {
    let q = st.queues[t];
    let p = first_evictable(q, 0);
    if q.len() >= MAX_LRU_QUEUE_SIZE && p < q.len() {
        evict_at(st, t, p, now_ms)
    } else {
        st
    }
}

/// The state after an entry joins the entries, its queue and the memory in use.
pub open spec fn joined(st: EvictorState, e: LRUCacheEntry) -> EvictorState {
    let t = e.cache_type.rank();
    EvictorState {
        queues: st.queues.update(t, st.queues[t].push(e)),
        entries: st.entries.push(e),
        usage: st.usage.wrapping_add(e.size_bytes),
        ..st
    }
}

/// The state after an entry is registered: the one that had its key leaves, and
/// the oldest evictable entry of its queue makes room where the queue is full.
pub open spec fn queued(st: EvictorState, e: LRUCacheEntry, now_ms: u64) -> EvictorState {
    joined(with_room(removed(st, e.key), e.cache_type.rank(), now_ms), e)
}

/// The bytes of all entries.
pub open spec fn total_bytes(s: Seq<LRUCacheEntry>) -> int
    decreases s.len(),
{
    if s.len() == 0 {
        0
    } else {
        total_bytes(s.drop_last()) + s.last().size_bytes
    }
}

/// No two entries have the same key.
pub open spec fn keys_distinct(s: Seq<LRUCacheEntry>) -> bool {
    forall|i: int, j: int|
        0 <= i < s.len() && 0 <= j < s.len() && i != j ==> (#[trigger] s[i]).key != (
        #[trigger] s[j]).key
}

/// Every entry stands once, in the queue of its type, and the memory in use is
/// that of the entries, as far as a word counts it.
pub open spec fn consistent(st: EvictorState) -> bool {
    &&& st.queues.len() == CACHE_TYPES
    &&& keys_distinct(st.entries)
    &&& forall|t: int| 0 <= t < CACHE_TYPES ==> keys_distinct(#[trigger] st.queues[t])
    &&& forall|t: int, e: LRUCacheEntry|
        0 <= t < CACHE_TYPES ==> #[trigger] st.queues[t].contains(e) == (st.entries.contains(e)
            && e.cache_type.rank() == t)
    &&& st.usage == total_bytes(st.entries) % 0x1_0000_0000_0000_0000
}

proof fn lemma_total_remove(s: Seq<LRUCacheEntry>, p: int)
    requires
        0 <= p < s.len(),
    ensures
        total_bytes(s.remove(p)) == total_bytes(s) - s[p].size_bytes,
        total_bytes(s.remove(p)) >= 0,
    decreases s.len(),
{
    if p == s.len() - 1 {
        assert(s.remove(p) =~= s.drop_last());
        lemma_total_nonnegative(s.drop_last());
    } else {
        lemma_total_remove(s.drop_last(), p);
        assert(s.remove(p).drop_last() =~= s.drop_last().remove(p));
        assert(s.remove(p).last() == s.last());
    }
}

proof fn lemma_total_nonnegative(s: Seq<LRUCacheEntry>)
    ensures
        total_bytes(s) >= 0,
    decreases s.len(),
{
    if s.len() > 0 {
        lemma_total_nonnegative(s.drop_last());
    }
}

proof fn lemma_total_update(s: Seq<LRUCacheEntry>, p: int, e: LRUCacheEntry)
    requires
        0 <= p < s.len(),
        e.size_bytes == s[p].size_bytes,
    ensures
        total_bytes(s.update(p, e)) == total_bytes(s),
    decreases s.len(),
{
    if p == s.len() - 1 {
        assert(s.update(p, e).drop_last() =~= s.drop_last());
    } else {
        lemma_total_update(s.drop_last(), p, e);
        assert(s.update(p, e).drop_last() =~= s.drop_last().update(p, e));
    }
}

proof fn lemma_remove(s: Seq<LRUCacheEntry>, p: int)
    requires
        keys_distinct(s),
        0 <= p < s.len(),
    ensures
        keys_distinct(s.remove(p)),
        forall|x: LRUCacheEntry| #[trigger]
            s.remove(p).contains(x) == (s.contains(x) && x != s[p]),
        forall|i: int| 0 <= i < s.len() - 1 ==> (#[trigger] s.remove(p)[i]).key != s[p].key,
{
    let r = s.remove(p);
    assert forall|i: int, j: int| 0 <= i < r.len() && 0 <= j < r.len() && i != j implies (
    #[trigger] r[i]).key != (#[trigger] r[j]).key by {
        let a = if i < p { i } else { i + 1 };
        let b = if j < p { j } else { j + 1 };
        assert(r[i] == s[a] && r[j] == s[b]);
    }
    assert forall|i: int| 0 <= i < s.len() - 1 implies (#[trigger] r[i]).key != s[p].key by {
        let a = if i < p { i } else { i + 1 };
        assert(r[i] == s[a]);
    }
    assert forall|x: LRUCacheEntry| #[trigger] r.contains(x) == (s.contains(x) && x != s[p]) by {
        if s.contains(x) && x != s[p] {
            let i = choose|i: int| 0 <= i < s.len() && s[i] == x;
            let a = if i < p { i } else { i - 1 };
            assert(r[a] == x);
        }
        if r.contains(x) {
            let i = choose|i: int| 0 <= i < r.len() && r[i] == x;
            let a = if i < p { i } else { i + 1 };
            assert(s[a] == x);
            assert(x.key != s[p].key);
        }
    }
}

proof fn lemma_push(s: Seq<LRUCacheEntry>, e: LRUCacheEntry)
    requires
        keys_distinct(s),
        forall|i: int| 0 <= i < s.len() ==> (#[trigger] s[i]).key != e.key,
    ensures
        keys_distinct(s.push(e)),
        forall|x: LRUCacheEntry| #[trigger] s.push(e).contains(x) == (s.contains(x) || x == e),
        total_bytes(s.push(e)) == total_bytes(s) + e.size_bytes,
{
    let r = s.push(e);
    assert(r.drop_last() =~= s);
    assert forall|x: LRUCacheEntry| #[trigger] r.contains(x) == (s.contains(x) || x == e) by {
        if s.contains(x) {
            let i = choose|i: int| 0 <= i < s.len() && s[i] == x;
            assert(r[i] == x);
        }
        if x == e {
            assert(r[s.len() as int] == x);
        }
        if r.contains(x) && x != e {
            let i = choose|i: int| 0 <= i < r.len() && r[i] == x;
            assert(s[i] == x);
        }
    }
}

proof fn lemma_update(s: Seq<LRUCacheEntry>, p: int, e: LRUCacheEntry)
    requires
        keys_distinct(s),
        0 <= p < s.len(),
        e.key == s[p].key,
    ensures
        keys_distinct(s.update(p, e)),
        forall|x: LRUCacheEntry| #[trigger]
            s.update(p, e).contains(x) == ((s.contains(x) && x != s[p]) || x == e),
{
    let r = s.update(p, e);
    assert forall|i: int, j: int| 0 <= i < r.len() && 0 <= j < r.len() && i != j implies (
    #[trigger] r[i]).key != (#[trigger] r[j]).key by {
        assert(s[i].key != s[j].key);
    }
    assert forall|x: LRUCacheEntry| #[trigger]
        r.contains(x) == ((s.contains(x) && x != s[p]) || x == e) by {
        if s.contains(x) && x != s[p] {
            let i = choose|i: int| 0 <= i < s.len() && s[i] == x;
            assert(r[i] == x);
        }
        if x == e {
            assert(r[p] == x);
        }
        if r.contains(x) && x != e {
            let i = choose|i: int| 0 <= i < r.len() && r[i] == x;
            assert(s[i] == x);
            assert(s[i].key != s[p].key);
        }
    }
}

/// The place of an entry among entries with distinct keys is found by its key.
proof fn lemma_place_unique(s: Seq<LRUCacheEntry>, e: LRUCacheEntry)
    requires
        keys_distinct(s),
        s.contains(e),
    ensures
        0 <= place_of(s, e.key, 0) < s.len(),
        s[place_of(s, e.key, 0)] == e,
{
    lemma_place(s, e.key, 0);
    let i = choose|i: int| 0 <= i < s.len() && s[i] == e;
    let p = place_of(s, e.key, 0);
    if p >= s.len() {
        assert(s[i].key != e.key);
    } else if p != i {
        assert(s[p].key != s[i].key);
    }
}

proof fn lemma_wrapped(total: int, size: u64)
    requires
        total >= 0,
    ensures
        ((total % 0x1_0000_0000_0000_0000) as u64).wrapping_add(size) == (total + size)
            % 0x1_0000_0000_0000_0000,
        total >= size ==> ((total % 0x1_0000_0000_0000_0000) as u64).wrapping_sub(size) == (total
            - size) % 0x1_0000_0000_0000_0000,
{
}

/// Removing an entry keeps the rest in order, and leaves nothing with its key.
proof fn lemma_removed(st: EvictorState, key: u64)
    requires
        consistent(st),
    ensures
        consistent(removed(st, key)),
        forall|i: int|
            0 <= i < removed(st, key).entries.len() ==> (
            #[trigger] removed(st, key).entries[i]).key != key,
{
    let p = place_of(st.entries, key, 0);
    lemma_place(st.entries, key, 0);
    if p < st.entries.len() {
        let e = st.entries[p];
        let t = e.cache_type.rank();
        let q = st.queues[t];
        assert(st.entries.contains(e));
        assert(q.contains(e));
        lemma_place_unique(q, e);
        let at = place_of(q, key, 0);
        lemma_remove(st.entries, p);
        lemma_remove(q, at);
        lemma_total_remove(st.entries, p);
        lemma_total_nonnegative(st.entries);
        lemma_wrapped(total_bytes(st.entries), e.size_bytes);
        let after = removed(st, key);
        assert forall|u: int, x: LRUCacheEntry| 0 <= u < CACHE_TYPES implies #[trigger]
            after.queues[u].contains(x) == (after.entries.contains(x) && x.cache_type.rank()
                == u) by {
            assert(st.queues[u].contains(x) == (st.entries.contains(x) && x.cache_type.rank()
                == u));
        }
    }
}

/// An entry with a new key joins in order.
proof fn lemma_joined(st: EvictorState, e: LRUCacheEntry)
    requires
        consistent(st),
        forall|i: int| 0 <= i < st.entries.len() ==> (#[trigger] st.entries[i]).key != e.key,
    ensures
        consistent(joined(st, e)),
{
    let t = e.cache_type.rank();
    let q = st.queues[t];
    assert forall|i: int| 0 <= i < q.len() implies (#[trigger] q[i]).key != e.key by {
        assert(st.queues[t].contains(q[i]));
        let k = choose|k: int| 0 <= k < st.entries.len() && st.entries[k] == q[i];
        assert(st.entries[k].key != e.key);
    }
    lemma_push(st.entries, e);
    lemma_push(q, e);
    lemma_total_nonnegative(st.entries);
    lemma_wrapped(total_bytes(st.entries), e.size_bytes);
    let after = joined(st, e);
    assert forall|u: int, x: LRUCacheEntry| 0 <= u < CACHE_TYPES implies #[trigger]
        after.queues[u].contains(x) == (after.entries.contains(x) && x.cache_type.rank() == u) by {
        assert(st.queues[u].contains(x) == (st.entries.contains(x) && x.cache_type.rank() == u));
    }
}

/// Evicting an entry removes it.
proof fn lemma_evicted(st: EvictorState, t: int, p: int, now_ms: u64)
    requires
        consistent(st),
        0 <= t < CACHE_TYPES,
        0 <= p < st.queues[t].len(),
    ensures
        consistent(evict_at(st, t, p, now_ms)),
        evict_at(st, t, p, now_ms).entries == removed(st, st.queues[t][p].key).entries,
{
    let e = st.queues[t][p];
    assert(st.queues[t].contains(e));
    lemma_place_unique(st.queues[t], e);
    lemma_place_unique(st.entries, e);
    let at = place_of(st.queues[t], e.key, 0);
    if at != p {
        assert(st.queues[t][at].key != st.queues[t][p].key);
    }
    lemma_removed(st, e.key);
    let gone = removed(st, e.key);
    let after = evict_at(st, t, p, now_ms);
    assert(after.queues =~= gone.queues);
    assert(after.entries =~= gone.entries);
    assert(after.usage == gone.usage);
}

proof fn lemma_sweep_consistent(st: EvictorState, n: int, to_free: int, now_ms: u64)
    requires
        consistent(st),
        n <= CACHE_TYPES,
    ensures
        consistent(sweep(st, n, to_free, now_ms).0),
    decreases n,
{
    if n > 0 {
        lemma_sweep_consistent(st, n - 1, to_free, now_ms);
        let (before, freed) = sweep(st, n - 1, to_free, now_ms);
        lemma_sweep_queue_consistent(before, n - 1, freed, to_free, now_ms);
    }
}

proof fn lemma_sweep_queue_consistent(
    st: EvictorState,
    t: int,
    freed: int,
    to_free: int,
    now_ms: u64,
)
    requires
        consistent(st),
        0 <= t < CACHE_TYPES,
    ensures
        consistent(sweep_queue(st, t, freed, to_free, now_ms).0),
    decreases st.queues[t].len(),
{
    let q = st.queues[t];
    let p = first_evictable(q, 0);
    if !(freed >= to_free || !(0 <= p < q.len())) {
        lemma_evicted(st, t, p, now_ms);
        lemma_sweep_queue_consistent(
            evict_at(st, t, p, now_ms),
            t,
            freed + q[p].size_bytes,
            to_free,
            now_ms,
        );
    }
}

/// Checking memory use keeps every remaining entry once, in its queue and in
/// the memory in use.
pub proof fn law_relief_consistent(st: EvictorState, now_ms: u64)
    requires
        consistent(st),
    ensures
        consistent(relieved(st, now_ms)),
{
    if st.usage >= SOFT_THRESHOLD_BYTES {
        lemma_sweep_consistent(st, SWEPT_TYPES as int, bytes_to_free(st.usage), now_ms);
    }
}

/// Registering keeps every entry once, in its queue and in the memory in use,
/// also where its key was registered before.
pub proof fn law_register_consistent(st: EvictorState, e: LRUCacheEntry, now_ms: u64)
    requires
        consistent(st),
    ensures
        consistent(queued(st, e, now_ms)),
        queued(st, e, now_ms).entries.contains(e),
{
    let t = e.cache_type.rank();
    let gone = removed(st, e.key);
    lemma_removed(st, e.key);
    let q = gone.queues[t];
    let p = first_evictable(q, 0);
    lemma_first(q, 0);
    let room = with_room(gone, t, now_ms);
    if q.len() >= MAX_LRU_QUEUE_SIZE && p < q.len() {
        lemma_evicted(gone, t, p, now_ms);
        assert forall|i: int| 0 <= i < room.entries.len() implies (#[trigger] room.entries[i]).key
            != e.key by {
            lemma_place(gone.entries, q[p].key, 0);
            let at = place_of(gone.entries, q[p].key, 0);
            if at < gone.entries.len() {
                let k = if i < at { i } else { i + 1 };
                assert(room.entries[i] == gone.entries[k]);
            }
        }
    }
    lemma_joined(room, e);
    assert(queued(st, e, now_ms).entries.last() == e);
}

/// Removing keeps every other entry once, in its queue and in the memory in
/// use, and leaves nothing with the key.
pub proof fn law_remove_consistent(st: EvictorState, key: u64)
    requires
        consistent(st),
    ensures
        consistent(removed(st, key)),
        place_of(removed(st, key).entries, key, 0) == removed(st, key).entries.len(),
{
    lemma_removed(st, key);
    lemma_place(removed(st, key).entries, key, 0);
}

/// Using an entry keeps every entry once, in its queue and in the memory in use.
pub proof fn law_touch_consistent(st: EvictorState, key: u64, now_ms: u64)
    requires
        consistent(st),
    ensures
        consistent(touched(st, key, now_ms)),
{
    let p = place_of(st.entries, key, 0);
    lemma_place(st.entries, key, 0);
    if p < st.entries.len() {
        let x = st.entries[p];
        let e = LRUCacheEntry { last_access_ms: now_ms, ..x };
        let t = x.cache_type.rank();
        let q = st.queues[t];
        assert(st.entries.contains(x));
        assert(q.contains(x));
        lemma_place_unique(q, x);
        let at = place_of(q, key, 0);
        lemma_update(st.entries, p, e);
        lemma_total_update(st.entries, p, e);
        lemma_remove(q, at);
        lemma_push(q.remove(at), e);
        let after = touched(st, key, now_ms);
        assert forall|u: int, y: LRUCacheEntry| 0 <= u < CACHE_TYPES implies #[trigger]
            after.queues[u].contains(y) == (after.entries.contains(y) && y.cache_type.rank()
                == u) by {
            assert(st.queues[u].contains(y) == (st.entries.contains(y) && y.cache_type.rank()
                == u));
        }
    }
}

/// Locking and unlocking keep every entry once, in its queue and in the memory
/// in use.
pub proof fn law_lock_consistent(st: EvictorState, key: u64, locked: bool)
    requires
        consistent(st),
    ensures
        consistent(lock_changed(st, key, locked)),
{
    let p = place_of(st.entries, key, 0);
    lemma_place(st.entries, key, 0);
    if p < st.entries.len() {
        let x = st.entries[p];
        let e = LRUCacheEntry { is_locked: locked, ..x };
        let t = x.cache_type.rank();
        let q = st.queues[t];
        assert(st.entries.contains(x));
        assert(q.contains(x));
        lemma_place_unique(q, x);
        let at = place_of(q, key, 0);
        assert(with_lock(q, key, locked) =~= q.update(at, e)) by {
            assert forall|i: int| 0 <= i < q.len() implies with_lock(q, key, locked)[i] == q.update(
                at,
                e,
            )[i] by {
                if i != at {
                    assert(q[i].key != q[at].key);
                }
            }
        }
        lemma_update(st.entries, p, e);
        lemma_total_update(st.entries, p, e);
        lemma_update(q, at, e);
        let after = lock_changed(st, key, locked);
        assert forall|u: int, y: LRUCacheEntry| 0 <= u < CACHE_TYPES implies #[trigger]
            after.queues[u].contains(y) == (after.entries.contains(y) && y.cache_type.rank()
                == u) by {
            assert(st.queues[u].contains(y) == (st.entries.contains(y) && y.cache_type.rank()
                == u));
        }
    }
}

/// Removing an entry undoes its registration where its key was new and nothing
/// had to make room for it.
pub proof fn law_remove_undoes_register(st: EvictorState, e: LRUCacheEntry, now_ms: u64)
    requires
        consistent(st),
        place_of(st.entries, e.key, 0) == st.entries.len(),
        st.queues[e.cache_type.rank()].len() < MAX_LRU_QUEUE_SIZE,
    ensures
        removed(queued(st, e, now_ms), e.key) == st,
{
    let t = e.cache_type.rank();
    let q = st.queues[t];
    lemma_place(st.entries, e.key, 0);
    law_register_consistent(st, e, now_ms);
    let full = queued(st, e, now_ms);
    assert(full == joined(st, e));
    lemma_place_unique(full.entries, e);
    assert(full.queues[t].contains(e)) by {
        assert(full.queues[t].last() == e);
    }
    lemma_place_unique(full.queues[t], e);
    let p = place_of(full.entries, e.key, 0);
    let at = place_of(full.queues[t], e.key, 0);
    if p != st.entries.len() {
        assert(full.entries[p].key != full.entries[st.entries.len() as int].key);
    }
    if at != q.len() {
        assert(full.queues[t][at].key != full.queues[t][q.len() as int].key);
    }
    assert(full.entries.remove(p) =~= st.entries);
    assert(full.queues[t].remove(at) =~= q);
    let back = removed(full, e.key);
    assert(back.queues =~= st.queues);
    assert(back.usage == st.usage);
}

/// The bytes of the types are those of all entries.
pub proof fn law_types_make_total(s: Seq<LRUCacheEntry>)
    ensures
        total_bytes(s) == bytes_of(s, CacheType::TickHistory) + bytes_of(
            s,
            CacheType::OrderBookSnapshots,
        ) + bytes_of(s, CacheType::TradeHistory) + bytes_of(s, CacheType::StrategyState)
            + bytes_of(s, CacheType::ActivePositions),
    decreases s.len(),
{
    if s.len() > 0 {
        law_types_make_total(s.drop_last());
    }
}

/// The bytes of the entries of a type.
pub open spec fn bytes_of(s: Seq<LRUCacheEntry>, t: CacheType) -> int
    decreases s.len(),
{
    if s.len() == 0 {
        0
    } else {
        bytes_of(s.drop_last(), t) + (if s.last().cache_type == t {
            s.last().size_bytes as int
        } else {
            0
        })
    }
}

proof fn lemma_bytes_prefix(s: Seq<LRUCacheEntry>, t: CacheType, n: int)
    requires
        0 <= n <= s.len(),
    ensures
        0 <= bytes_of(s.subrange(0, n), t) <= bytes_of(s, t),
    decreases s.len(),
{
    lemma_bytes_nonnegative(s.subrange(0, n), t);
    if n == s.len() {
        assert(s.subrange(0, n) =~= s);
    } else {
        let u = s.drop_last();
        lemma_bytes_prefix(u, t, n);
        assert(u.subrange(0, n) =~= s.subrange(0, n));
    }
}

proof fn lemma_bytes_nonnegative(s: Seq<LRUCacheEntry>, t: CacheType)
    ensures
        0 <= bytes_of(s, t),
    decreases s.len(),
{
    if s.len() > 0 {
        lemma_bytes_nonnegative(s.drop_last(), t);
    }
}

proof fn lemma_place(s: Seq<LRUCacheEntry>, key: u64, i: int)
    requires
        0 <= i <= s.len(),
    ensures
        i <= place_of(s, key, i) <= s.len(),
        place_of(s, key, i) < s.len() ==> s[place_of(s, key, i)].key == key,
        forall|j: int| i <= j < place_of(s, key, i) ==> (#[trigger] s[j]).key != key,
    decreases s.len() - i,
{
    if i < s.len() && s[i].key != key {
        lemma_place(s, key, i + 1);
    }
}

proof fn lemma_first(s: Seq<LRUCacheEntry>, i: int)
    requires
        0 <= i <= s.len(),
    ensures
        i <= first_evictable(s, i) <= s.len(),
        first_evictable(s, i) < s.len() ==> evictable(s[first_evictable(s, i)]),
        forall|j: int| i <= j < first_evictable(s, i) ==> !evictable(#[trigger] s[j]),
    decreases s.len() - i,
{
    if i < s.len() && !evictable(s[i]) {
        lemma_first(s, i + 1);
    }
}

/// LRU memory evictor
pub struct MemoryEvictor {
    /// Current memory usage
    pub current_usage_bytes: u64,
    /// Peak memory usage recorded
    pub peak_usage_bytes: u64,
    /// LRU queues per cache type, oldest first
    pub lru_queues: Vec<Vec<LRUCacheEntry>>,
    /// Entries by key
    pub entry_map: Vec<LRUCacheEntry>,
    /// Total eviction count
    pub total_evictions: u64,
    /// Recent eviction timestamps (for rate calculation)
    pub recent_eviction_times: Vec<u64>,
    /// Emergency mode flag (aggressive eviction)
    pub emergency_mode: bool,
    /// Evictions that nobody was told of yet
    pub evicted: Vec<Evicted>,
}

impl MemoryEvictor {
    pub open spec fn wf(&self) -> bool {
        self.lru_queues.len() == CACHE_TYPES && consistent(self.state())
    }

    pub open spec fn state(&self) -> EvictorState {
        EvictorState {
            usage: self.current_usage_bytes,
            queues: Seq::new(CACHE_TYPES as nat, |i: int| self.lru_queues@[i]@),
            entries: self.entry_map@,
            evictions: self.total_evictions,
            times: self.recent_eviction_times@,
            evicted: self.evicted@,
        }
    }

    /// Create a new memory evictor
    pub fn new() -> (r: Self)
        ensures
            r.wf(),
            r.state().usage == 0,
            r.state().evictions == 0,
            forall|t: int|
                0 <= t < CACHE_TYPES ==> (#[trigger] r.state().queues[t]).len() == 0,
            r.state().entries.len() == 0,
            r.state().times.len() == 0,
            r.state().evicted.len() == 0,
            r.peak_usage_bytes == 0,
            !r.emergency_mode,
    {
        let mut lru_queues: Vec<Vec<LRUCacheEntry>> = Vec::new();
        while lru_queues.len() < CACHE_TYPES
            invariant
                lru_queues.len() <= CACHE_TYPES,
                forall|t: int|
                    0 <= t < lru_queues.len() ==> (#[trigger] lru_queues@[t])@.len() == 0,
            decreases CACHE_TYPES - lru_queues.len(),
        {
            lru_queues.push(Vec::new());
        }
        let r = MemoryEvictor {
            current_usage_bytes: 0,
            peak_usage_bytes: 0,
            lru_queues,
            entry_map: Vec::new(),
            total_evictions: 0,
            recent_eviction_times: Vec::new(),
            emergency_mode: false,
            evicted: Vec::new(),
        };
        assert forall|t: int| 0 <= t < CACHE_TYPES implies (#[trigger] r.state().queues[t]).len()
            == 0 by {
            assert(r.lru_queues@[t]@.len() == 0);
        }
        r
    }

    fn find_entry(entries: &Vec<LRUCacheEntry>, key: u64) -> (r: usize)
        ensures
            r == place_of(entries@, key, 0),
            r <= entries.len(),
    {
        let mut i: usize = 0;
        while i < entries.len()
            invariant
                i <= entries.len(),
                place_of(entries@, key, 0) == place_of(entries@, key, i as int),
            decreases entries.len() - i,
        {
            if entries[i].key == key {
                return i;
            }
            i = i + 1;
        }
        i
    }

    fn find_evictable(queue: &Vec<LRUCacheEntry>) -> (r: usize)
        ensures
            r == first_evictable(queue@, 0),
            r <= queue.len(),
    {
        let mut i: usize = 0;
        while i < queue.len()
            invariant
                i <= queue.len(),
                first_evictable(queue@, 0) == first_evictable(queue@, i as int),
            decreases queue.len() - i,
        {
            if can_evict(&queue[i]) {
                return i;
            }
            i = i + 1;
        }
        i
    }

    /// Register a new cache entry
    pub fn register_entry(&mut self, entry: LRUCacheEntry, now_ms: u64)
        requires
            old(self).wf(),
        ensures
            final(self).wf(),
            ({
                let e = LRUCacheEntry { created_ms: now_ms, last_access_ms: now_ms, ..entry };
                let grown = queued(old(self).state(), e, now_ms);
                &&& final(self).state() == relieved(grown, now_ms)
                &&& final(self).peak_usage_bytes == math::max_int(
                    old(self).peak_usage_bytes as int,
                    grown.usage as int,
                )
                &&& final(self).emergency_mode == (grown.usage >= CRITICAL_THRESHOLD_BYTES)
            }),
    {
        let mut e: LRUCacheEntry = entry;
        e.created_ms = now_ms;
        e.last_access_ms = now_ms;
        let t: usize = e.cache_type.index();
        let ghost start = self.state();
        self.remove_entry(e.key);
        if self.lru_queues[t].len() >= MAX_LRU_QUEUE_SIZE {
            let p: usize = MemoryEvictor::find_evictable(&self.lru_queues[t]);
            if p < self.lru_queues[t].len() {
                self.evict_place(t, p, now_ms);
            }
        }
        let ghost room = self.state();
        self.lru_queues[t].push(e);
        self.entry_map.push(e);
        self.current_usage_bytes = self.current_usage_bytes.wrapping_add(e.size_bytes);
        proof {
            assert(self.state().queues =~= room.queues.update(
                t as int,
                room.queues[t as int].push(e),
            ));
            assert(self.state() == queued(start, e, now_ms));
            law_register_consistent(start, e, now_ms);
        }
        if self.current_usage_bytes > self.peak_usage_bytes {
            self.peak_usage_bytes = self.current_usage_bytes;
        }
        assert(self.state() == queued(start, e, now_ms));
        self.maybe_evict(now_ms);
    }

    /// Mark an entry as accessed (move to end of LRU queue)
    pub fn touch_entry(&mut self, key: u64, now_ms: u64)
        requires
            old(self).wf(),
        ensures
            final(self).wf(),
            final(self).peak_usage_bytes == old(self).peak_usage_bytes,
            final(self).emergency_mode == old(self).emergency_mode,
            final(self).state() == touched(old(self).state(), key, now_ms),
    {
        let place: usize = MemoryEvictor::find_entry(&self.entry_map, key);
        if place >= self.entry_map.len() {
            return;
        }
        let ghost st = self.state();
        let mut e: LRUCacheEntry = self.entry_map[place];
        e.last_access_ms = now_ms;
        self.entry_map.set(place, e);
        let t: usize = e.cache_type.index();
        let at: usize = MemoryEvictor::find_entry(&self.lru_queues[t], key);
        proof {
            lemma_place(st.queues[t as int], key, 0);
        }
        if at < self.lru_queues[t].len() {
            let _ = self.lru_queues[t].remove(at);
            self.lru_queues[t].push(e);
            proof {
                assert(self.state().queues =~= st.queues.update(
                    t as int,
                    st.queues[t as int].remove(at as int).push(e),
                ));
            }
        } else {
            proof {
                assert(self.state().queues =~= st.queues);
            }
        }
        proof {
            assert(self.state() == touched(st, key, now_ms));
            law_touch_consistent(st, key, now_ms);
        }
    }

    fn set_lock(&mut self, key: u64, locked: bool)
        requires
            old(self).wf(),
        ensures
            final(self).wf(),
            final(self).peak_usage_bytes == old(self).peak_usage_bytes,
            final(self).emergency_mode == old(self).emergency_mode,
            final(self).state() == lock_changed(old(self).state(), key, locked),
    {
        let place: usize = MemoryEvictor::find_entry(&self.entry_map, key);
        if place >= self.entry_map.len() {
            return;
        }
        let ghost st = self.state();
        let mut e: LRUCacheEntry = self.entry_map[place];
        e.is_locked = locked;
        self.entry_map.set(place, e);
        let t: usize = e.cache_type.index();
        let ghost q = self.lru_queues@[t as int]@;
        let mut relocked: Vec<LRUCacheEntry> = Vec::new();
        let mut i: usize = 0;
        while i < self.lru_queues[t].len()
            invariant
                self.lru_queues.len() == CACHE_TYPES,
                t < CACHE_TYPES,
                q == self.lru_queues@[t as int]@,
                i <= q.len(),
                relocked@ == with_lock(q, key, locked).subrange(0, i as int),
            decreases q.len() - i,
        {
            let mut x: LRUCacheEntry = self.lru_queues[t][i];
            if x.key == key {
                x.is_locked = locked;
            }
            relocked.push(x);
            i = i + 1;
            assert(relocked@ =~= with_lock(q, key, locked).subrange(0, i as int));
        }
        assert(relocked@ =~= with_lock(q, key, locked));
        self.lru_queues.set(t, relocked);
        proof {
            assert(self.state().queues =~= st.queues.update(t as int, with_lock(q, key, locked)));
            assert(self.state() == lock_changed(st, key, locked));
            law_lock_consistent(st, key, locked);
        }
    }

    /// Lock an entry (prevent eviction)
    pub fn lock_entry(&mut self, key: u64)
        requires
            old(self).wf(),
        ensures
            final(self).wf(),
            final(self).peak_usage_bytes == old(self).peak_usage_bytes,
            final(self).emergency_mode == old(self).emergency_mode,
            final(self).state() == lock_changed(old(self).state(), key, true),
    {
        self.set_lock(key, true);
    }

    /// Unlock an entry
    pub fn unlock_entry(&mut self, key: u64)
        requires
            old(self).wf(),
        ensures
            final(self).wf(),
            final(self).peak_usage_bytes == old(self).peak_usage_bytes,
            final(self).emergency_mode == old(self).emergency_mode,
            final(self).state() == lock_changed(old(self).state(), key, false),
    {
        self.set_lock(key, false);
    }

    /// Remove an entry manually (e.g., when data is no longer needed)
    pub fn remove_entry(&mut self, key: u64)
        requires
            old(self).wf(),
        ensures
            final(self).wf(),
            final(self).peak_usage_bytes == old(self).peak_usage_bytes,
            final(self).emergency_mode == old(self).emergency_mode,
            final(self).state() == removed(old(self).state(), key),
    {
        let place: usize = MemoryEvictor::find_entry(&self.entry_map, key);
        if place >= self.entry_map.len() {
            return;
        }
        let ghost st = self.state();
        let e: LRUCacheEntry = self.entry_map[place];
        let _ = self.entry_map.remove(place);
        let t: usize = e.cache_type.index();
        let at: usize = MemoryEvictor::find_entry(&self.lru_queues[t], key);
        if at < self.lru_queues[t].len() {
            let _ = self.lru_queues[t].remove(at);
        }
        self.current_usage_bytes = self.current_usage_bytes.wrapping_sub(e.size_bytes);
        proof {
            assert(self.state().queues =~= st.queues.update(
                t as int,
                without(st.queues[t as int], key),
            ));
            assert(self.state() == removed(st, key));
            law_remove_consistent(st, key);
        }
    }

    /// Check current memory usage and evict if necessary
    pub fn maybe_evict(&mut self, now_ms: u64)
        requires
            old(self).wf(),
        ensures
            final(self).wf(),
            final(self).state() == relieved(old(self).state(), now_ms),
            final(self).peak_usage_bytes == old(self).peak_usage_bytes,
            final(self).emergency_mode == (old(self).current_usage_bytes
                >= CRITICAL_THRESHOLD_BYTES),
    {
        let current: u64 = self.current_usage_bytes;
        if current < SOFT_THRESHOLD_BYTES {
            self.emergency_mode = false;
            return;
        }
        let aggressive: bool = current >= CRITICAL_THRESHOLD_BYTES;
        self.emergency_mode = aggressive;
        self.perform_eviction(aggressive, now_ms);
    }

    /// Perform eviction sweep
    fn perform_eviction(&mut self, aggressive: bool, now_ms: u64)
        requires
            old(self).wf(),
            old(self).current_usage_bytes >= SOFT_THRESHOLD_BYTES,
            aggressive == (old(self).current_usage_bytes >= CRITICAL_THRESHOLD_BYTES),
        ensures
            final(self).wf(),
            final(self).state() == relieved(old(self).state(), now_ms),
            final(self).peak_usage_bytes == old(self).peak_usage_bytes,
            final(self).emergency_mode == old(self).emergency_mode,
    {
        let target: u64 = if aggressive {
            CRITICAL_THRESHOLD_BYTES
        } else {
            SOFT_THRESHOLD_BYTES
        };
        let ghost start = self.state();
        let mut to_free: u64 = self.current_usage_bytes.saturating_sub(target);
        if to_free < MIN_FREE_MEMORY_BYTES {
            to_free = MIN_FREE_MEMORY_BYTES;
        }
        let mut freed: u128 = 0;
        let mut t: usize = 0;
        while t < SWEPT_TYPES
            invariant
                t <= SWEPT_TYPES,
                self.wf(),
                (self.state(), freed as int) == sweep(start, t as int, to_free as int, now_ms),
                freed <= 2 * u64::MAX,
                self.peak_usage_bytes == old(self).peak_usage_bytes,
                self.emergency_mode == old(self).emergency_mode,
            decreases SWEPT_TYPES - t,
        {
            let ghost before = self.state();
            let ghost freed_before = freed as int;
            let mut more: bool = freed < to_free as u128;
            while more
                invariant
                    self.wf(),
                    t < SWEPT_TYPES,
                    freed <= 2 * u64::MAX,
                    more ==> freed < to_free,
                    sweep_queue(before, t as int, freed_before, to_free as int, now_ms)
                        == sweep_queue(
                        self.state(),
                        t as int,
                        freed as int,
                        to_free as int,
                        now_ms,
                    ),
                    !more ==> sweep_queue(
                        self.state(),
                        t as int,
                        freed as int,
                        to_free as int,
                        now_ms,
                    ) == (self.state(), freed as int),
                    self.peak_usage_bytes == old(self).peak_usage_bytes,
                    self.emergency_mode == old(self).emergency_mode,
                decreases
                        if more {
                            self.state().queues[t as int].len() + 1
                        } else {
                            0
                        },
            {
                let p: usize = MemoryEvictor::find_evictable(&self.lru_queues[t]);
                if p < self.lru_queues[t].len() {
                    let size: u64 = self.lru_queues[t][p].size_bytes;
                    self.evict_place(t, p, now_ms);
                    freed = freed + size as u128;
                    more = freed < to_free as u128;
                } else {
                    more = false;
                }
            }
            t = t + 1;
        }
    }

    /// Evicts the entry at a place of a queue.
    fn evict_place(&mut self, t: usize, p: usize, now_ms: u64)
        requires
            old(self).wf(),
            t < CACHE_TYPES,
            p < old(self).lru_queues@[t as int]@.len(),
        ensures
            final(self).wf(),
            final(self).state() == evict_at(old(self).state(), t as int, p as int, now_ms),
            final(self).state().queues[t as int].len() == old(self).state().queues[t as int].len()
                - 1,
            final(self).peak_usage_bytes == old(self).peak_usage_bytes,
            final(self).emergency_mode == old(self).emergency_mode,
    {
        let ghost st = self.state();
        proof {
            lemma_evicted(st, t as int, p as int, now_ms);
        }
        let entry: LRUCacheEntry = self.lru_queues[t].remove(p);
        assert(self.state().queues =~= st.queues.update(
            t as int,
            st.queues[t as int].remove(p as int),
        ));
        self.evict_entry_internal(&entry, now_ms);
    }

    /// Internal eviction logic
    fn evict_entry_internal(&mut self, entry: &LRUCacheEntry, now_ms: u64)
        requires
            old(self).lru_queues.len() == CACHE_TYPES,
        ensures
            final(self).lru_queues.len() == CACHE_TYPES,
            final(self).state() == evict_one(old(self).state(), *entry, now_ms),
            final(self).peak_usage_bytes == old(self).peak_usage_bytes,
            final(self).emergency_mode == old(self).emergency_mode,
    {
        let ghost st = self.state();
        let place: usize = MemoryEvictor::find_entry(&self.entry_map, entry.key);
        if place < self.entry_map.len() {
            let _ = self.entry_map.remove(place);
        }
        self.current_usage_bytes = self.current_usage_bytes.wrapping_sub(entry.size_bytes);
        self.total_evictions = self.total_evictions.wrapping_add(1);
        self.recent_eviction_times.push(now_ms);
        let ghost stamped = self.recent_eviction_times@;
        while self.recent_eviction_times.len() > 0 && now_ms.saturating_sub(
            self.recent_eviction_times[0],
        ) > 1000
            invariant
                recent(stamped, now_ms) == recent(self.recent_eviction_times@, now_ms),
                self.lru_queues.len() == CACHE_TYPES,
                self.lru_queues == old(self).lru_queues,
                self.entry_map@ == without(st.entries, entry.key),
                self.current_usage_bytes == st.usage.wrapping_sub(entry.size_bytes),
                self.total_evictions == st.evictions.wrapping_add(1),
                self.evicted@ == st.evicted,
                self.peak_usage_bytes == old(self).peak_usage_bytes,
                self.emergency_mode == old(self).emergency_mode,
            decreases self.recent_eviction_times.len(),
        {
            let ghost times = self.recent_eviction_times@;
            let _ = self.recent_eviction_times.remove(0);
            assert(self.recent_eviction_times@ =~= times.subrange(1, times.len() as int));
        }
        self.evicted.push(Evicted { key: entry.key, cache_type: entry.cache_type });
        assert(self.state().queues =~= st.queues);
    }

    /// Hands out the evictions that nobody was told of yet.
    pub fn take_evicted(&mut self) -> (r: Vec<Evicted>)
        requires
            old(self).wf(),
        ensures
            final(self).wf(),
            r@ == old(self).evicted@,
            final(self).state() == (EvictorState {
                evicted: Seq::<Evicted>::empty(),
                ..old(self).state()
            }),
            final(self).peak_usage_bytes == old(self).peak_usage_bytes,
            final(self).emergency_mode == old(self).emergency_mode,
    {
        let mut r: Vec<Evicted> = Vec::new();
        std::mem::swap(&mut r, &mut self.evicted);
        assert(self.state().queues =~= old(self).state().queues);
        assert(self.evicted@ =~= Seq::<Evicted>::empty());
        r
    }

    fn sum_of_type(&self, t: CacheType) -> (r: u64)
        requires
            bytes_of(self.entry_map@, t) <= u64::MAX,
        ensures
            r == bytes_of(self.entry_map@, t),
    {
        let mut sum: u64 = 0;
        let mut i: usize = 0;
        assert(self.entry_map@.subrange(0, 0) =~= Seq::<LRUCacheEntry>::empty());
        while i < self.entry_map.len()
            invariant
                i <= self.entry_map.len(),
                bytes_of(self.entry_map@, t) <= u64::MAX,
                sum == bytes_of(self.entry_map@.subrange(0, i as int), t),
            decreases self.entry_map.len() - i,
        {
            proof {
                lemma_bytes_prefix(self.entry_map@, t, i + 1);
                let next = self.entry_map@.subrange(0, i + 1);
                assert(next.drop_last() =~= self.entry_map@.subrange(0, i as int));
                assert(next.last() == self.entry_map@[i as int]);
            }
            if self.entry_map[i].cache_type == t {
                sum = sum + self.entry_map[i].size_bytes;
            }
            i = i + 1;
        }
        assert(self.entry_map@.subrange(0, i as int) =~= self.entry_map@);
        sum
    }

    /// The bytes of each type can be counted.
    pub open spec fn countable(&self) -> bool {
        forall|t: CacheType| #[trigger] bytes_of(self.entry_map@, t) <= u64::MAX
    }

    /// Get current memory statistics
    pub fn get_stats(&self) -> (r: MemoryStats)
        requires
            self.countable(),
        ensures
            r.total_used_bytes == self.current_usage_bytes,
            self.wf() && total_bytes(self.entry_map@) <= u64::MAX ==> r.total_used_bytes
                == r.tick_history_bytes + r.orderbook_bytes + r.trade_history_bytes
                + r.strategy_state_bytes + r.position_state_bytes,
            r.tick_history_bytes == bytes_of(self.entry_map@, CacheType::TickHistory),
            r.orderbook_bytes == bytes_of(self.entry_map@, CacheType::OrderBookSnapshots),
            r.trade_history_bytes == bytes_of(self.entry_map@, CacheType::TradeHistory),
            r.strategy_state_bytes == bytes_of(self.entry_map@, CacheType::StrategyState),
            r.position_state_bytes == bytes_of(self.entry_map@, CacheType::ActivePositions),
            r.total_evictions == self.total_evictions,
            r.recent_evictions_per_sec == self.recent_eviction_times@.len(),
            r.pressure_level == (Ratio {
                num: math::min_int(
                    self.current_usage_bytes as int,
                    RAM_LIMIT_BYTES as int,
                ) as u64,
                den: RAM_LIMIT_BYTES,
            }),
    {
        let total: u64 = self.current_usage_bytes;
        proof {
            law_types_make_total(self.entry_map@);
            lemma_total_nonnegative(self.entry_map@);
        }
        MemoryStats {
            total_used_bytes: total,
            tick_history_bytes: self.sum_of_type(CacheType::TickHistory),
            orderbook_bytes: self.sum_of_type(CacheType::OrderBookSnapshots),
            trade_history_bytes: self.sum_of_type(CacheType::TradeHistory),
            strategy_state_bytes: self.sum_of_type(CacheType::StrategyState),
            position_state_bytes: self.sum_of_type(CacheType::ActivePositions),
            total_evictions: self.total_evictions,
            recent_evictions_per_sec: self.recent_eviction_times.len() as u64,
            pressure_level: Ratio {
                num: if total < RAM_LIMIT_BYTES {
                    total
                } else {
                    RAM_LIMIT_BYTES
                },
                den: RAM_LIMIT_BYTES,
            },
        }
    }

    /// Check if in emergency mode
    pub fn is_emergency_mode(&self) -> (r: bool)
        ensures
            r == self.emergency_mode,
    {
        self.emergency_mode
    }

    /// Whether a garbage collection is recommended: more than nine tenths of
    /// the memory is in use
    pub fn force_gc(&self) -> (recommended: bool)
        ensures
            recommended == (self.current_usage_bytes * 10 > RAM_LIMIT_BYTES * 9),
    {
        self.current_usage_bytes as u128 * 10 > RAM_LIMIT_BYTES as u128 * 9
    }
}

impl Default for MemoryEvictor {
    fn default() -> (r: Self)
        ensures
            r.wf(),
            r.state().usage == 0,
            r.state().evictions == 0,
            forall|t: int|
                0 <= t < CACHE_TYPES ==> (#[trigger] r.state().queues[t]).len() == 0,
            r.state().entries.len() == 0,
            r.state().times.len() == 0,
            r.state().evicted.len() == 0,
            r.peak_usage_bytes == 0,
            !r.emergency_mode,
    {
        MemoryEvictor::new()
    }
}

/// The state after the entry with a key is locked or unlocked, with what
/// stands for it in its queue.
pub open spec fn lock_changed(st: EvictorState, key: u64, locked: bool) -> EvictorState {
    let p = place_of(st.entries, key, 0);
    if p < st.entries.len() {
        let e = LRUCacheEntry { is_locked: locked, ..st.entries[p] };
        let t = e.cache_type.rank();
        EvictorState {
            entries: st.entries.update(p, e),
            queues: st.queues.update(t, with_lock(st.queues[t], key, locked)),
            ..st
        }
    } else {
        st
    }
}

/// The entries of a queue that cannot be evicted, in their order.
pub open spec fn pinned(s: Seq<LRUCacheEntry>) -> Seq<LRUCacheEntry>
    decreases s.len(),
{
    if s.len() == 0 {
        s
    } else if evictable(s.last()) {
        pinned(s.drop_last())
    } else {
        pinned(s.drop_last()).push(s.last())
    }
}

proof fn lemma_pinned_remove(s: Seq<LRUCacheEntry>, p: int)
    requires
        0 <= p < s.len(),
        evictable(s[p]),
    ensures
        pinned(s.remove(p)) == pinned(s),
    decreases s.len(),
{
    if p == s.len() - 1 {
        assert(s.remove(p) =~= s.drop_last());
    } else {
        lemma_pinned_remove(s.drop_last(), p);
        assert(s.remove(p).drop_last() =~= s.drop_last().remove(p));
        assert(s.remove(p).last() == s.last());
    }
}

proof fn lemma_sweep_queue(st: EvictorState, t: int, freed: int, to_free: int, now_ms: u64)
    requires
        0 <= t < st.queues.len(),
    ensures
        ({
            let (after, f) = sweep_queue(st, t, freed, to_free, now_ms);
            &&& after.queues.len() == st.queues.len()
            &&& forall|k: int| 0 <= k < st.queues.len() && k != t ==> #[trigger] after.queues[k] == st.queues[k]
            &&& pinned(after.queues[t]) == pinned(st.queues[t])
            &&& f >= freed
            &&& f >= to_free || first_evictable(after.queues[t], 0) >= after.queues[t].len()
        }),
    decreases st.queues[t].len(),
{
    let q = st.queues[t];
    let p = first_evictable(q, 0);
    lemma_first(q, 0);
    if !(freed >= to_free || !(0 <= p < q.len())) {
        lemma_pinned_remove(q, p);
        lemma_sweep_queue(
            evict_at(st, t, p, now_ms),
            t,
            freed + q[p].size_bytes,
            to_free,
            now_ms,
        );
    }
}

/// A sweep never evicts a locked entry or an active position: each queue keeps
/// these as they are, in their order.
pub proof fn law_sweep_keeps_pinned(st: EvictorState, n: int, to_free: int, now_ms: u64)
    requires
        0 <= n <= st.queues.len(),
    ensures
        sweep(st, n, to_free, now_ms).0.queues.len() == st.queues.len(),
        forall|t: int|
            0 <= t < st.queues.len() ==> pinned(
                #[trigger] sweep(st, n, to_free, now_ms).0.queues[t],
            ) == pinned(st.queues[t]),
        forall|t: int|
            n <= t < st.queues.len() ==> #[trigger] sweep(st, n, to_free, now_ms).0.queues[t]
                == st.queues[t],
    decreases n,
{
    if n > 0 {
        law_sweep_keeps_pinned(st, n - 1, to_free, now_ms);
        let (before, freed) = sweep(st, n - 1, to_free, now_ms);
        lemma_sweep_queue(before, n - 1, freed, to_free, now_ms);
    }
}

/// A sweep frees what it set out to free, or leaves nothing in the swept
/// queues that could be evicted.
pub proof fn law_sweep_frees(st: EvictorState, n: int, to_free: int, now_ms: u64)
    requires
        0 <= n <= st.queues.len(),
        to_free >= 0,
    ensures
        sweep(st, n, to_free, now_ms).1 >= 0,
        sweep(st, n, to_free, now_ms).1 >= to_free || forall|t: int|
            0 <= t < n ==> first_evictable(
                #[trigger] sweep(st, n, to_free, now_ms).0.queues[t],
                0,
            ) >= sweep(st, n, to_free, now_ms).0.queues[t].len(),
    decreases n,
{
    if n > 0 {
        law_sweep_frees(st, n - 1, to_free, now_ms);
        law_sweep_keeps_pinned(st, n - 1, to_free, now_ms);
        let (before, freed) = sweep(st, n - 1, to_free, now_ms);
        lemma_sweep_queue(before, n - 1, freed, to_free, now_ms);
        let (after, f) = sweep(st, n, to_free, now_ms);
        if f < to_free {
            assert forall|t: int| 0 <= t < n implies first_evictable(
                #[trigger] after.queues[t],
                0,
            ) >= after.queues[t].len() by {
                if t < n - 1 {
                    assert(after.queues[t] == before.queues[t]);
                }
            }
        }
    }
}

/// A locked entry stays in its queue under any pressure.
pub proof fn law_lock_prevents_eviction(st: EvictorState, key: u64, now_ms: u64, i: int)
    requires
        st.queues.len() == CACHE_TYPES,
        place_of(st.entries, key, 0) < st.entries.len(),
        ({
            let t = st.entries[place_of(st.entries, key, 0)].cache_type.rank();
            0 <= i < st.queues[t].len() && st.queues[t][i].key == key
        }),
    ensures
        ({
            let t = st.entries[place_of(st.entries, key, 0)].cache_type.rank();
            let locked = lock_changed(st, key, true);
            relieved(locked, now_ms).queues[t].contains(locked.queues[t][i])
        }),
{
    let t = st.entries[place_of(st.entries, key, 0)].cache_type.rank();
    let locked = lock_changed(st, key, true);
    let q = locked.queues[t];
    assert(q[i].is_locked);
    lemma_pinned_contains(q, i);
    if locked.usage >= SOFT_THRESHOLD_BYTES {
        law_sweep_keeps_pinned(
            locked,
            SWEPT_TYPES as int,
            bytes_to_free(locked.usage),
            now_ms,
        );
    }
    let after = relieved(locked, now_ms).queues[t];
    assert(pinned(after) == pinned(q));
    lemma_pinned_within(after, q[i]);
}

proof fn lemma_pinned_contains(s: Seq<LRUCacheEntry>, i: int)
    requires
        0 <= i < s.len(),
        !evictable(s[i]),
    ensures
        pinned(s).contains(s[i]),
    decreases s.len(),
{
    if i == s.len() - 1 {
        assert(pinned(s).last() == s[i]);
    } else {
        lemma_pinned_contains(s.drop_last(), i);
        let rest = pinned(s.drop_last());
        let k = rest.index_of(s[i]);
        assert(pinned(s)[k] == s[i]);
    }
}

proof fn lemma_pinned_within(s: Seq<LRUCacheEntry>, e: LRUCacheEntry)
    requires
        pinned(s).contains(e),
    ensures
        s.contains(e),
    decreases s.len(),
{
    if s.len() > 0 {
        let rest = pinned(s.drop_last());
        if !evictable(s.last()) && s.last() == e {
            assert(s[s.len() - 1] == e);
        } else {
            let k = pinned(s).index_of(e);
            if !evictable(s.last()) {
                assert(rest[k] == e);
            }
            lemma_pinned_within(s.drop_last(), e);
            let j = s.drop_last().index_of(e);
            assert(s[j] == e);
        }
    }
}

/// Caches give way in this order: tick history, order books, trade history,
/// strategy state and positions. Everything can be evicted but what is locked
/// and positions.
pub proof fn law_what_can_be_evicted(e: LRUCacheEntry)
    ensures
        CacheType::TickHistory.rank() == 0,
        CacheType::OrderBookSnapshots.rank() == 1,
        CacheType::TradeHistory.rank() == 2,
        CacheType::StrategyState.rank() == 3,
        CacheType::ActivePositions.rank() == 4,
        evictable(e) <==> !e.is_locked && e.cache_type.rank() != 4,
{
}

/// Memory is short from nine tenths of eight gibibytes on and critical from
/// nineteen twentieths. What is to be freed is what lies above the highest of
/// the two that is reached, and five hundred mebibytes at least.
pub proof fn law_what_is_to_be_freed(usage: u64)
    ensures
        10 * SOFT_THRESHOLD_BYTES <= 9 * RAM_LIMIT_BYTES < 10 * (SOFT_THRESHOLD_BYTES + 1),
        100 * CRITICAL_THRESHOLD_BYTES <= 95 * RAM_LIMIT_BYTES < 100 * (CRITICAL_THRESHOLD_BYTES
            + 1),
        RAM_LIMIT_BYTES == 8 * 1024 * 1024 * 1024,
        bytes_to_free(usage) >= 500 * 1024 * 1024,
        bytes_to_free(usage) == 500 * 1024 * 1024 || bytes_to_free(usage) == usage - (if usage
            >= CRITICAL_THRESHOLD_BYTES {
            CRITICAL_THRESHOLD_BYTES
        } else {
            SOFT_THRESHOLD_BYTES
        }),
        usage >= CRITICAL_THRESHOLD_BYTES ==> bytes_to_free(usage) + CRITICAL_THRESHOLD_BYTES
            >= usage,
        usage < CRITICAL_THRESHOLD_BYTES ==> bytes_to_free(usage) + SOFT_THRESHOLD_BYTES >= usage,
{
}

/// As long as memory is not short nothing is evicted; once it is, the first
/// three types give way.
pub proof fn law_relief_when_short(st: EvictorState, now_ms: u64)
    ensures
        st.usage < SOFT_THRESHOLD_BYTES ==> relieved(st, now_ms) == st,
        st.usage >= SOFT_THRESHOLD_BYTES ==> relieved(st, now_ms) == sweep(
            st,
            3,
            bytes_to_free(st.usage),
            now_ms,
        ).0,
{
}

/// Of a queue the longest unused entry that can be evicted goes first: it is
/// the first of the queue that can be, and nothing goes once enough is freed.
pub proof fn law_longest_unused_goes_first(
    st: EvictorState,
    t: int,
    freed: int,
    to_free: int,
    now_ms: u64,
    p: int,
)
    requires
        0 <= t < st.queues.len(),
        0 <= p < st.queues[t].len(),
        evictable(st.queues[t][p]),
        forall|i: int| 0 <= i < p ==> !evictable(#[trigger] st.queues[t][i]),
    ensures
        freed >= to_free ==> sweep_queue(st, t, freed, to_free, now_ms) == (st, freed),
        freed < to_free ==> sweep_queue(st, t, freed, to_free, now_ms) == sweep_queue(
            evict_at(st, t, p, now_ms),
            t,
            freed + st.queues[t][p].size_bytes,
            to_free,
            now_ms,
        ),
{
    lemma_first_is(st.queues[t], 0, p);
}

proof fn lemma_first_is(s: Seq<LRUCacheEntry>, i: int, p: int)
    requires
        0 <= i <= p < s.len(),
        evictable(s[p]),
        forall|k: int| i <= k < p ==> !evictable(#[trigger] s[k]),
    ensures
        first_evictable(s, i) == p,
    decreases p - i,
{
    if i < p {
        lemma_first_is(s, i + 1, p);
    }
}

/// A queue of which nothing can be evicted is passed over.
pub proof fn law_pinned_queue_is_passed_over(
    st: EvictorState,
    t: int,
    freed: int,
    to_free: int,
    now_ms: u64,
)
    requires
        0 <= t < st.queues.len(),
        forall|i: int| 0 <= i < st.queues[t].len() ==> !evictable(#[trigger] st.queues[t][i]),
    ensures
        sweep_queue(st, t, freed, to_free, now_ms) == (st, freed),
{
    lemma_none_evictable(st.queues[t], 0);
}

proof fn lemma_none_evictable(s: Seq<LRUCacheEntry>, i: int)
    requires
        0 <= i <= s.len(),
        forall|k: int| i <= k < s.len() ==> !evictable(#[trigger] s[k]),
    ensures
        first_evictable(s, i) == s.len(),
    decreases s.len() - i,
{
    if i < s.len() {
        lemma_none_evictable(s, i + 1);
    }
}

/// A sweep takes the queues in their order and carries over what it has freed.
pub proof fn law_sweep_takes_types_in_order(st: EvictorState, n: int, to_free: int, now_ms: u64)
    requires
        n > 0,
    ensures
        sweep(st, 0, to_free, now_ms) == (st, 0int),
        sweep(st, n, to_free, now_ms) == sweep_queue(
            sweep(st, n - 1, to_free, now_ms).0,
            n - 1,
            sweep(st, n - 1, to_free, now_ms).1,
            to_free,
            now_ms,
        ),
{
}

/// An eviction takes one entry out of its queue, frees its bytes, counts once,
/// and is told with its key and type; the other queues stay.
pub proof fn law_eviction_takes_one(st: EvictorState, t: int, p: int, now_ms: u64)
    requires
        0 <= t < st.queues.len(),
        0 <= p < st.queues[t].len(),
    ensures
        ({
            let e = st.queues[t][p];
            let after = evict_at(st, t, p, now_ms);
            &&& after.queues[t] == st.queues[t].remove(p)
            &&& forall|k: int|
                0 <= k < st.queues.len() && k != t ==> #[trigger] after.queues[k] == st.queues[k]
            &&& after.usage.wrapping_add(e.size_bytes) == st.usage
            &&& st.usage >= e.size_bytes ==> after.usage == st.usage - e.size_bytes
            &&& st.evictions < u64::MAX ==> after.evictions == st.evictions + 1
            &&& after.evicted.drop_last() == st.evicted
            &&& after.evicted.last().key == e.key
            &&& after.evicted.last().cache_type == e.cache_type
        }),
{
    let after = evict_at(st, t, p, now_ms);
    assert(after.evicted.drop_last() =~= st.evicted);
}

/// Eviction times are kept for a second: the first that is no older, and all
/// after it.
pub proof fn law_eviction_times_of_a_second(times: Seq<u64>, now_ms: u64)
    ensures
        ({
            let n = times.len() - recent(times, now_ms).len();
            &&& 0 <= n <= times.len()
            &&& recent(times, now_ms) == times.subrange(n, times.len() as int)
            &&& n < times.len() ==> now_ms <= times[n] + 1000
            &&& forall|i: int| 0 <= i < n ==> now_ms > #[trigger] times[i] + 1000
        }),
    decreases times.len(),
{
    if times.len() > 0 && now_ms - times[0] > 1000 {
        let rest = times.subrange(1, times.len() as int);
        law_eviction_times_of_a_second(rest, now_ms);
        let n = rest.len() - recent(rest, now_ms).len();
        assert(recent(times, now_ms) =~= times.subrange(n + 1, times.len() as int));
        assert forall|i: int| 0 <= i < n + 1 implies now_ms > #[trigger] times[i] + 1000 by {
            if i > 0 {
                assert(rest[i - 1] == times[i]);
            }
        }
        if n < rest.len() {
            assert(rest[n] == times[n + 1]);
        }
    } else {
        assert(times =~= times.subrange(0, times.len() as int));
    }
}

proof fn lemma_place_is(s: Seq<LRUCacheEntry>, key: u64, i: int, p: int)
    requires
        0 <= i <= p < s.len(),
        s[p].key == key,
        forall|k: int| i <= k < p ==> (#[trigger] s[k]).key != key,
    ensures
        place_of(s, key, i) == p,
    decreases p - i,
{
    if i < p {
        lemma_place_is(s, key, i + 1, p);
    }
}

proof fn lemma_place_in_distinct(s: Seq<LRUCacheEntry>, p: int)
    requires
        0 <= p < s.len(),
        keys_distinct(s),
    ensures
        place_of(s, s[p].key, 0) == p,
{
    lemma_place_is(s, s[p].key, 0, p);
}

/// An access makes an entry the most recent of its queue, with the time of the
/// access; the other entries stay in their order, and nothing is freed.
pub proof fn law_access_moves_to_the_end(st: EvictorState, p: int, at: int, now_ms: u64)
    requires
        keys_distinct(st.entries),
        0 <= p < st.entries.len(),
        st.queues.len() == CACHE_TYPES,
        ({
            let t = st.entries[p].cache_type.rank();
            &&& keys_distinct(st.queues[t])
            &&& 0 <= at < st.queues[t].len()
            &&& st.queues[t][at].key == st.entries[p].key
        }),
    ensures
        ({
            let e = st.entries[p];
            let t = e.cache_type.rank();
            let after = touched(st, e.key, now_ms);
            &&& after.queues[t].last().key == e.key
            &&& after.queues[t].last().last_access_ms == now_ms
            &&& after.queues[t].drop_last() == st.queues[t].remove(at)
            &&& after.entries[p].last_access_ms == now_ms
            &&& after.entries[p].size_bytes == e.size_bytes
            &&& after.entries.len() == st.entries.len()
            &&& after.usage == st.usage
            &&& after.evicted == st.evicted
            &&& forall|k: int|
                0 <= k < CACHE_TYPES && k != t ==> #[trigger] after.queues[k] == st.queues[k]
        }),
{
    let e = st.entries[p];
    let t = e.cache_type.rank();
    lemma_place_in_distinct(st.entries, p);
    lemma_place_in_distinct(st.queues[t], at);
    let after = touched(st, e.key, now_ms);
    assert(after.queues[t].drop_last() =~= st.queues[t].remove(at));
}

/// A new entry stands last in the queue of its type and adds its bytes. Only
/// where that queue holds ten thousand, its longest unused entry makes room.
pub proof fn law_new_entry_joins_its_queue(st: EvictorState, e: LRUCacheEntry, now_ms: u64)
    requires
        st.queues.len() == CACHE_TYPES,
        st.usage + e.size_bytes <= u64::MAX,
    ensures
        ({
            let t = e.cache_type.rank();
            let after = joined(st, e);
            &&& after.queues[t] == st.queues[t].push(e)
            &&& after.entries == st.entries.push(e)
            &&& after.usage == st.usage + e.size_bytes
            &&& st.queues[t].len() < 10_000 ==> with_room(st, t, now_ms) == st
            &&& forall|p: int|
                st.queues[t].len() >= 10_000 && 0 <= p < st.queues[t].len() && evictable(
                    #[trigger] st.queues[t][p],
                ) && (forall|i: int| 0 <= i < p ==> !evictable(#[trigger] st.queues[t][i]))
                    ==> with_room(st, t, now_ms) == evict_at(st, t, p, now_ms)
            &&& queued(st, e, now_ms) == joined(with_room(removed(st, e.key), t, now_ms), e)
        }),
{
    let t = e.cache_type.rank();
    assert forall|p: int|
        st.queues[t].len() >= 10_000 && 0 <= p < st.queues[t].len() && evictable(
            #[trigger] st.queues[t][p],
        ) && (forall|i: int| 0 <= i < p ==> !evictable(#[trigger] st.queues[t][i])) implies with_room(
        st,
        t,
        now_ms,
    ) == evict_at(st, t, p, now_ms) by {
        lemma_first_is(st.queues[t], 0, p);
    }
}

/// Removing an entry frees its bytes and takes it alone out.
pub proof fn law_removal_frees_its_bytes(st: EvictorState, p: int)
    requires
        keys_distinct(st.entries),
        0 <= p < st.entries.len(),
        st.usage >= st.entries[p].size_bytes,
    ensures
        ({
            let after = removed(st, st.entries[p].key);
            &&& after.usage + st.entries[p].size_bytes == st.usage
            &&& after.entries == st.entries.remove(p)
            &&& after.evictions == st.evictions
            &&& after.evicted == st.evicted
        }),
{
    lemma_place_in_distinct(st.entries, p);
}

/// A lock changes nothing of an entry but whether it is locked, and no other
/// entry.
pub proof fn law_lock_changes_one_flag(st: EvictorState, p: int, locked: bool, i: int)
    requires
        keys_distinct(st.entries),
        0 <= p < st.entries.len(),
        0 <= i < st.entries.len(),
    ensures
        ({
            let after = lock_changed(st, st.entries[p].key, locked);
            &&& after.entries.len() == st.entries.len()
            &&& after.entries[p].is_locked == locked
            &&& after.entries[p].key == st.entries[p].key
            &&& after.entries[p].size_bytes == st.entries[p].size_bytes
            &&& after.entries[p].last_access_ms == st.entries[p].last_access_ms
            &&& after.entries[p].cache_type == st.entries[p].cache_type
            &&& i != p ==> after.entries[i] == st.entries[i]
            &&& after.usage == st.usage
        }),
{
    lemma_place_in_distinct(st.entries, p);
}

/// Bytes add up entry by entry, in all and by type.
pub proof fn law_bytes_add_entries(s: Seq<LRUCacheEntry>, e: LRUCacheEntry, t: CacheType)
    ensures
        total_bytes(Seq::<LRUCacheEntry>::empty()) == 0,
        total_bytes(s.push(e)) == total_bytes(s) + e.size_bytes,
        bytes_of(s.push(e), t) == bytes_of(s, t) + (if e.cache_type == t {
            e.size_bytes as int
        } else {
            0
        }),
{
    assert(s.push(e).drop_last() =~= s);
}

/// An evicted entry leaves the map as well, alone.
pub proof fn law_evicted_entry_leaves_the_map(
    st: EvictorState,
    t: int,
    p: int,
    now_ms: u64,
    at: int,
)
    requires
        0 <= t < st.queues.len(),
        0 <= p < st.queues[t].len(),
        keys_distinct(st.entries),
        0 <= at < st.entries.len(),
        st.entries[at].key == st.queues[t][p].key,
    ensures
        evict_at(st, t, p, now_ms).entries == st.entries.remove(at),
{
    lemma_place_in_distinct(st.entries, at);
}

} // verus!
