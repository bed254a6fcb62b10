//! The mathematical state of a storage hierarchy and the effect of one access
//! on it.
use vstd::prelude::*;
use vstd::arithmetic::div_mod::{lemma_div_is_ordered, lemma_div_by_multiple, lemma_fundamental_div_mod};
use vstd::arithmetic::mul::lemma_mul_inequality;
use crate::cache::{CacheConfig, CacheOp, StatsView, add_stats, zero_stats};
use crate::lines::{find_from, SetView, set_wf, touch, install, mark_dirty, lemma_touch_wf, lemma_install_wf, lemma_mark_dirty_wf};

verus! {

/// The backing store: a latency and counters that stay at zero.
pub struct DramView {
    pub latency: u64,
    pub stats: StatsView,
}

/// One cache level and everything below it.
pub struct CacheView {
    pub config: CacheConfig,
    pub stats: StatsView,
    pub line_mask: u64,
    pub tag_mask: u64,
    pub sets: Seq<SetView>,
    pub lower: LevelView,
}

/// A storage level: a cache over the levels below it, or the backing store.
pub enum LevelView {
    Cache(Box<CacheView>),
    Dram(DramView),
}

/// The number of cache levels, this one included.
pub open spec fn cache_depth(c: CacheView) -> nat
    decreases c,
{
    1 + level_depth(c.lower)
}

/// The number of cache levels above the backing store.
pub open spec fn level_depth(l: LevelView) -> nat
    decreases l,
{
    match l {
        LevelView::Cache(c) => cache_depth(*c),
        LevelView::Dram(_) => 0,
    }
}

/// The set an address maps to.
pub open spec fn set_index(c: CacheView, address: u64) -> int {
    ((address & c.line_mask) / c.config.line_size) as int
}

/// The tag an address is stored under.
pub open spec fn tag_of(c: CacheView, address: u64) -> u64 {
    address & c.tag_mask
}

/// The cache with set `si` replaced, the lower levels replaced, and one more
/// miss counted when `missed`.
pub open spec fn with_sets(c: CacheView, si: int, s: SetView, lower: LevelView, missed: bool) -> CacheView {
    CacheView {
        config: c.config,
        stats: StatsView {
            num_access: c.stats.num_access,
            num_miss: if missed { c.stats.num_miss + 1 } else { c.stats.num_miss },
            time: c.stats.time,
        },
        line_mask: c.line_mask,
        tag_mask: c.tag_mask,
        sets: c.sets.update(si, s),
        lower,
    }
}

/// A miss that brings the line in: read it from below, install it after the
/// lookup `s1`, and write the victim back below when it was dirty.
pub open spec fn fill(c: CacheView, s1: SetView, address: u64, fuel: nat) -> (CacheView, int)
    decreases fuel, 2nat,
{
    let si = set_index(c, address);
    let (low1, r1) = level_step(c.lower, address, CacheOp::Read, fuel);
    let (s2, evicted) = install(s1, tag_of(c, address), address);
    let (low2, r2) = match evicted {
        Some(a) => level_step(low1, a, CacheOp::Write, fuel),
        None => (low1, 0),
    };
    (with_sets(c, si, s2, low2, true), c.config.latency + r1 + r2)
}

/// A read: the line's latency on a hit, a fill on a miss.
pub open spec fn cache_read(c: CacheView, address: u64, fuel: nat) -> (CacheView, int)
    decreases fuel, 3nat,
{
    let si = set_index(c, address);
    let (s1, hit) = touch(c.sets[si], tag_of(c, address));
    match hit {
        Some(_) => (with_sets(c, si, s1, c.lower, false), c.config.latency as int),
        None => fill(c, s1, address, fuel),
    }
}

/// A write: on a hit, written through below or marked dirty; on a miss,
/// a fill when allocating, else written below without installing a line.
pub open spec fn cache_write(c: CacheView, address: u64, fuel: nat) -> (CacheView, int)
    decreases fuel, 3nat,
{
    let si = set_index(c, address);
    let (s1, hit) = touch(c.sets[si], tag_of(c, address));
    match hit {
        Some(i) => if c.config.write_through {
            let (low, r1) = level_step(c.lower, address, CacheOp::Write, fuel);
            (with_sets(c, si, s1, low, false), c.config.latency + r1)
        } else {
            (with_sets(c, si, mark_dirty(s1, i), c.lower, false), c.config.latency as int)
        },
        None => if c.config.write_allocate {
            fill(c, s1, address, fuel)
        } else {
            let (low, r1) = level_step(c.lower, address, CacheOp::Write, fuel);
            (with_sets(c, si, s1, low, true), c.config.latency + r1)
        },
    }
}

/// One access to a cache: the read or write, then the access and its cost
/// counted.
pub open spec fn cache_step(c: CacheView, address: u64, op: CacheOp, fuel: nat) -> (CacheView, int)
    decreases fuel, 0nat,
{
    if fuel == 0 {
        (c, 0)
    } else {
        let f = (fuel - 1) as nat;
        let (c1, r) = match op {
            CacheOp::Read => cache_read(c, address, f),
            CacheOp::Write => cache_write(c, address, f),
        };
        (
            CacheView {
                stats: StatsView {
                    num_access: c1.stats.num_access + 1,
                    num_miss: c1.stats.num_miss,
                    time: c1.stats.time + r,
                },
                ..c1
            },
            r,
        )
    }
}

/// One access to a level; the backing store answers with its latency and
/// does not change.
pub open spec fn level_step(l: LevelView, address: u64, op: CacheOp, fuel: nat) -> (LevelView, int)
    decreases fuel, 1nat,
{
    match l {
        LevelView::Cache(c) => {
            let (c2, r) = cache_step(*c, address, op, fuel);
            (LevelView::Cache(Box::new(c2)), r)
        },
        LevelView::Dram(d) => (l, d.latency as int),
    }
}

/// One access to a cache, as deep as the hierarchy goes.
pub open spec fn access_cache(c: CacheView, address: u64, op: CacheOp) -> (CacheView, int) {
    cache_step(c, address, op, cache_depth(c))
}

/// One access to a level, as deep as the hierarchy goes.
pub open spec fn access_level(l: LevelView, address: u64, op: CacheOp) -> (LevelView, int) {
    level_step(l, address, op, level_depth(l))
}

/// The configurations of a cache and of the caches below it, nearest first.
pub open spec fn cache_configs(c: CacheView) -> Seq<CacheConfig>
    decreases c,
{
    seq![c.config] + level_configs(c.lower)
}

/// The configurations of the caches from this level down, nearest first.
pub open spec fn level_configs(l: LevelView) -> Seq<CacheConfig>
    decreases l,
{
    match l {
        LevelView::Cache(c) => cache_configs(*c),
        LevelView::Dram(_) => Seq::empty(),
    }
}

/// The counters of a cache summed with those of every level below it.
pub open spec fn cache_total(c: CacheView) -> StatsView
    decreases c,
{
    add_stats(c.stats, level_total(c.lower))
}

/// The counters of a level summed with those of every level below it.
pub open spec fn level_total(l: LevelView) -> StatsView
    decreases l,
{
    match l {
        LevelView::Cache(c) => cache_total(*c),
        LevelView::Dram(d) => d.stats,
    }
}

/// The most one access to a cache can cost: its latency and two accesses
/// below (a fetch and a write-back).
pub open spec fn cache_max_cost(c: CacheView) -> int
    decreases c,
{
    c.config.latency + 2 * level_max_cost(c.lower)
}

/// The most one access to a level can cost.
pub open spec fn level_max_cost(l: LevelView) -> int
    decreases l,
{
    match l {
        LevelView::Cache(c) => cache_max_cost(*c),
        LevelView::Dram(d) => d.latency as int,
    }
}

/// There is room for `k` more accesses to this cache, and so for `2 * k`
/// below it, before any counter or clock would pass `u64::MAX`.
pub open spec fn cache_room(c: CacheView, k: int) -> bool
    decreases c,
{
    &&& 2 * (c.stats.num_access + k) <= u64::MAX
    &&& c.stats.time + k * cache_max_cost(c) <= u64::MAX
    &&& level_room(c.lower, 2 * k)
}

/// There is room for `k` more accesses to this level.
pub open spec fn level_room(l: LevelView, k: int) -> bool
    decreases l,
{
    match l {
        LevelView::Cache(c) => cache_room(*c, k),
        LevelView::Dram(_) => true,
    }
}

/// A well-formed cache: a valid configuration with the masks it defines, one
/// well-formed set of `associativity` lines per index, at most as many misses
/// as accesses, and well-formed levels below.
pub open spec fn cache_wf(c: CacheView) -> bool
    decreases c,
{
    &&& c.config.valid()
    &&& c.line_mask == c.config.line_mask()
    &&& c.tag_mask == c.config.tag_mask()
    &&& c.sets.len() == c.config.num_sets()
    &&& forall|i: int|
        0 <= i < c.sets.len() ==> set_wf(
            #[trigger] c.sets[i],
            c.config.associativity as int,
            2 * c.stats.num_access,
        )
    &&& 0 <= c.stats.num_miss <= c.stats.num_access <= u64::MAX
    &&& 0 <= c.stats.time <= u64::MAX
    &&& level_wf(c.lower)
}

/// A well-formed level; the backing store's counters are zero.
pub open spec fn level_wf(l: LevelView) -> bool
    decreases l,
{
    match l {
        LevelView::Cache(c) => cache_wf(*c),
        LevelView::Dram(d) => d.stats == zero_stats(),
    }
}

/// Whether the tag of `address` is held by a valid line of its set.
pub open spec fn resident(c: CacheView, address: u64) -> bool {
    find_from(c.sets[set_index(c, address)].lines, tag_of(c, address), 0) is Some
}

/// The cache after running `trace` through it in order, with the sum of the
/// durations the accesses returned.
pub open spec fn run_trace(c: CacheView, trace: Seq<(u64, CacheOp)>) -> (CacheView, int)
    decreases trace.len(),
{
    if trace.len() == 0 {
        (c, 0)
    } else {
        let (c1, r) = access_cache(c, trace[0].0, trace[0].1);
        let (c2, t) = run_trace(c1, trace.drop_first());
        (c2, r + t)
    }
}

/// What one access leaves of a level with room for `k` accesses: still well
/// formed, room for `k - 1`, the same shape and bound, and a cost within the
/// bound.
pub open spec fn level_step_ok(l: LevelView, l2: LevelView, r: int, k: int) -> bool {
    &&& level_wf(l2)
    &&& level_room(l2, k - 1)
    &&& 0 <= r <= level_max_cost(l)
    &&& level_max_cost(l2) == level_max_cost(l)
    &&& level_depth(l2) == level_depth(l)
    &&& level_configs(l2) == level_configs(l)
}

/// The same for a cache, whose configuration stays as it was.
pub open spec fn cache_step_ok(c: CacheView, c2: CacheView, r: int, k: int) -> bool {
    &&& cache_wf(c2)
    &&& cache_room(c2, k - 1)
    &&& c.config.latency <= r <= cache_max_cost(c)
    &&& cache_max_cost(c2) == cache_max_cost(c)
    &&& cache_depth(c2) == cache_depth(c)
    &&& c2.config == c.config
    &&& cache_configs(c2) == cache_configs(c)
}

/// What a read or write leaves before the access is counted: only the
/// address's set and the lower levels change, the miss count grows by at most
/// one, and the cost is the latency plus what the lower levels charged.
pub(crate) open spec fn partial_ok(c: CacheView, c1: CacheView, r: int, k: int, address: u64) -> bool {
    let si = set_index(c, address);
    &&& c1.config == c.config
    &&& c1.line_mask == c.line_mask
    &&& c1.tag_mask == c.tag_mask
    &&& c1.stats.num_access == c.stats.num_access
    &&& c.stats.num_miss <= c1.stats.num_miss <= c.stats.num_miss + 1
    &&& c1.stats.time == c.stats.time
    &&& c1.sets.len() == c.sets.len()
    &&& forall|i: int| 0 <= i < c.sets.len() && i != si ==> #[trigger] c1.sets[i] == c.sets[i]
    &&& set_wf(c1.sets[si], c.config.associativity as int, 2 * c.stats.num_access + 2)
    &&& level_wf(c1.lower)
    &&& level_room(c1.lower, 2 * k - 2)
    &&& level_max_cost(c1.lower) == level_max_cost(c.lower)
    &&& level_depth(c1.lower) == level_depth(c.lower)
    &&& level_configs(c1.lower) == level_configs(c.lower)
    &&& c.config.latency <= r <= c.config.latency + 2 * level_max_cost(c.lower)
}

/// An address maps to one of the sets.
pub proof fn lemma_set_index(c: CacheView, address: u64)
    requires
        c.config.valid(),
        c.line_mask == c.config.line_mask(),
    ensures
        0 <= set_index(c, address) < c.config.num_sets(),
{
    let cap = c.config.capacity as int;
    let ls = c.config.line_size as int;
    let a = c.config.associativity as int;
    let nl = c.config.num_lines();
    let ns = c.config.num_sets();
    lemma_fundamental_div_mod(cap, ls);
    lemma_fundamental_div_mod(nl, a);
    assert(ns <= nl) by (nonlinear_arith)
        requires
            nl == a * ns + nl % a,
            a >= 1,
            ns >= 1,
            nl % a == 0,
    ;
    assert((ns - 1) * ls <= cap) by (nonlinear_arith)
        requires
            cap == ls * nl + cap % ls,
            cap % ls == 0,
            ns <= nl,
            ns >= 1,
            ls >= 1,
    ;
    let m = c.line_mask;
    assert(m == (ns - 1) * ls);
    assert(address & m <= m) by (bit_vector);
    let x = address & m;
    lemma_div_is_ordered(x as int, (ns - 1) * ls, ls);
    lemma_div_by_multiple(ns - 1, ls);
}

/// No access costs less than nothing.
pub proof fn lemma_max_cost_nonneg(l: LevelView)
    ensures
        level_max_cost(l) >= 0,
    decreases l,
{
    if let LevelView::Cache(c) = l {
        lemma_max_cost_nonneg(c.lower);
    }
}

/// Room for `k` accesses is room for fewer.
pub proof fn lemma_room_mono(l: LevelView, k: int, j: int)
    requires
        level_room(l, k),
        0 <= j <= k,
    ensures
        level_room(l, j),
    decreases l,
{
    if let LevelView::Cache(c) = l {
        let mc = cache_max_cost(*c);
        lemma_max_cost_nonneg(l);
        lemma_mul_inequality(j, k, mc);
        lemma_room_mono(c.lower, 2 * k, 2 * j);
    }
}

/// Room for `k` accesses to a cache is room for fewer.
pub proof fn lemma_cache_room_mono(c: CacheView, k: int, j: int)
    requires
        cache_room(c, k),
        0 <= j <= k,
    ensures
        cache_room(c, j),
{
    lemma_room_mono(LevelView::Cache(Box::new(c)), k, j);
}

/// One access to a well-formed level with room.
pub proof fn lemma_level_step(l: LevelView, address: u64, op: CacheOp, k: int)
    requires
        level_wf(l),
        level_room(l, k),
        k >= 1,
    ensures
        level_step_ok(l, access_level(l, address, op).0, access_level(l, address, op).1, k),
    decreases level_depth(l), 3nat,
{
    match l {
        LevelView::Cache(c) => {
            lemma_cache_step(*c, address, op, k);
        },
        LevelView::Dram(d) => {},
    }
}

/// One access to a well-formed cache with room.
pub proof fn lemma_cache_step(c: CacheView, address: u64, op: CacheOp, k: int)
    requires
        cache_wf(c),
        cache_room(c, k),
        k >= 1,
    ensures
        cache_step_ok(c, access_cache(c, address, op).0, access_cache(c, address, op).1, k),
    decreases cache_depth(c), 2nat,
{
    let f = level_depth(c.lower);
    let (c1, r) = match op {
        CacheOp::Read => cache_read(c, address, f),
        CacheOp::Write => cache_write(c, address, f),
    };
    match op {
        CacheOp::Read => lemma_read(c, address, k),
        CacheOp::Write => lemma_write(c, address, k),
    }
    let (c2, r2) = access_cache(c, address, op);
    assert(r2 == r);
    let n = c.stats.num_access;
    let ways = c.config.associativity as int;
    let si = set_index(c, address);
    let mc = cache_max_cost(c);
    lemma_max_cost_nonneg(c.lower);
    assert forall|i: int| 0 <= i < c2.sets.len() implies set_wf(
        #[trigger] c2.sets[i],
        ways,
        2 * c2.stats.num_access,
    ) by {
        if i != si {
            assert(c1.sets[i] == c.sets[i]);
            assert(set_wf(c.sets[i], ways, 2 * n));
        }
    }
    assert(c.stats.time + r + (k - 1) * mc <= u64::MAX) by (nonlinear_arith)
        requires
            c.stats.time + k * mc <= u64::MAX,
            r <= mc,
    ;
    assert(cache_room(c2, k - 1));
}

/// A read of a well-formed cache with room.
pub(crate) proof fn lemma_read(c: CacheView, address: u64, k: int)
    requires
        cache_wf(c),
        cache_room(c, k),
        k >= 1,
    ensures
        partial_ok(c, cache_read(c, address, level_depth(c.lower)).0, cache_read(c, address, level_depth(c.lower)).1, k, address),
    decreases cache_depth(c), 1nat,
{
    let si = set_index(c, address);
    let tag = tag_of(c, address);
    let ways = c.config.associativity as int;
    let n = c.stats.num_access;
    lemma_set_index(c, address);
    lemma_max_cost_nonneg(c.lower);
    lemma_touch_wf(c.sets[si], tag, ways, 2 * n);
    let (s1, hit) = touch(c.sets[si], tag);
    match hit {
        Some(_) => {
            lemma_room_mono(c.lower, 2 * k, 2 * k - 2);
        },
        None => {
            lemma_fill(c, s1, address, k);
        },
    }
}

/// A write to a well-formed cache with room.
pub(crate) proof fn lemma_write(c: CacheView, address: u64, k: int)
    requires
        cache_wf(c),
        cache_room(c, k),
        k >= 1,
    ensures
        partial_ok(c, cache_write(c, address, level_depth(c.lower)).0, cache_write(c, address, level_depth(c.lower)).1, k, address),
    decreases cache_depth(c), 1nat,
{
    let si = set_index(c, address);
    let tag = tag_of(c, address);
    let ways = c.config.associativity as int;
    let n = c.stats.num_access;
    lemma_set_index(c, address);
    lemma_max_cost_nonneg(c.lower);
    lemma_touch_wf(c.sets[si], tag, ways, 2 * n);
    let (s1, hit) = touch(c.sets[si], tag);
    match hit {
        Some(i) => {
            if c.config.write_through {
                lemma_level_step(c.lower, address, CacheOp::Write, 2 * k);
                let low = access_level(c.lower, address, CacheOp::Write).0;
                lemma_room_mono(low, 2 * k - 1, 2 * k - 2);
            } else {
                lemma_room_mono(c.lower, 2 * k, 2 * k - 2);
                lemma_mark_dirty_wf(s1, i, ways, 2 * n + 1);
            }
        },
        None => {
            if c.config.write_allocate {
                lemma_fill(c, s1, address, k);
            } else {
                lemma_level_step(c.lower, address, CacheOp::Write, 2 * k);
                let low = access_level(c.lower, address, CacheOp::Write).0;
                lemma_room_mono(low, 2 * k - 1, 2 * k - 2);
            }
        },
    }
}

/// A miss that brings the line into a well-formed cache with room.
pub(crate) proof fn lemma_fill(c: CacheView, s1: SetView, address: u64, k: int)
    requires
        cache_wf(c),
        cache_room(c, k),
        k >= 1,
        0 <= set_index(c, address) < c.sets.len(),
        s1 == touch(c.sets[set_index(c, address)], tag_of(c, address)).0,
        set_wf(s1, c.config.associativity as int, 2 * c.stats.num_access + 1),
        s1.clock <= 2 * c.stats.num_access + 1,
    ensures
        partial_ok(c, fill(c, s1, address, level_depth(c.lower)).0, fill(c, s1, address, level_depth(c.lower)).1, k, address),
    decreases cache_depth(c), 0nat,
{
    let f = level_depth(c.lower);
    let ways = c.config.associativity as int;
    let n = c.stats.num_access;
    lemma_max_cost_nonneg(c.lower);
    lemma_level_step(c.lower, address, CacheOp::Read, 2 * k);
    let (low1, r1) = level_step(c.lower, address, CacheOp::Read, f);
    lemma_install_wf(s1, tag_of(c, address), address, ways, 2 * n + 1);
    let (s2, evicted) = install(s1, tag_of(c, address), address);
    match evicted {
        Some(a) => {
            lemma_level_step(low1, a, CacheOp::Write, 2 * k - 1);
        },
        None => {
            lemma_room_mono(low1, 2 * k - 1, 2 * k - 2);
        },
    }
}

} // verus!
