//! What the cache guarantees about sequences of accesses: misses on cold
//! addresses, hits after a fill, least-recently-used eviction, deferred
//! write-back, bypassing writes.
use vstd::prelude::*;
use crate::cache::{CacheConfig, CacheOp, add_stats, fresh_cache};
use crate::lines::{CacheLine, SetView, find_from, install, lemma_find_some, lemma_install_wf, lemma_lru_eviction, lemma_touch_wf, touch, victim};
use crate::model::{CacheView, LevelView, access_cache, access_level, cache_room, cache_total, cache_wf, level_total, run_trace, level_wf, level_room, level_configs, level_depth, level_max_cost, cache_configs, level_step, lemma_room_mono, cache_depth, cache_read, cache_write, lemma_cache_step, lemma_level_step, lemma_set_index, resident, set_index, tag_of};

verus! {

/// No valid line at or after `i` carries `tag`: nothing is found.
proof fn lemma_find_none(lines: Seq<CacheLine>, tag: u64, i: int)
    requires
        forall|j: int| i <= j < lines.len() ==> !(#[trigger] lines[j]).is_valid || lines[j].tag != tag,
    ensures
        find_from(lines, tag, i) is None,
    decreases lines.len() - i,
{
    if 0 <= i < lines.len() {
        lemma_find_none(lines, tag, i + 1);
    }
}

/// A cache as built holds nothing: no address is resident.
pub proof fn lemma_fresh_holds_nothing(config: CacheConfig, lower: LevelView, address: u64)
    requires
        config.valid(),
    ensures
        !resident(fresh_cache(config, lower), address),
{
    let c = fresh_cache(config, lower);
    lemma_set_index(c, address);
    lemma_find_none(c.sets[set_index(c, address)].lines, tag_of(c, address), 0);
}

/// An access to an address that is not resident is a miss: the cache counts
/// exactly one more miss, whatever the operation.
pub proof fn lemma_cold_miss(c: CacheView, address: u64, op: CacheOp)
    requires
        cache_wf(c),
        !resident(c, address),
    ensures
        access_cache(c, address, op).0.stats.num_miss == c.stats.num_miss + 1,
{
}

/// After a read, or a write that allocates, the address is resident.
pub proof fn lemma_resident_after(c: CacheView, address: u64, op: CacheOp)
    requires
        cache_wf(c),
        cache_room(c, 1),
        op == CacheOp::Read || c.config.write_allocate,
    ensures
        resident(access_cache(c, address, op).0, address),
{
    let si = set_index(c, address);
    let tag = tag_of(c, address);
    let ways = c.config.associativity as int;
    lemma_set_index(c, address);
    assert(crate::lines::set_wf(c.sets[si], ways, 2 * c.stats.num_access));
    lemma_touch_wf(c.sets[si], tag, ways, 2 * c.stats.num_access);
    let (s1, hit) = touch(c.sets[si], tag);
    let c2 = access_cache(c, address, op).0;
    assert(set_index(c2, address) == si);
    assert(tag_of(c2, address) == tag);
    match hit {
        Some(i) => {
            lemma_find_some(c2.sets[si].lines, tag, 0, i);
        },
        None => {
            lemma_install_wf(s1, tag, address, ways, 2 * c.stats.num_access + 1);
            lemma_find_some(c2.sets[si].lines, tag, 0, victim(s1.lines));
        },
    }
}

/// The latency of the level right below a cache.
pub open spec fn next_latency(l: LevelView) -> int {
    match l {
        LevelView::Cache(c) => c.config.latency as int,
        LevelView::Dram(d) => d.latency as int,
    }
}

/// Accessing an address again right after a read (or an allocating write)
/// of it is a hit: a read, or a write that is not written through, costs the
/// latency alone, counts no miss and leaves the lower levels untouched. The
/// second access is never dearer than the first, and strictly cheaper when
/// the first missed and the next level's latency is not zero.
pub proof fn lemma_hit_after_fill(c: CacheView, address: u64, first: CacheOp, second: CacheOp)
    requires
        cache_wf(c),
        cache_room(c, 1),
        first == CacheOp::Read || c.config.write_allocate,
        second == CacheOp::Read || !c.config.write_through,
    ensures
        ({
            let (c1, r1) = access_cache(c, address, first);
            let (c2, r2) = access_cache(c1, address, second);
            &&& r2 == c.config.latency
            &&& r2 <= r1
            &&& !resident(c, address) && next_latency(c.lower) > 0 ==> r2 < r1
            &&& c2.stats.num_miss == c1.stats.num_miss
            &&& c2.lower == c1.lower
        }),
{
    lemma_cache_step(c, address, first, 1);
    lemma_resident_after(c, address, first);
    let c1 = access_cache(c, address, first).0;
    lemma_set_index(c1, address);
    if !resident(c, address) {
        lemma_set_index(c, address);
        let si = set_index(c, address);
        lemma_touch_wf(c.sets[si], tag_of(c, address), c.config.associativity as int, 2 * c.stats.num_access);
        let s1 = touch(c.sets[si], tag_of(c, address)).0;
        lemma_level_step(c.lower, address, CacheOp::Read, 2);
        if let LevelView::Cache(x) = c.lower {
            lemma_cache_step(*x, address, CacheOp::Read, 2);
        }
        let low1 = access_level(c.lower, address, CacheOp::Read).0;
        if let Some(a) = install(s1, tag_of(c, address), address).1 {
            lemma_level_step(low1, a, CacheOp::Write, 1);
        }
    }
}

/// A write hit that is not written through costs the latency alone, leaves
/// the lower levels untouched and marks the line holding the tag dirty.
pub proof fn lemma_write_hit_marks_dirty(c: CacheView, address: u64)
    requires
        cache_wf(c),
        cache_room(c, 1),
        resident(c, address),
        !c.config.write_through,
    ensures
        ({
            let si = set_index(c, address);
            let k = find_from(c.sets[si].lines, tag_of(c, address), 0)->Some_0;
            let (c2, r) = access_cache(c, address, CacheOp::Write);
            &&& r == c.config.latency
            &&& c2.lower == c.lower
            &&& c2.stats.num_miss == c.stats.num_miss
            &&& c2.sets[si].lines[k].is_dirty
            &&& c2.sets[si].lines[k].is_valid
            &&& c2.sets[si].lines[k].tag == tag_of(c, address)
        }),
{
    lemma_set_index(c, address);
    let si = set_index(c, address);
    lemma_touch_wf(c.sets[si], tag_of(c, address), c.config.associativity as int, 2 * c.stats.num_access);
}

/// A miss that brings a line in reads it from below at its own address; when
/// the line it evicts is dirty, exactly one more access follows below: a
/// write at the evicted line's address. The cost is the latency plus what
/// those accesses charge.
pub proof fn lemma_fill_writes_back_victim(c: CacheView, address: u64, op: CacheOp)
    requires
        cache_wf(c),
        cache_room(c, 1),
        !resident(c, address),
        op == CacheOp::Read || c.config.write_allocate,
    ensures
        ({
            let s = c.sets[set_index(c, address)];
            let old_line = s.lines[victim(s.lines)];
            let (low1, r1) = access_level(c.lower, address, CacheOp::Read);
            let (c2, r) = access_cache(c, address, op);
            if old_line.is_dirty {
                let (low2, r2) = access_level(low1, old_line.address, CacheOp::Write);
                c2.lower == low2 && r == c.config.latency + r1 + r2
            } else {
                c2.lower == low1 && r == c.config.latency + r1
            }
        }),
{
    lemma_set_index(c, address);
    let si = set_index(c, address);
    lemma_touch_wf(c.sets[si], tag_of(c, address), c.config.associativity as int, 2 * c.stats.num_access);
    lemma_level_step(c.lower, address, CacheOp::Read, 2);
}

/// A miss in a set whose lines are all valid evicts the line visited least
/// recently: its stamp is below every other line's, the new tag takes its
/// place, and the other lines of the set stay as they were.
pub proof fn lemma_lru_replacement(c: CacheView, address: u64, op: CacheOp)
    requires
        cache_wf(c),
        cache_room(c, 1),
        !resident(c, address),
        op == CacheOp::Read || c.config.write_allocate,
        forall|j: int|
            0 <= j < c.config.associativity ==> (#[trigger] c.sets[set_index(c, address)].lines[j]).is_valid,
    ensures
        ({
            let si = set_index(c, address);
            let lines = c.sets[si].lines;
            let v = victim(lines);
            let c2 = access_cache(c, address, op).0;
            &&& 0 <= v < c.config.associativity
            &&& forall|j: int|
                0 <= j < c.config.associativity && j != v ==> lines[v].last_visit
                    < #[trigger] lines[j].last_visit
            &&& c2.sets[si].lines[v].tag == tag_of(c, address)
            &&& c2.sets[si].lines[v].is_valid
            &&& forall|j: int|
                0 <= j < c.config.associativity && j != v ==> #[trigger] c2.sets[si].lines[j]
                    == lines[j]
        }),
{
    lemma_set_index(c, address);
    let si = set_index(c, address);
    let ways = c.config.associativity as int;
    let n = c.stats.num_access;
    lemma_touch_wf(c.sets[si], tag_of(c, address), ways, 2 * n);
    let s1 = touch(c.sets[si], tag_of(c, address)).0;
    assert forall|j: int| 0 <= j < ways implies (#[trigger] s1.lines[j]).is_valid by {
        assert(c.sets[si].lines[j].is_valid);
    }
    lemma_lru_eviction(s1, tag_of(c, address), address, ways, 2 * n + 1);
}

/// A write miss that does not allocate installs nothing: the set's lines stay
/// as they were, the address is still not resident, and a read of it that
/// follows is a miss again.
pub proof fn lemma_write_bypass(c: CacheView, address: u64)
    requires
        cache_wf(c),
        cache_room(c, 1),
        !c.config.write_allocate,
        !resident(c, address),
    ensures
        ({
            let si = set_index(c, address);
            let c1 = access_cache(c, address, CacheOp::Write).0;
            &&& c1.sets[si].lines == c.sets[si].lines
            &&& !resident(c1, address)
            &&& access_cache(c1, address, CacheOp::Read).0.stats.num_miss == c1.stats.num_miss + 1
        }),
{
    lemma_set_index(c, address);
    let si = set_index(c, address);
    lemma_touch_wf(c.sets[si], tag_of(c, address), c.config.associativity as int, 2 * c.stats.num_access);
    lemma_cache_step(c, address, CacheOp::Write, 1);
    let c1 = access_cache(c, address, CacheOp::Write).0;
    assert(set_index(c1, address) == si);
    lemma_cold_miss(c1, address, CacheOp::Read);
}

/// Running a trace through a cache counts exactly one access per operation
/// at that cache, adds exactly the durations the accesses returned to its
/// time, and leaves it well formed; its aggregate counters are its own plus
/// those of every level below.
pub proof fn lemma_trace_accounting(c: CacheView, trace: Seq<(u64, CacheOp)>)
    requires
        cache_wf(c),
        cache_room(c, trace.len() as int),
    ensures
        ({
            let (c2, t) = run_trace(c, trace);
            &&& c2.stats.num_access == c.stats.num_access + trace.len()
            &&& c2.stats.time == c.stats.time + t
            &&& cache_wf(c2)
            &&& cache_total(c2) == add_stats(c2.stats, level_total(c2.lower))
        }),
    decreases trace.len(),
{
    if trace.len() > 0 {
        lemma_cache_step(c, trace[0].0, trace[0].1, trace.len() as int);
        let c1 = access_cache(c, trace[0].0, trace[0].1).0;
        lemma_trace_accounting(c1, trace.drop_first());
    }
}

/// Every cache level from depth `j` down (the top cache at depth 1) has a
/// latency that, times its depth, reaches `k`.
pub open spec fn weighted_latency(l: LevelView, j: int, k: int) -> bool {
    forall|i: int|
        0 <= i < level_configs(l).len() ==> (j + i) * (#[trigger] level_configs(l)[i]).latency >= k
}

/// The condition passes from a cache at depth `j` to the level below it.
proof fn lemma_weighted_lower(c: CacheView, j: int, k: int)
    requires
        weighted_latency(LevelView::Cache(Box::new(c)), j, k),
    ensures
        j * c.config.latency >= k,
        weighted_latency(c.lower, j + 1, k),
{
    let cs = level_configs(LevelView::Cache(Box::new(c)));
    assert(cs[0] == c.config);
    assert forall|i: int|
        0 <= i < level_configs(c.lower).len() implies (j + 1 + i) * (
        #[trigger] level_configs(c.lower)[i]).latency >= k by {
        assert(cs[i + 1] == level_configs(c.lower)[i]);
    }
}

/// The aggregate time a step added to a level and everything below it.
pub open spec fn added_time(l: LevelView, l2: LevelView) -> int {
    level_total(l2).time - level_total(l).time
}

/// The aggregate accesses a step added to a level and everything below it.
pub open spec fn added_accesses(l: LevelView, l2: LevelView) -> int {
    level_total(l2).num_access - level_total(l).num_access
}

/// The least extra time, beyond `k` per access, that one access to a level
/// at depth `j` adds to that level and the levels below it, with the cost it
/// returns counted `j - 1` more times: `j` times a cache's latency less `k`,
/// or `j - 1` times the backing store's latency.
pub open spec fn slack_floor(l: LevelView, j: int, k: int) -> int {
    match l {
        LevelView::Cache(c) => j * c.config.latency - k,
        LevelView::Dram(d) => (j - 1) * d.latency,
    }
}

/// Under the latency condition the slack floor is never negative.
proof fn lemma_floor_nonneg(l: LevelView, j: int, k: int)
    requires
        j >= 1,
        weighted_latency(l, j, k),
    ensures
        slack_floor(l, j, k) >= 0,
{
    match l {
        LevelView::Cache(c) => {
            assert(level_configs(l)[0] == c.config);
        },
        LevelView::Dram(d) => {
            assert((j - 1) * d.latency >= 0) by (nonlinear_arith)
                requires
                    j >= 1,
                    d.latency >= 0,
            ;
        },
    }
}

/// One access to a level at depth `j` under the latency condition adds at
/// least `k` per access plus the slack floor, once the returned cost is counted
/// `j - 1` more times (as the levels above count it).
proof fn lemma_weighted_level(l: LevelView, address: u64, op: CacheOp, j: int, k: int)
    requires
        level_wf(l),
        level_room(l, 1),
        j >= 1,
        weighted_latency(l, j, k),
    ensures
        added_time(l, access_level(l, address, op).0) + (j - 1) * access_level(l, address, op).1
            >= k * added_accesses(l, access_level(l, address, op).0) + slack_floor(l, j, k),
    decreases level_depth(l), 3nat,
{
    match l {
        LevelView::Cache(c) => {
            assert(LevelView::Cache(Box::new(*c)) == l);
            lemma_weighted_cache(*c, address, op, j, k);
            let (c2, r) = access_cache(*c, address, op);
            assert(access_level(l, address, op) == (LevelView::Cache(Box::new(c2)), r));
            assert(level_total(LevelView::Cache(Box::new(c2))) == cache_total(c2));
            assert(level_total(l) == cache_total(*c));
            assert(added_time(l, access_level(l, address, op).0) == cache_total(c2).time - cache_total(*c).time);
            assert(added_accesses(l, access_level(l, address, op).0) == cache_total(c2).num_access - cache_total(*c).num_access);
        },
        LevelView::Dram(d) => {
            assert((j - 1) * d.latency >= 0) by (nonlinear_arith)
                requires
                    j >= 1,
                    d.latency >= 0,
            ;
            assert(added_accesses(l, l) == 0);
            assert(k * 0 == 0);
        },
    }
}

/// The same for a cache, whose slack floor is `j` times its latency less `k`.
proof fn lemma_weighted_cache(c: CacheView, address: u64, op: CacheOp, j: int, k: int)
    requires
        cache_wf(c),
        cache_room(c, 1),
        j >= 1,
        weighted_latency(LevelView::Cache(Box::new(c)), j, k),
    ensures
        ({
            let (c2, r) = access_cache(c, address, op);
            cache_total(c2).time - cache_total(c).time + (j - 1) * r >= k * (cache_total(c2).num_access
                - cache_total(c).num_access) + (j * c.config.latency - k)
        }),
    decreases cache_depth(c), 2nat,
{
    let f = level_depth(c.lower);
    let (c1, r) = match op {
        CacheOp::Read => cache_read(c, address, f),
        CacheOp::Write => cache_write(c, address, f),
    };
    match op {
        CacheOp::Read => lemma_weighted_read(c, address, j, k),
        CacheOp::Write => lemma_weighted_write(c, address, j, k),
    }
    lemma_weighted_lower(c, j, k);
    let dt = added_time(c.lower, c1.lower);
    let dn = added_accesses(c.lower, c1.lower);
    let e = r - c.config.latency;
    assert(r + dt + (j - 1) * r >= k * (1 + dn) + (j * c.config.latency - k)) by (nonlinear_arith)
        requires
            dt + j * e >= k * dn,
            e == r - c.config.latency,
            j * c.config.latency >= k,
    ;
}

/// A read before it is counted: what it adds below, with its cost beyond the
/// latency counted `j` times, covers `k` per access added below, and the
/// slack floor of the next level when it went below.
proof fn lemma_weighted_read(c: CacheView, address: u64, j: int, k: int)
    requires
        cache_wf(c),
        cache_room(c, 1),
        j >= 1,
        weighted_latency(LevelView::Cache(Box::new(c)), j, k),
    ensures
        ({
            let (c1, r) = cache_read(c, address, level_depth(c.lower));
            &&& c1.stats.num_access == c.stats.num_access
            &&& c1.stats.time == c.stats.time
            &&& added_time(c.lower, c1.lower) + j * (r - c.config.latency) >= k * added_accesses(c.lower, c1.lower)
            &&& !resident(c, address) ==> added_time(c.lower, c1.lower) + j * (r - c.config.latency) >= k
                * added_accesses(c.lower, c1.lower) + slack_floor(c.lower, j + 1, k)
            &&& resident(c, address) ==> c1.lower == c.lower && r == c.config.latency
        }),
    decreases cache_depth(c), 1nat,
{
    let (s1, hit) = touch(c.sets[set_index(c, address)], tag_of(c, address));
    lemma_weighted_lower(c, j, k);
    lemma_floor_nonneg(c.lower, j + 1, k);
    if hit is None {
        lemma_weighted_fill(c, s1, address, j, k);
    } else {
        assert(added_time(c.lower, c.lower) == 0 && added_accesses(c.lower, c.lower) == 0);
        assert(j * 0 == 0 && k * 0 == 0);
    }
}

/// The same for a write, which goes below on a miss or when written through.
proof fn lemma_weighted_write(c: CacheView, address: u64, j: int, k: int)
    requires
        cache_wf(c),
        cache_room(c, 1),
        j >= 1,
        weighted_latency(LevelView::Cache(Box::new(c)), j, k),
    ensures
        ({
            let (c1, r) = cache_write(c, address, level_depth(c.lower));
            &&& c1.stats.num_access == c.stats.num_access
            &&& c1.stats.time == c.stats.time
            &&& added_time(c.lower, c1.lower) + j * (r - c.config.latency) >= k * added_accesses(c.lower, c1.lower)
            &&& !resident(c, address) || c.config.write_through ==> added_time(c.lower, c1.lower) + j * (r
                - c.config.latency) >= k * added_accesses(c.lower, c1.lower) + slack_floor(c.lower, j + 1, k)
            &&& resident(c, address) && !c.config.write_through ==> c1.lower == c.lower && r
                == c.config.latency
        }),
    decreases cache_depth(c), 1nat,
{
    let (s1, hit) = touch(c.sets[set_index(c, address)], tag_of(c, address));
    lemma_weighted_lower(c, j, k);
    lemma_floor_nonneg(c.lower, j + 1, k);
    lemma_room_mono(c.lower, 2, 1);
    if (hit is Some && c.config.write_through) || (hit is None && !c.config.write_allocate) {
        lemma_weighted_level(c.lower, address, CacheOp::Write, j + 1, k);
    } else if hit is None {
        lemma_weighted_fill(c, s1, address, j, k);
    } else {
        assert(added_time(c.lower, c.lower) == 0 && added_accesses(c.lower, c.lower) == 0);
        assert(j * 0 == 0 && k * 0 == 0);
    }
}

/// The same for a fill, which always goes below.
proof fn lemma_weighted_fill(c: CacheView, s1: SetView, address: u64, j: int, k: int)
    requires
        cache_wf(c),
        cache_room(c, 1),
        j >= 1,
        weighted_latency(LevelView::Cache(Box::new(c)), j, k),
    ensures
        ({
            let (c1, r) = crate::model::fill(c, s1, address, level_depth(c.lower));
            &&& c1.stats.num_access == c.stats.num_access
            &&& c1.stats.time == c.stats.time
            &&& added_time(c.lower, c1.lower) + j * (r - c.config.latency) >= k * added_accesses(c.lower, c1.lower)
                + slack_floor(c.lower, j + 1, k)
        }),
    decreases cache_depth(c), 0nat,
{
    let f = level_depth(c.lower);
    lemma_weighted_lower(c, j, k);
    lemma_room_mono(c.lower, 2, 1);
    lemma_level_step(c.lower, address, CacheOp::Read, 2);
    lemma_weighted_level(c.lower, address, CacheOp::Read, j + 1, k);
    lemma_floor_nonneg(c.lower, j + 1, k);
    let (low1, r1) = level_step(c.lower, address, CacheOp::Read, f);
    let (s2, evicted) = install(s1, tag_of(c, address), address);
    if let Some(a) = evicted {
        lemma_weighted_level(low1, a, CacheOp::Write, j + 1, k);
        lemma_floor_nonneg(low1, j + 1, k);
        let (low2, r2) = level_step(low1, a, CacheOp::Write, f);
        let fl = slack_floor(c.lower, j + 1, k);
        assert(added_time(c.lower, low2) + j * (r1 + r2) >= k * added_accesses(c.lower, low2) + fl) by (nonlinear_arith)
            requires
                added_time(c.lower, low1) + j * r1 >= k * added_accesses(c.lower, low1) + fl,
                added_time(low1, low2) + j * r2 >= k * added_accesses(low1, low2),
                added_time(c.lower, low2) == added_time(c.lower, low1) + added_time(low1, low2),
                added_accesses(c.lower, low2) == added_accesses(c.lower, low1) + added_accesses(low1, low2),
        ;
    }
}

/// The average access time never falls below the top latency: when every
/// cache at depth `j` (the top at depth 1) has `j` times its latency at least
/// the top's latency, a trace keeps the aggregate time at or above the top
/// latency times the aggregate number of accesses. Counters at zero, as built,
/// start out that way.
pub proof fn lemma_amat_at_least_latency(c: CacheView, trace: Seq<(u64, CacheOp)>)
    requires
        cache_wf(c),
        cache_room(c, trace.len() as int),
        weighted_latency(LevelView::Cache(Box::new(c)), 1, c.config.latency as int),
        cache_total(c).time >= c.config.latency * cache_total(c).num_access,
    ensures
        ({
            let c2 = run_trace(c, trace).0;
            cache_total(c2).time >= c.config.latency * cache_total(c2).num_access
        }),
    decreases trace.len(),
{
    if trace.len() > 0 {
        let (address, op) = trace[0];
        let lat = c.config.latency as int;
        lemma_cache_step(c, address, op, trace.len() as int);
        crate::model::lemma_cache_room_mono(c, trace.len() as int, 1);
        lemma_weighted_cache(c, address, op, 1, lat);
        let (c1, r) = access_cache(c, address, op);
        assert(level_configs(LevelView::Cache(Box::new(c1))) == level_configs(LevelView::Cache(Box::new(c))));
        let t0 = cache_total(c).time;
        let n0 = cache_total(c).num_access;
        let t1 = cache_total(c1).time;
        let n1 = cache_total(c1).num_access;
        assert(t1 >= lat * n1) by (nonlinear_arith)
            requires
                t0 >= lat * n0,
                t1 - t0 + 0 * r >= lat * (n1 - n0),
        ;
        lemma_amat_at_least_latency(c1, trace.drop_first());
    }
}

/// The aggregate time a cache and its lower levels gained between two states,
/// beyond the cache's latency for each access they gained.
pub open spec fn excess(c: CacheView, c2: CacheView) -> int {
    (cache_total(c2).time - cache_total(c).time) - c.config.latency * (cache_total(c2).num_access
        - cache_total(c).num_access)
}

/// Two levels with the same shape, configurations and bound have the same
/// slack floor.
proof fn lemma_floor_kept(l: LevelView, l2: LevelView, j: int, k: int)
    requires
        level_depth(l2) == level_depth(l),
        level_configs(l2) == level_configs(l),
        level_max_cost(l2) == level_max_cost(l),
    ensures
        slack_floor(l2, j, k) == slack_floor(l, j, k),
{
    match (l, l2) {
        (LevelView::Cache(c), LevelView::Cache(c2)) => {
            assert(level_configs(l)[0] == c.config);
            assert(level_configs(l2)[0] == c2.config);
        },
        (LevelView::Dram(_), LevelView::Dram(_)) => {},
        (LevelView::Cache(c), LevelView::Dram(_)) => {
            assert(cache_depth(*c) >= 1);
        },
        (LevelView::Dram(_), LevelView::Cache(c2)) => {
            assert(cache_depth(*c2) >= 1);
        },
    }
}

/// One access to a write-back cache whose levels meet the latency condition
/// and whose next level is strictly slower in its sense: a hit adds exactly
/// the latency per access added, a miss adds more, and only a miss counts one.
proof fn lemma_excess_step(c: CacheView, address: u64, op: CacheOp)
    requires
        cache_wf(c),
        cache_room(c, 1),
        weighted_latency(LevelView::Cache(Box::new(c)), 1, c.config.latency as int),
        !c.config.write_through,
        slack_floor(c.lower, 2, c.config.latency as int) > 0,
    ensures
        ({
            let c2 = access_cache(c, address, op).0;
            &&& resident(c, address) ==> excess(c, c2) == 0 && c2.stats.num_miss == c.stats.num_miss
            &&& !resident(c, address) ==> excess(c, c2) > 0 && c2.stats.num_miss == c.stats.num_miss + 1
        }),
{
    let lat = c.config.latency as int;
    let f = level_depth(c.lower);
    let (c1, r) = match op {
        CacheOp::Read => cache_read(c, address, f),
        CacheOp::Write => cache_write(c, address, f),
    };
    match op {
        CacheOp::Read => lemma_weighted_read(c, address, 1, lat),
        CacheOp::Write => lemma_weighted_write(c, address, 1, lat),
    }
    lemma_set_index(c, address);
    lemma_touch_wf(c.sets[set_index(c, address)], tag_of(c, address), c.config.associativity as int, 2 * c.stats.num_access);
    let c2 = access_cache(c, address, op).0;
    let dt = added_time(c.lower, c1.lower);
    let dn = added_accesses(c.lower, c1.lower);
    assert(excess(c, c2) == (r - lat) + dt - lat * dn) by (nonlinear_arith)
        requires
            excess(c, c2) == (r + dt) - lat * (1 + dn),
    ;
    if resident(c, address) {
        assert(dt == 0 && dn == 0);
        assert(lat * 0 == 0);
    } else {
        lemma_cold_miss(c, address, op);
        assert(dt + 1 * (r - lat) >= lat * dn + slack_floor(c.lower, 2, lat));
    }
}

/// The average access time equals the top latency exactly when the top
/// level never misses: for a write-back top cache whose levels meet the
/// latency condition and whose next level is strictly slower in its sense,
/// running a trace adds no time beyond the latency per added access if and
/// only if the trace adds no miss at the top. From counters at zero, as
/// built, this is `time == latency * num_access` exactly when `num_miss == 0`.
pub proof fn lemma_amat_equals_latency_iff_no_miss(c: CacheView, trace: Seq<(u64, CacheOp)>)
    requires
        cache_wf(c),
        cache_room(c, trace.len() as int),
        weighted_latency(LevelView::Cache(Box::new(c)), 1, c.config.latency as int),
        !c.config.write_through,
        slack_floor(c.lower, 2, c.config.latency as int) > 0,
    ensures
        ({
            let c2 = run_trace(c, trace).0;
            &&& excess(c, c2) >= 0
            &&& c2.stats.num_miss >= c.stats.num_miss
            &&& (excess(c, c2) == 0 <==> c2.stats.num_miss == c.stats.num_miss)
        }),
    decreases trace.len(),
{
    let lat = c.config.latency as int;
    if trace.len() == 0 {
        assert(lat * 0 == 0);
    } else {
        let (address, op) = trace[0];
        lemma_cache_step(c, address, op, trace.len() as int);
        crate::model::lemma_cache_room_mono(c, trace.len() as int, 1);
        lemma_excess_step(c, address, op);
        let c1 = access_cache(c, address, op).0;
        assert(level_configs(LevelView::Cache(Box::new(c1))) == level_configs(LevelView::Cache(Box::new(c))));
        assert(level_configs(c1.lower) =~= cache_configs(c1).drop_first());
        assert(level_configs(c.lower) =~= cache_configs(c).drop_first());
        lemma_floor_kept(c.lower, c1.lower, 2, lat);
        lemma_amat_equals_latency_iff_no_miss(c1, trace.drop_first());
        let c2 = run_trace(c1, trace.drop_first()).0;
        assert(excess(c, c2) == excess(c, c1) + excess(c1, c2)) by (nonlinear_arith)
            requires
                c1.config.latency == c.config.latency,
                excess(c, c1) == (cache_total(c1).time - cache_total(c).time) - lat * (cache_total(c1).num_access
                    - cache_total(c).num_access),
                excess(c1, c2) == (cache_total(c2).time - cache_total(c1).time) - lat * (cache_total(c2).num_access
                    - cache_total(c1).num_access),
                excess(c, c2) == (cache_total(c2).time - cache_total(c).time) - lat * (cache_total(c2).num_access
                    - cache_total(c).num_access),
        ;
    }
}

} // verus!
