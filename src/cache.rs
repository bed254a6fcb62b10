//! Set-associative caches with LRU replacement, stacked over a fixed-latency
//! backing store.
use vstd::prelude::*;
use crate::lines::{CacheLines, SetView, empty_line, lemma_touch_wf};
use crate::model::{run_trace, cache_max_cost, CacheView, DramView, LevelView, access_cache, access_level, cache_depth, cache_room, cache_total, cache_wf, level_depth, level_room, level_total, level_wf, lemma_cache_step, lemma_level_step, lemma_room_mono, lemma_set_index, lemma_read, lemma_write, lemma_fill, set_index, tag_of, cache_read, cache_write, fill, with_sets};

verus! {

/// Cycles charged for one access.
pub type Duration = u64;

/// The kind of a memory access.
#[derive(Clone, Copy, Debug, PartialEq, Eq, Structural)]
pub enum CacheOp {
    Read,
    Write,
}

/// Running counters of a storage level.
#[derive(Clone, Copy, Debug)]
pub struct StorageStats {
    pub num_access: u64,
    pub num_miss: u64,
    pub time: Duration,
}

/// The counters of a storage level as mathematical integers.
pub struct StatsView {
    pub num_access: int,
    pub num_miss: int,
    pub time: int,
}

impl View for StorageStats {
    type V = StatsView;

    open spec fn view(&self) -> StatsView {
        StatsView {
            num_access: self.num_access as int,
            num_miss: self.num_miss as int,
            time: self.time as int,
        }
    }
}

/// All counters at zero.
pub open spec fn zero_stats() -> StatsView {
    StatsView { num_access: 0, num_miss: 0, time: 0 }
}

/// The field-wise sum of two sets of counters.
pub open spec fn add_stats(a: StatsView, b: StatsView) -> StatsView {
    StatsView {
        num_access: a.num_access + b.num_access,
        num_miss: a.num_miss + b.num_miss,
        time: a.time + b.time,
    }
}

impl Default for StorageStats {
    fn default() -> (r: StorageStats)
        ensures
            r@ == zero_stats(),
    {
        StorageStats { num_access: 0, num_miss: 0, time: 0 }
    }
}

/// The fixed parameters of one cache level.
#[derive(Clone, Copy, Debug)]
pub struct CacheConfig {
    pub name: &'static str,
    pub write_through: bool,
    pub write_allocate: bool,
    pub capacity: u64,
    pub associativity: u64,
    pub line_size: u64,
    pub latency: Duration,
}

impl CacheConfig {
    /// The number of lines the cache holds.
    pub open spec fn num_lines(&self) -> int {
        self.capacity as int / self.line_size as int
    }

    /// The number of sets, each of `associativity` lines.
    pub open spec fn num_sets(&self) -> int {
        self.num_lines() / self.associativity as int
    }

    /// The line size divides the capacity, the associativity divides the
    /// number of lines, and there is at least one set.
    pub open spec fn valid(&self) -> bool {
        &&& self.line_size > 0
        &&& self.associativity > 0
        &&& self.capacity % self.line_size == 0
        &&& self.num_lines() % self.associativity as int == 0
        &&& self.num_sets() >= 1
    }

    /// The bits of an address that select its set, before dividing by the
    /// line size.
    pub open spec fn line_mask(&self) -> u64 {
        ((self.num_sets() - 1) * self.line_size) as u64
    }

    /// The bits of an address kept as its tag.
    pub open spec fn tag_mask(&self) -> u64 {
        !((self.capacity / self.associativity - 1) as u64)
    }

    /// Tells whether the configuration can be built into a cache.
    pub fn is_valid(&self) -> (r: bool)
        ensures
            r == self.valid(),
    {
        if self.line_size == 0 || self.associativity == 0 {
            return false;
        }
        let num_lines = self.capacity / self.line_size;
        self.capacity % self.line_size == 0 && num_lines % self.associativity == 0
            && num_lines / self.associativity >= 1
    }
}

/// Every counter fits in a `u64`.
pub open spec fn fits(s: StatsView) -> bool {
    &&& 0 <= s.num_access <= u64::MAX
    &&& 0 <= s.num_miss <= u64::MAX
    &&& 0 <= s.time <= u64::MAX
}

/// A set whose lines all hold nothing.
pub open spec fn fresh_set(ways: int) -> SetView {
    SetView { clock: 0, lines: Seq::new(ways as nat, |j: int| empty_line()) }
}

/// A cache as built: no counts, the masks of its configuration, and empty sets.
pub open spec fn fresh_cache(config: CacheConfig, lower: LevelView) -> CacheView {
    CacheView {
        config,
        stats: zero_stats(),
        line_mask: config.line_mask(),
        tag_mask: config.tag_mask(),
        sets: Seq::new(config.num_sets() as nat, |i: int| fresh_set(config.associativity as int)),
        lower,
    }
}

/// The backing store: fixed latency, always a hit, counters that stay zero.
#[derive(Clone, Copy, Debug)]
pub struct Dram {
    latency: Duration,
    stats: StorageStats,
}

impl View for Dram {
    type V = DramView;

    closed spec fn view(&self) -> DramView {
        DramView { latency: self.latency, stats: self.stats@ }
    }
}

impl Dram {
    pub fn new(latency: Duration) -> (r: Dram)
        ensures
            r@ == (DramView { latency, stats: zero_stats() }),
    {
        Dram { latency, stats: StorageStats::default() }
    }

    /// Every access costs the latency; nothing changes.
    pub fn access(&mut self, address: u64, op: CacheOp) -> (r: Duration)
        ensures
            *final(self) == *old(self),
            r == old(self)@.latency,
    {
        self.latency
    }

    pub fn stats(&self) -> (r: StorageStats)
        ensures
            r@ == self@.stats,
    {
        self.stats
    }
}

/// One cache level, owning the levels below it.
pub struct Cache {
    stats: StorageStats,
    config: CacheConfig,
    lower: Level,
    line_mask: u64,
    tag_mask: u64,
    lines: Vec<CacheLines>,
}

/// A storage level: a cache, or the backing store at the bottom.
pub enum Level {
    Cache(Box<Cache>),
    Dram(Dram),
}

/// The views of a sequence of sets.
spec fn set_views(v: Seq<CacheLines>) -> Seq<SetView> {
    Seq::new(v.len(), |i: int| v[i]@)
}

impl Cache {
    pub closed spec fn model(&self) -> CacheView
        decreases self,
    {
        CacheView {
            config: self.config,
            stats: self.stats@,
            line_mask: self.line_mask,
            tag_mask: self.tag_mask,
            sets: set_views(self.lines@),
            lower: self.lower.model(),
        }
    }
}

impl Level {
    pub open spec fn model(&self) -> LevelView
        decreases self,
    {
        match self {
            Level::Cache(c) => LevelView::Cache(Box::new(c.model())),
            Level::Dram(d) => LevelView::Dram(d@),
        }
    }
}

impl View for Cache {
    type V = CacheView;

    open spec fn view(&self) -> CacheView {
        self.model()
    }
}

impl View for Level {
    type V = LevelView;

    open spec fn view(&self) -> LevelView {
        self.model()
    }
}

impl Cache {
    /// Builds an empty cache over `lower`.
    pub fn new(config: CacheConfig, lower: Level) -> (r: Cache)
        requires
            config.valid(),
            level_wf(lower@),
        ensures
            r@ == fresh_cache(config, lower@),
            cache_wf(r@),
    {
        proof {
            lemma_mask_bounds(config);
        }
        let num_lines = config.capacity / config.line_size;
        let num_sets = num_lines / config.associativity;
        let mut lines: Vec<CacheLines> = Vec::new();
        let mut i: u64 = 0;
        while i < num_sets
            invariant
                i <= num_sets,
                num_sets == config.num_sets(),
                lines@.len() == i,
                forall|j: int| 0 <= j < i ==> #[trigger] lines@[j]@ == fresh_set(config.associativity as int),
            decreases num_sets - i,
        {
            let set = CacheLines::new(config.associativity);
            proof {
                assert(set@.lines =~= fresh_set(config.associativity as int).lines);
            }
            lines.push(set);
            i += 1;
        }
        let r = Cache {
            stats: StorageStats::default(),
            config,
            lower,
            line_mask: (num_sets - 1) * config.line_size,
            tag_mask: !(config.capacity / config.associativity - 1),
            lines,
        };
        proof {
            let fresh = fresh_cache(config, lower@);
            assert(r@.sets =~= fresh.sets);
            assert forall|j: int| 0 <= j < r@.sets.len() implies crate::lines::set_wf(
                #[trigger] r@.sets[j],
                config.associativity as int,
                0,
            ) by {
                assert(r@.sets[j] == fresh_set(config.associativity as int));
            }
        }
        r
    }

    /// The index of the set that `address` maps to.
    fn set_of(&self, address: u64) -> (r: usize)
        requires
            cache_wf(self@),
        ensures
            r as int == set_index(self@, address),
            r < self@.sets.len(),
    {
        proof {
            lemma_set_index(self@, address);
        }
        let n = self.lines.len();
        let i = (address & self.line_mask) / self.config.line_size;
        assert(i < n);
        i as usize
    }

    /// A miss that brings the line in, after the lookup left the set as `s1`.
    fn fill(&mut self, address: u64, si: usize, tag: u64, Ghost(c): Ghost<CacheView>) -> (r: Duration)
        requires
            cache_wf(c),
            cache_room(c, 1),
            si as int == set_index(c, address),
            tag == tag_of(c, address),
            touch_of(c, address).1 is None,
            old(self)@ == with_sets(c, si as int, touch_of(c, address).0, c.lower, false),
        ensures
            (final(self)@, r as int) == fill(c, touch_of(c, address).0, address, level_depth(c.lower)),
        decreases cache_depth(c), 0nat,
    {
        let ghost s1 = touch_of(c, address).0;
        proof {
            lemma_set_index(c, address);
            lemma_touch_wf(c.sets[si as int], tag, c.config.associativity as int, 2 * c.stats.num_access);
            lemma_fill(c, s1, address, 1);
            lemma_room_mono(c.lower, 2, 1);
            lemma_level_step(c.lower, address, CacheOp::Read, 2);
            assert(self@.sets[si as int] == s1);
            assert(self@.sets.len() == c.sets.len());
            assert(self.lines@[si as int]@ == s1);
        }
        self.stats.num_miss = self.stats.num_miss + 1;
        let r1 = self.lower.access(address, CacheOp::Read);
        let ghost lines1 = self.lines@;
        let evicted = self.lines[si].insert(tag, address);
        proof {
            let s2 = crate::lines::install(s1, tag, address).0;
            assert(self.lines@[si as int]@ == s2);
            assert(self.lines@ == lines1.update(si as int, self.lines@[si as int]));
            assert(set_views(lines1) == c.sets.update(si as int, s1));
            assert(set_views(self.lines@) =~= set_views(lines1).update(si as int, s2));
            assert(self@.sets == set_views(self.lines@));
            assert(self@.sets =~= c.sets.update(si as int, s2));
        }
        let r2 = match evicted {
            Some(a) => self.lower.access(a, CacheOp::Write),
            None => 0,
        };
        proof {
            assert(self@.sets =~= fill(c, s1, address, level_depth(c.lower)).0.sets);
        }
        self.config.latency + r1 + r2
    }

    fn read(&mut self, address: u64) -> (r: Duration)
        requires
            cache_wf(old(self)@),
            cache_room(old(self)@, 1),
        ensures
            (final(self)@, r as int) == cache_read(old(self)@, address, level_depth(old(self)@.lower)),
        decreases cache_depth(old(self)@), 1nat,
    {
        let ghost c = self@;
        proof {
            lemma_set_index(c, address);
            lemma_touch_wf(c.sets[set_index(c, address)], tag_of(c, address), c.config.associativity as int, 2 * c.stats.num_access);
            lemma_read(c, address, 1);
        }
        let si = self.set_of(address);
        let tag = address & self.tag_mask;
        proof {
            assert(self.lines@[si as int]@ == c.sets[si as int]);
        }
        let hit = self.lines[si].find(tag);
        proof {
            assert(self@.sets =~= c.sets.update(si as int, touch_of(c, address).0));
        }
        match hit {
            Some(_) => self.config.latency,
            None => self.fill(address, si, tag, Ghost(c)),
        }
    }

    fn write(&mut self, address: u64) -> (r: Duration)
        requires
            cache_wf(old(self)@),
            cache_room(old(self)@, 1),
        ensures
            (final(self)@, r as int) == cache_write(old(self)@, address, level_depth(old(self)@.lower)),
        decreases cache_depth(old(self)@), 1nat,
    {
        let ghost c = self@;
        proof {
            lemma_set_index(c, address);
            lemma_touch_wf(c.sets[set_index(c, address)], tag_of(c, address), c.config.associativity as int, 2 * c.stats.num_access);
            lemma_write(c, address, 1);
            lemma_room_mono(c.lower, 2, 1);
        }
        let si = self.set_of(address);
        let tag = address & self.tag_mask;
        proof {
            assert(self.lines@[si as int]@ == c.sets[si as int]);
        }
        let hit = self.lines[si].find(tag);
        proof {
            assert(self@.sets =~= c.sets.update(si as int, touch_of(c, address).0));
        }
        match hit {
            Some(i) => {
                if self.config.write_through {
                    let r1 = self.lower.access(address, CacheOp::Write);
                    self.config.latency + r1
                } else {
                    self.lines[si].mark_dirty(i);
                    proof {
                        assert(self@.sets =~= cache_write(c, address, level_depth(c.lower)).0.sets);
                    }
                    self.config.latency
                }
            },
            None => {
                if self.config.write_allocate {
                    self.fill(address, si, tag, Ghost(c))
                } else {
                    self.stats.num_miss = self.stats.num_miss + 1;
                    let r1 = self.lower.access(address, CacheOp::Write);
                    self.config.latency + r1
                }
            },
        }
    }

    /// Reads or writes `address`, charging this level's latency and whatever
    /// the levels below charge; the access and its cost are counted.
    pub fn access(&mut self, address: u64, op: CacheOp) -> (r: Duration)
        requires
            cache_wf(old(self)@),
            cache_room(old(self)@, 1),
        ensures
            (final(self)@, r as int) == access_cache(old(self)@, address, op),
            cache_wf(final(self)@),
            forall|k: int| 1 <= k && #[trigger] cache_room(old(self)@, k) ==> cache_room(final(self)@, k - 1),
        decreases cache_depth(old(self)@), 2nat,
    {
        let ghost c0 = self@;
        proof {
            lemma_cache_step(self@, address, op, 1);
            assert forall|k: int| 1 <= k && #[trigger] cache_room(c0, k) implies cache_room(
                access_cache(c0, address, op).0,
                k - 1,
            ) by {
                lemma_cache_step(c0, address, op, k);
            }
        }
        let result = match op {
            CacheOp::Read => self.read(address),
            CacheOp::Write => self.write(address),
        };
        self.stats.num_access = self.stats.num_access + 1;
        self.stats.time = self.stats.time + result;
        result
    }

    /// The counters of this level summed with those of every level below.
    pub fn stats(&self) -> (r: StorageStats)
        requires
            cache_wf(self@),
            fits(cache_total(self@)),
        ensures
            r@ == cache_total(self@),
        decreases cache_depth(self@), 0nat,
    {
        proof {
            lemma_total_nonneg(self@.lower);
        }
        let low = self.lower.stats();
        StorageStats {
            num_access: low.num_access + self.stats.num_access,
            num_miss: low.num_miss + self.stats.num_miss,
            time: low.time + self.stats.time,
        }
    }

    /// Runs the accesses of `trace` in order; returns the sum of their
    /// durations.
    pub fn run(&mut self, trace: &Vec<(u64, CacheOp)>) -> (r: u64)
        requires
            cache_wf(old(self)@),
            cache_room(old(self)@, trace@.len() as int),
        ensures
            (final(self)@, r as int) == run_trace(old(self)@, trace@),
            cache_wf(final(self)@),
    {
        let n = trace.len();
        let mut total: u64 = 0;
        let mut i: usize = 0;
        proof {
            assert(trace@.skip(0) =~= trace@);
        }
        while i < n
            invariant
                i <= n,
                n == trace@.len(),
                cache_wf(self@),
                cache_room(self@, (n - i) as int),
                self@.stats.time == old(self)@.stats.time + total,
                run_trace(old(self)@, trace@) == (
                    run_trace(self@, trace@.skip(i as int)).0,
                    total + run_trace(self@, trace@.skip(i as int)).1,
                ),
            decreases n - i,
        {
            let (address, op) = trace[i];
            proof {
                lemma_cache_step(self@, address, op, (n - i) as int);
                crate::model::lemma_cache_room_mono(self@, (n - i) as int, 1);
                assert(trace@.skip(i as int).drop_first() =~= trace@.skip(i + 1));
                assert(trace@.skip(i as int)[0] == trace@[i as int]);
            }
            let d = self.access(address, op);
            total = total + d;
            i += 1;
        }
        proof {
            assert(trace@.skip(n as int) =~= Seq::<(u64, CacheOp)>::empty());
        }
        total
    }

    /// The aggregate counters, or nothing when one of them would pass
    /// `u64::MAX`.
    pub fn checked_stats(&self) -> (r: Option<StorageStats>)
        requires
            cache_wf(self@),
        ensures
            r is Some <==> fits(cache_total(self@)),
            r matches Some(s) ==> s@ == cache_total(self@),
        decreases cache_depth(self@), 0nat,
    {
        proof {
            lemma_total_nonneg(self@.lower);
        }
        match self.lower.checked_stats() {
            None => None,
            Some(low) => {
                let a = low.num_access.checked_add(self.stats.num_access);
                let m = low.num_miss.checked_add(self.stats.num_miss);
                let t = low.time.checked_add(self.stats.time);
                match (a, m, t) {
                    (Some(a), Some(m), Some(t)) => Some(StorageStats { num_access: a, num_miss: m, time: t }),
                    _ => None,
                }
            },
        }
    }

    /// The mask that selects an address's set bits.
    pub fn line_mask(&self) -> (r: u64)
        ensures
            r == self@.line_mask,
    {
        self.line_mask
    }

    /// The mask that selects an address's tag bits.
    pub fn tag_mask(&self) -> (r: u64)
        ensures
            r == self@.tag_mask,
    {
        self.tag_mask
    }

    pub fn config(&self) -> (r: CacheConfig)
        ensures
            r == self@.config,
    {
        self.config
    }

    /// The counters of this level alone.
    pub fn own_stats(&self) -> (r: StorageStats)
        ensures
            r@ == self@.stats,
    {
        self.stats
    }

    /// The level below this one.
    pub fn lower(&self) -> (r: &Level)
        ensures
            r@ == self@.lower,
    {
        &self.lower
    }

    /// Tells whether one more access fits every counter below `u64::MAX`.
    pub fn has_room(&self) -> (r: bool)
        ensures
            r == cache_room(self@, 1),
    {
        self.room_for(1)
    }

    /// Tells whether `k` more accesses fit every counter below `u64::MAX`.
    pub fn room_for(&self, k: u64) -> (r: bool)
        ensures
            r == cache_room(self@, k as int),
        decreases cache_depth(self@), 1nat,
    {
        let n = self.stats.num_access;
        let t = self.stats.time;
        if n > u64::MAX / 2 || k > u64::MAX / 2 - n {
            return false;
        }
        let fits_time = if k == 0 {
            true
        } else {
            match self.max_cost() {
                None => {
                    proof {
                        assert(k * cache_max_cost(self@) >= cache_max_cost(self@)) by (nonlinear_arith)
                            requires
                                k >= 1,
                                cache_max_cost(self@) >= 0,
                        ;
                    }
                    false
                },
                Some(m) => match m.checked_mul(k) {
                    None => {
                        proof {
                            assert(k * cache_max_cost(self@) == m * k) by (nonlinear_arith)
                                requires
                                    m == cache_max_cost(self@),
                            ;
                        }
                        false
                    },
                    Some(km) => {
                        proof {
                            assert(k * cache_max_cost(self@) == m * k) by (nonlinear_arith)
                                requires
                                    m == cache_max_cost(self@),
                            ;
                        }
                        km <= u64::MAX - t
                    },
                },
            }
        };
        fits_time && self.lower.room_for(2 * k)
    }

    /// The most one access can cost, when it fits in a `u64`.
    fn max_cost(&self) -> (r: Option<u64>)
        ensures
            r matches Some(m) ==> m == cache_max_cost(self@),
            r is None ==> cache_max_cost(self@) > u64::MAX,
            cache_max_cost(self@) >= 0,
        decreases cache_depth(self@), 1nat,
    {
        proof {
            crate::model::lemma_max_cost_nonneg(self@.lower);
        }
        match self.lower.max_cost() {
            None => None,
            Some(m) => match m.checked_mul(2) {
                None => None,
                Some(m2) => self.config.latency.checked_add(m2),
            },
        }
    }
}

impl Level {
    /// One access to this level.
    pub fn access(&mut self, address: u64, op: CacheOp) -> (r: Duration)
        requires
            level_wf(old(self)@),
            level_room(old(self)@, 1),
        ensures
            (final(self)@, r as int) == access_level(old(self)@, address, op),
            level_wf(final(self)@),
            forall|k: int| 1 <= k && #[trigger] level_room(old(self)@, k) ==> level_room(final(self)@, k - 1),
        decreases level_depth(old(self)@), 3nat,
    {
        let ghost l0 = self@;
        proof {
            lemma_level_step(self@, address, op, 1);
            assert forall|k: int| 1 <= k && #[trigger] level_room(l0, k) implies level_room(
                access_level(l0, address, op).0,
                k - 1,
            ) by {
                lemma_level_step(l0, address, op, k);
            }
        }
        match self {
            Level::Cache(c) => c.access(address, op),
            Level::Dram(d) => d.access(address, op),
        }
    }

    /// The counters of this level summed with those of every level below.
    pub fn stats(&self) -> (r: StorageStats)
        requires
            level_wf(self@),
            fits(level_total(self@)),
        ensures
            r@ == level_total(self@),
        decreases level_depth(self@), 1nat,
    {
        match self {
            Level::Cache(c) => c.stats(),
            Level::Dram(d) => d.stats(),
        }
    }

    fn room_for(&self, k: u64) -> (r: bool)
        ensures
            r == level_room(self@, k as int),
        decreases level_depth(self@), 2nat,
    {
        match self {
            Level::Cache(c) => c.room_for(k),
            Level::Dram(_) => true,
        }
    }

    fn max_cost(&self) -> (r: Option<u64>)
        ensures
            r matches Some(m) ==> m == crate::model::level_max_cost(self@),
            r is None ==> crate::model::level_max_cost(self@) > u64::MAX,
        decreases level_depth(self@), 2nat,
    {
        match self {
            Level::Cache(c) => c.max_cost(),
            Level::Dram(d) => Some(d.latency),
        }
    }

    /// The aggregate counters, or nothing when one of them would pass
    /// `u64::MAX`.
    pub fn checked_stats(&self) -> (r: Option<StorageStats>)
        requires
            level_wf(self@),
        ensures
            r is Some <==> fits(level_total(self@)),
            r matches Some(s) ==> s@ == level_total(self@),
        decreases level_depth(self@), 1nat,
    {
        match self {
            Level::Cache(c) => c.checked_stats(),
            Level::Dram(d) => Some(d.stats()),
        }
    }

    /// Tells whether one more access fits every counter below `u64::MAX`.
    pub fn has_room(&self) -> (r: bool)
        ensures
            r == level_room(self@, 1),
    {
        self.room_for(1)
    }
}

/// The uniform interface of every storage level.
pub trait Storage {
    /// The state of this storage and every level below it.
    spec fn level(&self) -> LevelView;

    /// One access, charged with what it costs.
    fn access(&mut self, address: u64, op: CacheOp) -> (r: Duration)
        requires
            level_wf(old(self).level()),
            level_room(old(self).level(), 1),
        ensures
            (final(self).level(), r as int) == access_level(old(self).level(), address, op),
            level_wf(final(self).level()),
    ;

    /// The counters of this level summed with those of every level below.
    fn stats(&self) -> (r: StorageStats)
        requires
            level_wf(self.level()),
            fits(level_total(self.level())),
        ensures
            r@ == level_total(self.level()),
    ;
}

impl Storage for Cache {
    open spec fn level(&self) -> LevelView {
        LevelView::Cache(Box::new(self@))
    }

    fn access(&mut self, address: u64, op: CacheOp) -> (r: Duration) {
        Cache::access(self, address, op)
    }

    fn stats(&self) -> (r: StorageStats) {
        Cache::stats(self)
    }
}

impl Storage for Dram {
    open spec fn level(&self) -> LevelView {
        LevelView::Dram(self@)
    }

    fn access(&mut self, address: u64, op: CacheOp) -> (r: Duration) {
        Dram::access(self, address, op)
    }

    fn stats(&self) -> (r: StorageStats) {
        Dram::stats(self)
    }
}

impl Storage for Level {
    open spec fn level(&self) -> LevelView {
        self@
    }

    fn access(&mut self, address: u64, op: CacheOp) -> (r: Duration) {
        Level::access(self, address, op)
    }

    fn stats(&self) -> (r: StorageStats) {
        Level::stats(self)
    }
}

/// The hierarchy built from `configs`, nearest level first, over a backing
/// store of the given latency.
pub open spec fn fresh_hierarchy(configs: Seq<CacheConfig>, latency: u64) -> LevelView
    decreases configs.len(),
{
    if configs.len() == 0 {
        LevelView::Dram(DramView { latency, stats: zero_stats() })
    } else {
        LevelView::Cache(
            Box::new(fresh_cache(configs[0], fresh_hierarchy(configs.drop_first(), latency))),
        )
    }
}

/// Builds the hierarchy described by `configs`, nearest level first, over a
/// backing store of latency `memory_latency`; nothing is built when a
/// configuration is invalid.
pub fn build(configs: &Vec<CacheConfig>, memory_latency: Duration) -> (r: Option<Level>)
    ensures
        r is None <==> exists|i: int| 0 <= i < configs@.len() && !(#[trigger] configs@[i]).valid(),
        r matches Some(l) ==> l@ == fresh_hierarchy(configs@, memory_latency) && level_wf(l@),
{
    let n = configs.len();
    let mut k: usize = 0;
    while k < n
        invariant
            k <= n,
            n == configs@.len(),
            forall|j: int| 0 <= j < k ==> (#[trigger] configs@[j]).valid(),
        decreases n - k,
    {
        if !configs[k].is_valid() {
            return None;
        }
        k += 1;
    }
    let mut level = Level::Dram(Dram::new(memory_latency));
    let mut i: usize = n;
    proof {
        assert(configs@.subrange(n as int, n as int) =~= Seq::<CacheConfig>::empty());
    }
    while i > 0
        invariant
            i <= n,
            n == configs@.len(),
            forall|j: int| 0 <= j < n ==> (#[trigger] configs@[j]).valid(),
            level@ == fresh_hierarchy(configs@.subrange(i as int, n as int), memory_latency),
            level_wf(level@),
        decreases i,
    {
        i -= 1;
        let cache = Cache::new(configs[i], level);
        proof {
            assert(configs@.subrange(i as int, n as int).drop_first() =~= configs@.subrange(i + 1, n as int));
        }
        level = Level::Cache(Box::new(cache));
    }
    proof {
        assert(configs@.subrange(0, n as int) =~= configs@);
    }
    Some(level)
}

/// A write-back, write-allocate level with 8 ways and 64-byte lines.
pub open spec fn default_config(name: &'static str, capacity: u64, latency: u64) -> CacheConfig {
    CacheConfig {
        name,
        write_through: false,
        write_allocate: true,
        capacity,
        associativity: 8,
        line_size: 64,
        latency,
    }
}

/// The configurations of the default hierarchy, nearest level first.
pub open spec fn default_configs() -> Seq<CacheConfig> {
    seq![
        default_config("L1", 32768, 1),
        default_config("L2", 262144, 2),
        default_config("LLC", 8388608, 4),
    ]
}

/// The default hierarchy: L1, L2 and LLC over a backing store of latency 13.
pub fn new() -> (r: Cache)
    ensures
        cache_wf(r@),
        LevelView::Cache(Box::new(r@)) == fresh_hierarchy(default_configs(), 13),
{
    let llc_config = CacheConfig {
        name: "LLC",
        write_through: false,
        write_allocate: true,
        capacity: 8 * 1024 * 1024,
        associativity: 8,
        line_size: 64,
        latency: 4,
    };
    let l2_config = CacheConfig {
        name: "L2",
        write_through: false,
        write_allocate: true,
        capacity: 256 * 1024,
        associativity: 8,
        line_size: 64,
        latency: 2,
    };
    let l1_config = CacheConfig {
        name: "L1",
        write_through: false,
        write_allocate: true,
        capacity: 32 * 1024,
        associativity: 8,
        line_size: 64,
        latency: 1,
    };
    proof {
        assert(8388608int / 64 == 131072 && 8388608int % 64 == 0 && 131072int % 8 == 0 && 131072int / 8 == 16384);
        assert(262144int / 64 == 4096 && 262144int % 64 == 0 && 4096int % 8 == 0 && 4096int / 8 == 512);
        assert(32768int / 64 == 512 && 32768int % 64 == 0 && 512int % 8 == 0 && 512int / 8 == 64);
    }
    let dram = Dram::new(13);
    let llc = Cache::new(llc_config, Level::Dram(dram));
    let l2 = Cache::new(l2_config, Level::Cache(Box::new(llc)));
    let l1 = Cache::new(l1_config, Level::Cache(Box::new(l2)));
    proof {
        let cs = default_configs();
        reveal_with_fuel(fresh_hierarchy, 4);
        assert(cs.drop_first() =~= seq![cs[1], cs[2]]);
        assert(cs.drop_first().drop_first() =~= seq![cs[2]]);
        assert(cs.drop_first().drop_first().drop_first() =~= Seq::<CacheConfig>::empty());
    }
    l1
}

/// The lookup of an address's tag in its set.
pub open spec fn touch_of(c: CacheView, address: u64) -> (SetView, Option<int>) {
    crate::lines::touch(c.sets[set_index(c, address)], tag_of(c, address))
}

/// The counters of a well-formed level are never negative.
proof fn lemma_total_nonneg(l: LevelView)
    requires
        level_wf(l),
    ensures
        level_total(l).num_access >= 0,
        level_total(l).num_miss >= 0,
        level_total(l).time >= 0,
    decreases l,
{
    if let LevelView::Cache(c) = l {
        lemma_total_nonneg(c.lower);
    }
}

/// The masks of a valid configuration are computed without overflow.
proof fn lemma_mask_bounds(config: CacheConfig)
    requires
        config.valid(),
    ensures
        (config.num_sets() - 1) * config.line_size <= config.capacity,
        config.capacity / config.associativity >= 1,
{
    let cap = config.capacity as int;
    let ls = config.line_size as int;
    let a = config.associativity as int;
    let nl = config.num_lines();
    let ns = config.num_sets();
    vstd::arithmetic::div_mod::lemma_fundamental_div_mod(cap, ls);
    vstd::arithmetic::div_mod::lemma_fundamental_div_mod(nl, a);
    assert(ns <= nl && a <= nl) by (nonlinear_arith)
        requires
            nl == a * ns + nl % a,
            a >= 1,
            ns >= 1,
            nl % a == 0,
    ;
    assert((ns - 1) * ls <= cap && nl <= cap) by (nonlinear_arith)
        requires
            cap == ls * nl + cap % ls,
            cap % ls == 0,
            ns <= nl,
            ns >= 1,
            ls >= 1,
    ;
    vstd::arithmetic::div_mod::lemma_div_is_ordered(a, cap, a);
}

} // verus!
