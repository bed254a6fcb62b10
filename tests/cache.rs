use cachesim::cache::{build, new, Cache, CacheConfig, CacheOp, Dram, Level, Storage, StorageStats};

fn config(capacity: u64, associativity: u64, line_size: u64, latency: u64) -> CacheConfig {
    CacheConfig {
        name: "test",
        write_through: false,
        write_allocate: true,
        capacity,
        associativity,
        line_size,
        latency,
    }
}

#[test]
fn cache_test001() {
    let llc = Cache::new(
        CacheConfig {
            name: "test",
            write_through: false,
            write_allocate: true,
            capacity: 8 * 1024 * 1024,
            associativity: 8,
            line_size: 64,
            latency: 4,
        },
        Level::Dram(Dram::new(13)),
    );
    assert_eq!(llc.line_mask(), 0xfffc0);
    assert_eq!(llc.tag_mask(), !0xfffff);
}

#[test]
fn cold_read_misses_then_hits() {
    let mut c = Cache::new(config(1024, 2, 64, 3), Level::Dram(Dram::new(10)));
    assert_eq!(c.access(0x40, CacheOp::Read), 13);
    assert_eq!(c.own_stats().num_miss, 1);
    assert_eq!(c.access(0x40, CacheOp::Read), 3);
    assert_eq!(c.own_stats().num_miss, 1);
    assert_eq!(c.own_stats().num_access, 2);
    assert_eq!(c.own_stats().time, 16);
}

fn small(write_through: bool, write_allocate: bool) -> Cache {
    Cache::new(
        CacheConfig {
            name: "small",
            write_through,
            write_allocate,
            capacity: 256,
            associativity: 2,
            line_size: 64,
            latency: 1,
        },
        Level::Dram(Dram::new(10)),
    )
}

#[test]
fn masks_of_small_cache() {
    let c = small(false, true);
    assert_eq!(c.line_mask(), 64);
    assert_eq!(c.tag_mask(), !127);
}

#[test]
fn first_access_misses_at_every_level() {
    let mut top = new();
    assert_eq!(top.access(0x1234, CacheOp::Read), 20);
    let own = top.own_stats();
    assert_eq!((own.num_access, own.num_miss, own.time), (1, 1, 20));
    let total = top.stats();
    assert_eq!((total.num_access, total.num_miss, total.time), (3, 3, 56));
    assert_eq!(top.access(0x1234, CacheOp::Read), 1);
    let total = top.stats();
    assert_eq!((total.num_access, total.num_miss, total.time), (4, 3, 57));
}

#[test]
fn second_access_is_a_hit() {
    let mut c = small(false, true);
    assert_eq!(c.access(0, CacheOp::Read), 11);
    assert_eq!(c.access(0, CacheOp::Read), 1);
    assert_eq!(c.access(0, CacheOp::Write), 1);
    assert_eq!(c.own_stats().num_miss, 1);
}

#[test]
fn least_recently_used_line_is_evicted() {
    let mut c = small(false, true);
    assert_eq!(c.access(0, CacheOp::Read), 11);
    assert_eq!(c.access(128, CacheOp::Read), 11);
    assert_eq!(c.access(0, CacheOp::Read), 1);
    // a third tag in the same set replaces 128, visited least recently
    assert_eq!(c.access(256, CacheOp::Read), 11);
    assert_eq!(c.access(0, CacheOp::Read), 1);
    assert_eq!(c.access(128, CacheOp::Read), 11);
    assert_eq!(c.own_stats().num_miss, 4);
}

#[test]
fn other_set_is_not_disturbed() {
    let mut c = small(false, true);
    assert_eq!(c.access(64, CacheOp::Read), 11);
    assert_eq!(c.access(0, CacheOp::Read), 11);
    assert_eq!(c.access(128, CacheOp::Read), 11);
    assert_eq!(c.access(256, CacheOp::Read), 11);
    assert_eq!(c.access(64, CacheOp::Read), 1);
}

#[test]
fn dirty_victim_is_written_back() {
    let mut c = small(false, true);
    let mut below = Cache::new(
        CacheConfig {
            name: "below",
            write_through: false,
            write_allocate: true,
            capacity: 4096,
            associativity: 4,
            line_size: 64,
            latency: 2,
        },
        Level::Dram(Dram::new(10)),
    );
    assert_eq!(below.access(0, CacheOp::Read), 12);
    assert_eq!(c.access(0, CacheOp::Read), 11);
    assert_eq!(c.access(0, CacheOp::Write), 1);
    assert_eq!(c.access(128, CacheOp::Read), 11);
    // evicts the dirty line of address 0: fetch plus one write back
    assert_eq!(c.access(256, CacheOp::Read), 21);
    assert_eq!(c.own_stats().num_miss, 3);
}

#[test]
fn dirty_write_back_goes_to_the_old_address() {
    let below = Cache::new(
        CacheConfig {
            name: "below",
            write_through: false,
            write_allocate: true,
            capacity: 4096,
            associativity: 4,
            line_size: 64,
            latency: 2,
        },
        Level::Dram(Dram::new(10)),
    );
    let mut c = Cache::new(
        CacheConfig {
            name: "top",
            write_through: false,
            write_allocate: true,
            capacity: 256,
            associativity: 2,
            line_size: 64,
            latency: 1,
        },
        Level::Cache(Box::new(below)),
    );
    assert_eq!(c.access(0, CacheOp::Read), 13);
    assert_eq!(c.access(0, CacheOp::Write), 1);
    assert_eq!(c.access(128, CacheOp::Read), 13);
    // read of 256 misses below (12), write back of 0 hits below (2)
    assert_eq!(c.access(256, CacheOp::Read), 15);
    let total = c.stats();
    assert_eq!(total.num_access, 4 + 4);
    assert_eq!(total.num_miss, 3 + 3);
}

#[test]
fn clean_victim_costs_no_write_back() {
    let mut c = small(false, true);
    assert_eq!(c.access(0, CacheOp::Read), 11);
    assert_eq!(c.access(128, CacheOp::Read), 11);
    assert_eq!(c.access(256, CacheOp::Read), 11);
}

#[test]
fn write_allocated_line_starts_clean() {
    let mut c = small(false, true);
    assert_eq!(c.access(0, CacheOp::Write), 11);
    assert_eq!(c.access(128, CacheOp::Read), 11);
    assert_eq!(c.access(256, CacheOp::Read), 11);
}

#[test]
fn write_without_allocation_bypasses() {
    let mut c = small(false, false);
    assert_eq!(c.access(0, CacheOp::Write), 11);
    assert_eq!(c.own_stats().num_miss, 1);
    assert_eq!(c.access(0, CacheOp::Read), 11);
    assert_eq!(c.own_stats().num_miss, 2);
    assert_eq!(c.access(0, CacheOp::Read), 1);
}

#[test]
fn write_through_hit_goes_below() {
    let mut c = small(true, true);
    assert_eq!(c.access(0, CacheOp::Read), 11);
    assert_eq!(c.access(0, CacheOp::Write), 11);
    assert_eq!(c.own_stats().num_miss, 1);
}

#[test]
fn trace_counts_every_operation() {
    let mut top = new();
    let trace = vec![
        (0u64, CacheOp::Read),
        (64, CacheOp::Write),
        (0, CacheOp::Read),
        (1 << 20, CacheOp::Write),
        (64, CacheOp::Read),
    ];
    let t = top.run(&trace);
    let own = top.own_stats();
    assert_eq!(own.num_access, 5);
    assert_eq!(own.time, t);
    let mut levels = 0;
    let mut sum = (0u64, 0u64, 0u64);
    let mut level: &Cache = &top;
    loop {
        let s = level.own_stats();
        sum = (sum.0 + s.num_access, sum.1 + s.num_miss, sum.2 + s.time);
        levels += 1;
        match level.lower() {
            Level::Cache(c) => level = c,
            Level::Dram(d) => {
                let z = d.stats();
                assert_eq!((z.num_access, z.num_miss, z.time), (0, 0, 0));
                break;
            }
        }
    }
    assert_eq!(levels, 3);
    let total = top.stats();
    assert_eq!((total.num_access, total.num_miss, total.time), sum);
    // three cold lines, each missing at all three levels
    assert_eq!(total.num_miss, 9);
}

#[test]
fn average_time_is_at_least_top_latency() {
    let mut top = new();
    let trace = vec![(0u64, CacheOp::Read), (0, CacheOp::Read), (4096, CacheOp::Write)];
    top.run(&trace);
    let total = top.stats();
    assert!(total.time >= total.num_access * 1);
    let mut hits = small(false, true);
    hits.access(0, CacheOp::Read);
    let before = hits.own_stats();
    hits.access(0, CacheOp::Read);
    hits.access(0, CacheOp::Write);
    let after = hits.own_stats();
    assert_eq!(after.time - before.time, (after.num_access - before.num_access) * 1);
}

#[test]
fn build_rejects_invalid_configurations() {
    let bad = CacheConfig {
        name: "bad",
        write_through: false,
        write_allocate: true,
        capacity: 100,
        associativity: 1,
        line_size: 64,
        latency: 1,
    };
    assert!(!bad.is_valid());
    assert!(build(&vec![config(1024, 2, 64, 1), bad], 10).is_none());
    let uneven = config(3 * 64, 2, 64, 1);
    assert!(!uneven.is_valid());
    assert!(build(&vec![], 7).is_some());
}

#[test]
fn build_stacks_levels_nearest_first() {
    let mut level = build(&vec![config(1024, 2, 64, 1), config(4096, 4, 64, 5)], 20).unwrap();
    assert!(level.has_room());
    assert_eq!(level.access(0, CacheOp::Read), 26);
    assert_eq!(level.access(0, CacheOp::Read), 1);
    match &level {
        Level::Cache(c) => {
            assert_eq!(c.config().latency, 1);
            match c.lower() {
                Level::Cache(l2) => assert_eq!(l2.config().latency, 5),
                Level::Dram(_) => panic!("expected a second cache level"),
            }
        }
        Level::Dram(_) => panic!("expected a cache on top"),
    }
    let total = level.stats();
    assert_eq!((total.num_access, total.num_miss, total.time), (3, 2, 52));
}

#[test]
fn backing_store_always_hits() {
    let mut d = Dram::new(13);
    assert_eq!(d.access(5, CacheOp::Read), 13);
    assert_eq!(d.access(5, CacheOp::Write), 13);
    let s = d.stats();
    assert_eq!((s.num_access, s.num_miss, s.time), (0, 0, 0));
}

#[test]
fn room_runs_out_near_the_limit() {
    let c = small(false, true);
    assert!(c.has_room());
    assert!(c.room_for(1000));
    assert!(!c.room_for(u64::MAX));
}

fn through_interface<S: Storage>(s: &mut S, address: u64) -> (u64, StorageStats) {
    let d = s.access(address, CacheOp::Read);
    (d, Storage::stats(s))
}

#[test]
fn every_level_answers_the_same_interface() {
    let mut top = new();
    let (d, total) = through_interface(&mut top, 0x80);
    assert_eq!(d, 20);
    assert_eq!((total.num_access, total.num_miss, total.time), (3, 3, 56));
    let mut dram = Dram::new(13);
    let (d, total) = through_interface(&mut dram, 0x80);
    assert_eq!(d, 13);
    assert_eq!(total.num_access, 0);
    let mut level = Level::Dram(Dram::new(5));
    assert_eq!(through_interface(&mut level, 1).0, 5);
    let checked = top.checked_stats().unwrap();
    assert_eq!((checked.num_access, checked.num_miss, checked.time), (3, 3, 56));
}
