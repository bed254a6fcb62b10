//! The lines of one cache set and their least-recently-used bookkeeping.
use vstd::prelude::*;

verus! {

/// One line of a set.
#[derive(Clone, Copy, Debug)]
pub struct CacheLine {
    pub is_valid: bool,
    pub is_dirty: bool,
    pub last_visit: u64,
    pub tag: u64,
    pub address: u64,
}

/// A line that holds nothing.
pub open spec fn empty_line() -> CacheLine {
    CacheLine { is_valid: false, is_dirty: false, last_visit: 0, tag: 0, address: 0 }
}

/// A set as a clock and its lines.
pub struct SetView {
    pub clock: u64,
    pub lines: Seq<CacheLine>,
}

/// The first valid line at index `i` or later whose tag is `tag`.
pub open spec fn find_from(lines: Seq<CacheLine>, tag: u64, i: int) -> Option<int>
    decreases lines.len() - i,
{
    if i < 0 || i >= lines.len() {
        None
    } else if lines[i].is_valid && lines[i].tag == tag {
        Some(i)
    } else {
        find_from(lines, tag, i + 1)
    }
}

/// The first invalid line at index `i` or later.
pub open spec fn invalid_from(lines: Seq<CacheLine>, i: int) -> Option<int>
    decreases lines.len() - i,
{
    if i < 0 || i >= lines.len() {
        None
    } else if !lines[i].is_valid {
        Some(i)
    } else {
        invalid_from(lines, i + 1)
    }
}

/// The first line among the first `n` with the smallest `last_visit`.
pub open spec fn lru_upto(lines: Seq<CacheLine>, n: int) -> int
    decreases n,
{
    if n <= 1 {
        0
    } else {
        let j = lru_upto(lines, n - 1);
        if lines[n - 1].last_visit < lines[j].last_visit {
            n - 1
        } else {
            j
        }
    }
}

/// The line chosen among the first `n` is one of them.
proof fn lemma_lru_in_range(lines: Seq<CacheLine>, n: int)
    requires
        1 <= n,
    ensures
        0 <= lru_upto(lines, n) < n,
    decreases n,
{
    if n > 1 {
        lemma_lru_in_range(lines, n - 1);
    }
}

/// An invalid line found is an invalid line at or after `i`.
proof fn lemma_invalid_in_range(lines: Seq<CacheLine>, i: int)
    ensures
        invalid_from(lines, i) matches Some(k) ==> i <= k < lines.len() && !lines[k].is_valid,
    decreases lines.len() - i,
{
    if 0 <= i < lines.len() && lines[i].is_valid {
        lemma_invalid_in_range(lines, i + 1);
    }
}

/// A line found at or after `i` is valid and carries the tag.
proof fn lemma_find_in_range(lines: Seq<CacheLine>, tag: u64, i: int)
    ensures
        find_from(lines, tag, i) matches Some(k) ==> i <= k < lines.len() && lines[k].is_valid
            && lines[k].tag == tag,
    decreases lines.len() - i,
{
    if 0 <= i < lines.len() && !(lines[i].is_valid && lines[i].tag == tag) {
        lemma_find_in_range(lines, tag, i + 1);
    }
}

/// The victim is a line of the set.
proof fn lemma_victim_in_range(lines: Seq<CacheLine>)
    requires
        lines.len() > 0,
    ensures
        0 <= victim(lines) < lines.len(),
{
    lemma_invalid_in_range(lines, 0);
    lemma_lru_in_range(lines, lines.len() as int);
}

/// The line replaced by an insertion: the first invalid line, or else the
/// least recently visited one.
pub open spec fn victim(lines: Seq<CacheLine>) -> int {
    match invalid_from(lines, 0) {
        Some(i) => i,
        None => lru_upto(lines, lines.len() as int),
    }
}

/// A lookup of `tag`: the clock advances, and a matching line is stamped with
/// the new clock value.
pub open spec fn touch(s: SetView, tag: u64) -> (SetView, Option<int>) {
    let clock = (s.clock + 1) as u64;
    match find_from(s.lines, tag, 0) {
        Some(i) => {
            let l = s.lines[i];
            let line = CacheLine {
                is_valid: l.is_valid,
                is_dirty: l.is_dirty,
                last_visit: clock,
                tag: l.tag,
                address: l.address,
            };
            (SetView { clock, lines: s.lines.update(i, line) }, Some(i))
        },
        None => (SetView { clock, lines: s.lines }, None),
    }
}

/// An insertion of `tag` for `address` over the victim line; the second
/// component is the address to write back when the victim was dirty.
pub open spec fn install(s: SetView, tag: u64, address: u64) -> (SetView, Option<u64>) {
    let clock = (s.clock + 1) as u64;
    let v = victim(s.lines);
    let line = CacheLine { is_valid: true, is_dirty: false, last_visit: clock, tag, address };
    (
        SetView { clock, lines: s.lines.update(v, line) },
        if s.lines[v].is_dirty {
            Some(s.lines[v].address)
        } else {
            None
        },
    )
}

/// The line at `i` marked dirty.
pub open spec fn mark_dirty(s: SetView, i: int) -> SetView {
    let l = s.lines[i];
    let line = CacheLine {
        is_valid: l.is_valid,
        is_dirty: true,
        last_visit: l.last_visit,
        tag: l.tag,
        address: l.address,
    };
    SetView { clock: s.clock, lines: s.lines.update(i, line) }
}

/// A well-formed set: `ways` lines, none stamped after the clock, invalid
/// lines clean, and valid lines stamped with distinct values; the clock stays
/// within `bound`.
pub open spec fn set_wf(s: SetView, ways: int, bound: int) -> bool {
    &&& s.lines.len() == ways
    &&& s.clock <= bound
    &&& forall|j: int| 0 <= j < ways ==> #[trigger] s.lines[j].last_visit <= s.clock
    &&& forall|j: int| 0 <= j < ways && !(#[trigger] s.lines[j]).is_valid ==> !s.lines[j].is_dirty
    &&& forall|j: int, k: int|
        0 <= j < ways && 0 <= k < ways && j != k && (#[trigger] s.lines[j]).is_valid
            && (#[trigger] s.lines[k]).is_valid ==> s.lines[j].last_visit != s.lines[k].last_visit
}

/// A lookup keeps a set well formed, one clock tick further.
pub proof fn lemma_touch_wf(s: SetView, tag: u64, ways: int, bound: int)
    requires
        set_wf(s, ways, bound),
        s.clock < u64::MAX,
    ensures
        set_wf(touch(s, tag).0, ways, bound + 1),
        touch(s, tag).0.clock == s.clock + 1,
        touch(s, tag).1 matches Some(i) ==> 0 <= i < ways && s.lines[i].is_valid
            && s.lines[i].tag == tag,
        touch(s, tag).1 is None ==> touch(s, tag).0.lines == s.lines
            && find_from(s.lines, tag, 0) is None,
{
    lemma_find_in_range(s.lines, tag, 0);
    let t = touch(s, tag).0;
    if let Some(i) = find_from(s.lines, tag, 0) {
        assert forall|j: int, k: int|
            0 <= j < ways && 0 <= k < ways && j != k && (#[trigger] t.lines[j]).is_valid
                && (#[trigger] t.lines[k]).is_valid implies t.lines[j].last_visit
            != t.lines[k].last_visit by {
            if j != i && k != i {
                assert(s.lines[j] == t.lines[j] && s.lines[k] == t.lines[k]);
            } else if j == i {
                assert(s.lines[k].last_visit <= s.clock);
            } else {
                assert(s.lines[j].last_visit <= s.clock);
            }
        }
        assert forall|j: int| 0 <= j < ways implies #[trigger] t.lines[j].last_visit <= t.clock by {
            if j != i {
                assert(s.lines[j].last_visit <= s.clock);
            }
        }
        assert forall|j: int| 0 <= j < ways && !(#[trigger] t.lines[j]).is_valid implies !t.lines[j].is_dirty by {
            assert(j != i);
        }
    } else {
        assert forall|j: int| 0 <= j < ways implies #[trigger] t.lines[j].last_visit <= t.clock by {
            assert(s.lines[j].last_visit <= s.clock);
        }
    }
}

/// An insertion keeps a set well formed, one clock tick further, and puts the
/// new tag in the victim's place.
pub proof fn lemma_install_wf(s: SetView, tag: u64, address: u64, ways: int, bound: int)
    requires
        set_wf(s, ways, bound),
        ways > 0,
        s.clock < u64::MAX,
    ensures
        set_wf(install(s, tag, address).0, ways, bound + 1),
        install(s, tag, address).0.clock == s.clock + 1,
        0 <= victim(s.lines) < ways,
        install(s, tag, address).0.lines[victim(s.lines)].tag == tag,
        install(s, tag, address).0.lines[victim(s.lines)].is_valid,
{
    lemma_victim_in_range(s.lines);
    let v = victim(s.lines);
    let t = install(s, tag, address).0;
    assert forall|j: int, k: int|
        0 <= j < ways && 0 <= k < ways && j != k && (#[trigger] t.lines[j]).is_valid
            && (#[trigger] t.lines[k]).is_valid implies t.lines[j].last_visit
        != t.lines[k].last_visit by {
        if j != v && k != v {
            assert(s.lines[j] == t.lines[j] && s.lines[k] == t.lines[k]);
        } else if j == v {
            assert(s.lines[k].last_visit <= s.clock);
        } else {
            assert(s.lines[j].last_visit <= s.clock);
        }
    }
    assert forall|j: int| 0 <= j < ways implies #[trigger] t.lines[j].last_visit <= t.clock by {
        if j != v {
            assert(s.lines[j].last_visit <= s.clock);
        }
    }
    assert forall|j: int| 0 <= j < ways && !(#[trigger] t.lines[j]).is_valid implies !t.lines[j].is_dirty by {
        assert(j != v);
    }
}

/// Marking a valid line dirty keeps a set well formed.
pub proof fn lemma_mark_dirty_wf(s: SetView, i: int, ways: int, bound: int)
    requires
        set_wf(s, ways, bound),
        0 <= i < ways,
        s.lines[i].is_valid,
    ensures
        set_wf(mark_dirty(s, i), ways, bound),
{
    let t = mark_dirty(s, i);
    assert forall|j: int, k: int|
        0 <= j < ways && 0 <= k < ways && j != k && (#[trigger] t.lines[j]).is_valid
            && (#[trigger] t.lines[k]).is_valid implies t.lines[j].last_visit
        != t.lines[k].last_visit by {
        assert(s.lines[j].is_valid && s.lines[k].is_valid);
    }
    assert forall|j: int| 0 <= j < ways implies #[trigger] t.lines[j].last_visit <= t.clock by {
        assert(s.lines[j].last_visit <= s.clock);
    }
    assert forall|j: int| 0 <= j < ways && !(#[trigger] t.lines[j]).is_valid implies !t.lines[j].is_dirty by {
        assert(!s.lines[j].is_valid);
    }
}

/// A valid line at or after `i` carrying `tag` is found.
pub proof fn lemma_find_some(lines: Seq<CacheLine>, tag: u64, i: int, k: int)
    requires
        0 <= i <= k < lines.len(),
        lines[k].is_valid,
        lines[k].tag == tag,
    ensures
        find_from(lines, tag, i) is Some,
    decreases k - i,
{
    if !(lines[i].is_valid && lines[i].tag == tag) {
        lemma_find_some(lines, tag, i + 1, k);
    }
}

/// The line chosen among the first `n` has the smallest stamp among them.
proof fn lemma_lru_is_min(lines: Seq<CacheLine>, n: int)
    requires
        1 <= n <= lines.len(),
    ensures
        forall|j: int| 0 <= j < n ==> lines[lru_upto(lines, n)].last_visit <= #[trigger] lines[j].last_visit,
    decreases n,
{
    if n > 1 {
        lemma_lru_is_min(lines, n - 1);
        lemma_lru_in_range(lines, n - 1);
    }
}

/// In a well-formed set whose lines are all valid, an insertion replaces the
/// line visited least recently: its stamp is below that of every other line,
/// the new tag takes its place, and every other line stays as it was.
pub proof fn lemma_lru_eviction(s: SetView, tag: u64, address: u64, ways: int, bound: int)
    requires
        set_wf(s, ways, bound),
        ways > 0,
        forall|j: int| 0 <= j < ways ==> (#[trigger] s.lines[j]).is_valid,
    ensures
        0 <= victim(s.lines) < ways,
        forall|j: int|
            0 <= j < ways && j != victim(s.lines) ==> s.lines[victim(s.lines)].last_visit
                < #[trigger] s.lines[j].last_visit,
        install(s, tag, address).0.lines[victim(s.lines)].tag == tag,
        install(s, tag, address).0.lines[victim(s.lines)].is_valid,
        forall|j: int|
            0 <= j < ways && j != victim(s.lines) ==> #[trigger] install(s, tag, address).0.lines[j]
                == s.lines[j],
        install(s, tag, address).1 == (if s.lines[victim(s.lines)].is_dirty {
            Some(s.lines[victim(s.lines)].address)
        } else {
            None
        }),
{
    lemma_invalid_in_range(s.lines, 0);
    assert(invalid_from(s.lines, 0) is None);
    lemma_lru_in_range(s.lines, ways);
    lemma_lru_is_min(s.lines, ways);
    let v = victim(s.lines);
    assert forall|j: int|
        0 <= j < ways && j != v implies s.lines[v].last_visit < #[trigger] s.lines[j].last_visit by {
        assert(s.lines[v].last_visit <= s.lines[j].last_visit);
        assert(s.lines[v].last_visit != s.lines[j].last_visit);
    }
}

/// An optional position as an integer.
pub open spec fn as_index(r: Option<usize>) -> Option<int> {
    match r {
        Some(i) => Some(i as int),
        None => None,
    }
}

/// The lines of one set, with the clock that orders their visits.
pub(crate) struct CacheLines {
    last_visit: u64,
    lines: Vec<CacheLine>,
}

impl View for CacheLines {
    type V = SetView;

    closed spec fn view(&self) -> SetView {
        SetView { clock: self.last_visit, lines: self.lines@ }
    }
}

impl CacheLines {
    pub(crate) fn new(size: u64) -> (r: CacheLines)
        ensures
            r@.clock == 0,
            r@.lines == Seq::new(size as nat, |i: int| empty_line()),
    {
        let mut lines: Vec<CacheLine> = Vec::new();
        let mut i: u64 = 0;
        while i < size
            invariant
                i <= size,
                lines@ == Seq::new(i as nat, |k: int| empty_line()),
            decreases size - i,
        {
            lines.push(CacheLine { is_valid: false, is_dirty: false, last_visit: 0, tag: 0, address: 0 });
            i += 1;
            assert(lines@ =~= Seq::new(i as nat, |k: int| empty_line()));
        }
        CacheLines { last_visit: 0, lines }
    }

    pub(crate) fn find(&mut self, tag: u64) -> (r: Option<usize>)
        requires
            old(self)@.clock < u64::MAX,
        ensures
            (final(self)@, as_index(r)) == touch(old(self)@, tag),
    {
        self.last_visit = self.last_visit + 1;
        let n = self.lines.len();
        let mut i: usize = 0;
        while i < n
            invariant
                i <= n,
                n == self.lines@.len(),
                self.lines@ == old(self).lines@,
                self.last_visit == old(self).last_visit + 1,
                find_from(self.lines@, tag, 0) == find_from(self.lines@, tag, i as int),
            decreases n - i,
        {
            if self.lines[i].is_valid && self.lines[i].tag == tag {
                let mut line = self.lines[i];
                line.last_visit = self.last_visit;
                self.lines.set(i, line);
                return Some(i);
            }
            i += 1;
        }
        None
    }

    pub(crate) fn mark_dirty(&mut self, i: usize)
        requires
            i < old(self)@.lines.len(),
        ensures
            final(self)@ == mark_dirty(old(self)@, i as int),
    {
        let mut line = self.lines[i];
        line.is_dirty = true;
        self.lines.set(i, line);
    }

    pub(crate) fn victim(&self) -> (r: usize)
        requires
            self@.lines.len() > 0,
        ensures
            r as int == victim(self@.lines),
            r < self@.lines.len(),
    {
        proof {
            lemma_victim_in_range(self.lines@);
        }
        let n = self.lines.len();
        let mut i: usize = 0;
        while i < n
            invariant
                i <= n,
                n == self.lines@.len(),
                invalid_from(self.lines@, 0) == invalid_from(self.lines@, i as int),
            decreases n - i,
        {
            if !self.lines[i].is_valid {
                return i;
            }
            i += 1;
        }
        let mut best: usize = 0;
        let mut j: usize = 1;
        while j < n
            invariant
                1 <= j <= n,
                n == self.lines@.len(),
                best as int == lru_upto(self.lines@, j as int),
                best < j,
            decreases n - j,
        {
            if self.lines[j].last_visit < self.lines[best].last_visit {
                best = j;
            }
            j += 1;
        }
        best
    }

    /// Installs `tag` over the victim line; returns the victim's address when
    /// it was dirty.
    pub(crate) fn insert(&mut self, tag: u64, address: u64) -> (r: Option<u64>)
        requires
            old(self)@.lines.len() > 0,
            old(self)@.clock < u64::MAX,
            find_from(old(self)@.lines, tag, 0) is None,
        ensures
            (final(self)@, r) == install(old(self)@, tag, address),
    {
        self.last_visit = self.last_visit + 1;
        let v = self.victim();
        let old_line = self.lines[v];
        let result = if old_line.is_dirty {
            Some(old_line.address)
        } else {
            None
        };
        self.lines.set(
            v,
            CacheLine { is_valid: true, is_dirty: false, last_visit: self.last_visit, tag, address },
        );
        result
    }
}

} // verus!
