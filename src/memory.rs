//! Byte-addressed memory made of segments, read and written little-endian.
use vstd::prelude::*;
use crate::endian::{le_bytes, le_value, lemma_le_bytes_len, read_u16_at, read_u32_at, read_u64_at, splice, write_u16_at, write_u32_at, write_u64_at};

verus! {

/// A segment as its first address and its bytes.
pub struct SegmentView {
    pub start: int,
    pub bytes: Seq<u8>,
}

/// Whether `address` falls in the segment.
pub open spec fn seg_contains(s: SegmentView, address: int) -> bool {
    s.start <= address < s.start + s.bytes.len()
}

/// Whether the `n` bytes from `address` fall in the segment.
pub open spec fn seg_holds(s: SegmentView, address: int, n: int) -> bool {
    s.start <= address && address + n <= s.start + s.bytes.len()
}

/// A run of bytes starting at a fixed address.
pub struct MemorySegment {
    start: u64,
    array: Vec<u8>,
    size: usize,
}

impl View for MemorySegment {
    type V = SegmentView;

    closed spec fn view(&self) -> SegmentView {
        SegmentView { start: self.start as int, bytes: self.array@ }
    }
}

impl MemorySegment {
    /// The size matches the bytes, and the segment ends within the address
    /// space.
    pub closed spec fn wf(&self) -> bool {
        &&& self.array@.len() == self.size
        &&& self.start + self.size <= u64::MAX
    }

    /// `size` zero bytes from `start`.
    pub fn new(start: u64, size: usize) -> (r: MemorySegment)
        requires
            start + size <= u64::MAX,
        ensures
            r.wf(),
            r@ == (SegmentView { start: start as int, bytes: Seq::new(size as nat, |i: int| 0u8) }),
    {
        let mut array: Vec<u8> = Vec::new();
        let mut i: usize = 0;
        while i < size
            invariant
                i <= size,
                array@ == Seq::new(i as nat, |k: int| 0u8),
            decreases size - i,
        {
            array.push(0);
            i += 1;
            assert(array@ =~= Seq::new(i as nat, |k: int| 0u8));
        }
        MemorySegment { start, size, array }
    }

    /// The first address past the segment.
    fn end(&self) -> (r: u64)
        requires
            self.wf(),
        ensures
            r == self@.start + self@.bytes.len(),
    {
        self.start + (self.size as u64)
    }

    fn contains(&self, address: u64) -> (r: bool)
        requires
            self.wf(),
        ensures
            r == seg_contains(self@, address as int),
    {
        self.start <= address && address < self.end()
    }

    fn store_u8(&mut self, address: u64, value: u8)
        requires
            old(self).wf(),
            seg_holds(old(self)@, address as int, 1),
        ensures
            final(self).wf(),
            final(self)@ == (SegmentView {
                start: old(self)@.start,
                bytes: old(self)@.bytes.update(address - old(self)@.start, value),
            }),
    {
        let offset = address - self.start;
        self.array.set(offset as usize, value);
    }

    fn store_u16(&mut self, address: u64, value: u16)
        requires
            old(self).wf(),
            seg_holds(old(self)@, address as int, 2),
        ensures
            final(self).wf(),
            final(self)@ == (SegmentView {
                start: old(self)@.start,
                bytes: splice(old(self)@.bytes, address - old(self)@.start, le_bytes(value as nat, 2)),
            }),
    {
        let offset = (address - self.start) as usize;
        write_u16_at(&mut self.array, offset, value);
        proof {
            lemma_le_bytes_len(value as nat, 2);
            lemma_splice_len(old(self)@.bytes, offset as int, le_bytes(value as nat, 2));
        }
    }

    fn store_u32(&mut self, address: u64, value: u32)
        requires
            old(self).wf(),
            seg_holds(old(self)@, address as int, 4),
        ensures
            final(self).wf(),
            final(self)@ == (SegmentView {
                start: old(self)@.start,
                bytes: splice(old(self)@.bytes, address - old(self)@.start, le_bytes(value as nat, 4)),
            }),
    {
        let offset = (address - self.start) as usize;
        write_u32_at(&mut self.array, offset, value);
        proof {
            lemma_le_bytes_len(value as nat, 4);
            lemma_splice_len(old(self)@.bytes, offset as int, le_bytes(value as nat, 4));
        }
    }

    fn store_u64(&mut self, address: u64, value: u64)
        requires
            old(self).wf(),
            seg_holds(old(self)@, address as int, 8),
        ensures
            final(self).wf(),
            final(self)@ == (SegmentView {
                start: old(self)@.start,
                bytes: splice(old(self)@.bytes, address - old(self)@.start, le_bytes(value as nat, 8)),
            }),
    {
        let offset = (address - self.start) as usize;
        write_u64_at(&mut self.array, offset, value);
        proof {
            lemma_le_bytes_len(value as nat, 8);
            lemma_splice_len(old(self)@.bytes, offset as int, le_bytes(value as nat, 8));
        }
    }

    fn load_u8(&self, address: u64) -> (r: u8)
        requires
            self.wf(),
            seg_holds(self@, address as int, 1),
        ensures
            r == self@.bytes[address - self@.start],
    {
        let offset = address - self.start;
        self.array[offset as usize]
    }

    fn load_u16(&self, address: u64) -> (r: u16)
        requires
            self.wf(),
            seg_holds(self@, address as int, 2),
        ensures
            r as nat == le_value(self@.bytes.subrange(address - self@.start, address - self@.start + 2)),
    {
        let offset = (address - self.start) as usize;
        read_u16_at(self.array.as_slice(), offset)
    }

    fn load_u32(&self, address: u64) -> (r: u32)
        requires
            self.wf(),
            seg_holds(self@, address as int, 4),
        ensures
            r as nat == le_value(self@.bytes.subrange(address - self@.start, address - self@.start + 4)),
    {
        let offset = (address - self.start) as usize;
        read_u32_at(self.array.as_slice(), offset)
    }

    fn load_u64(&self, address: u64) -> (r: u64)
        requires
            self.wf(),
            seg_holds(self@, address as int, 8),
        ensures
            r as nat == le_value(self@.bytes.subrange(address - self@.start, address - self@.start + 8)),
    {
        let offset = (address - self.start) as usize;
        read_u64_at(self.array.as_slice(), offset)
    }

    /// Copies the first `size` bytes of `data` to the start of the segment.
    pub fn load_from(&mut self, data: &[u8], size: usize)
        requires
            old(self).wf(),
            size <= data@.len(),
            size <= old(self)@.bytes.len(),
        ensures
            final(self).wf(),
            final(self)@ == (SegmentView {
                start: old(self)@.start,
                bytes: splice(old(self)@.bytes, 0, data@.subrange(0, size as int)),
            }),
    {
        let ghost bytes0 = self.array@;
        let mut i: usize = 0;
        while i < size
            invariant
                i <= size,
                size <= data@.len(),
                size <= bytes0.len(),
                self.array@.len() == bytes0.len(),
                self.start == old(self).start,
                self.size == old(self).size,
                bytes0 == old(self)@.bytes,
                forall|j: int| 0 <= j < i ==> #[trigger] self.array@[j] == data@[j],
                forall|j: int| i <= j < bytes0.len() ==> #[trigger] self.array@[j] == bytes0[j],
            decreases size - i,
        {
            self.array.set(i, data[i]);
            i += 1;
        }
        proof {
            assert(self.array@ =~= splice(bytes0, 0, data@.subrange(0, size as int)));
        }
    }
}

/// The first segment at index `i` or later that contains `address`.
pub open spec fn find_seg(segs: Seq<SegmentView>, address: int, i: int) -> Option<int>
    decreases segs.len() - i,
{
    if i < 0 || i >= segs.len() {
        None
    } else if seg_contains(segs[i], address) {
        Some(i)
    } else {
        find_seg(segs, address, i + 1)
    }
}

/// The segment an access to `address` goes to: the first that contains it.
pub open spec fn seg_of(segs: Seq<SegmentView>, address: int) -> int {
    find_seg(segs, address, 0)->Some_0
}

/// Whether an access of `n` bytes at `address` stays in the segment that
/// `address` falls in.
pub open spec fn accessible(segs: Seq<SegmentView>, address: int, n: int) -> bool {
    &&& find_seg(segs, address, 0) is Some
    &&& seg_holds(segs[seg_of(segs, address)], address, n)
}

/// The bytes of the segment `address` falls in, from `address` on.
pub open spec fn bytes_at(segs: Seq<SegmentView>, address: int, n: int) -> Seq<u8> {
    let s = segs[seg_of(segs, address)];
    s.bytes.subrange(address - s.start, address - s.start + n)
}

/// `segs` with the bytes at `address` replaced by `b`.
pub open spec fn write_at(segs: Seq<SegmentView>, address: int, b: Seq<u8>) -> Seq<SegmentView> {
    let k = seg_of(segs, address);
    let s = segs[k];
    segs.update(k, SegmentView { start: s.start, bytes: splice(s.bytes, address - s.start, b) })
}

/// A segment found at or after `i` contains the address.
proof fn lemma_find_seg(segs: Seq<SegmentView>, address: int, i: int)
    ensures
        find_seg(segs, address, i) matches Some(k) ==> i <= k < segs.len() && seg_contains(segs[k], address),
    decreases segs.len() - i,
{
    if 0 <= i < segs.len() && !seg_contains(segs[i], address) {
        lemma_find_seg(segs, address, i + 1);
    }
}

/// Memory: segments, searched in the order they were added.
pub struct Memory {
    segments: Vec<MemorySegment>,
}

/// The views of a sequence of segments.
spec fn seg_views(v: Seq<MemorySegment>) -> Seq<SegmentView> {
    Seq::new(v.len(), |i: int| v[i]@)
}

impl View for Memory {
    type V = Seq<SegmentView>;

    closed spec fn view(&self) -> Seq<SegmentView> {
        seg_views(self.segments@)
    }
}

impl Memory {
    /// Every segment is well formed.
    pub closed spec fn wf(&self) -> bool {
        forall|i: int| 0 <= i < self.segments@.len() ==> (#[trigger] self.segments@[i]).wf()
    }

    /// Memory with no segment.
    pub fn new() -> (r: Memory)
        ensures
            r.wf(),
            r@ == Seq::<SegmentView>::empty(),
    {
        let r = Memory { segments: Vec::new() };
        proof {
            assert(r@ =~= Seq::<SegmentView>::empty());
        }
        r
    }

    /// Adds `segment` after the others.
    pub fn push(&mut self, segment: MemorySegment)
        requires
            old(self).wf(),
            segment.wf(),
        ensures
            final(self).wf(),
            final(self)@ == old(self)@.push(segment@),
    {
        self.segments.push(segment);
        proof {
            assert(self@ =~= old(self)@.push(segment@));
        }
    }

    /// Adds `size` zero bytes from `start` after the other segments.
    pub fn allocate(&mut self, start: u64, size: usize)
        requires
            old(self).wf(),
            start + size <= u64::MAX,
        ensures
            final(self).wf(),
            final(self)@ == old(self)@.push(SegmentView { start: start as int, bytes: Seq::new(size as nat, |i: int| 0u8) }),
    {
        self.push(MemorySegment::new(start, size))
    }

    /// The index of the segment `address` falls in.
    fn find(&self, address: u64) -> (r: usize)
        requires
            self.wf(),
            find_seg(self@, address as int, 0) is Some,
        ensures
            r as int == seg_of(self@, address as int),
            r < self@.len(),
            self.segments@[r as int]@ == self@[r as int],
    {
        proof {
            lemma_find_seg(self@, address as int, 0);
        }
        let n = self.segments.len();
        let mut i: usize = 0;
        while i < n
            invariant
                i <= n,
                n == self.segments@.len(),
                self.wf(),
                find_seg(self@, address as int, 0) == find_seg(self@, address as int, i as int),
            decreases n - i,
        {
            if self.segments[i].contains(address) {
                return i;
            }
            i += 1;
        }
        i
    }

    /// Tells whether an access of `n` bytes at `address` stays in the segment
    /// that `address` falls in.
    pub fn can_access(&self, address: u64, n: u64) -> (r: bool)
        requires
            self.wf(),
        ensures
            r == accessible(self@, address as int, n as int),
    {
        proof {
            lemma_find_seg(self@, address as int, 0);
        }
        let count = self.segments.len();
        let mut i: usize = 0;
        while i < count
            invariant
                i <= count,
                count == self.segments@.len(),
                self.wf(),
                find_seg(self@, address as int, 0) == find_seg(self@, address as int, i as int),
            decreases count - i,
        {
            if self.segments[i].contains(address) {
                let seg = &self.segments[i];
                proof {
                    assert(self.segments@[i as int]@ == self@[i as int]);
                }
                return (address - seg.start) as u128 + n as u128 <= seg.size as u128;
            }
            i += 1;
        }
        false
    }

    pub fn store_u8(&mut self, address: u64, value: u8)
        requires
            old(self).wf(),
            accessible(old(self)@, address as int, 1),
        ensures
            final(self).wf(),
            final(self)@ == write_at(old(self)@, address as int, seq![value]),
    {
        let k = self.find(address);
        self.segments[k].store_u8(address, value);
        proof {
            let s = old(self)@[k as int];
            assert(s.bytes.update(address - s.start, value) =~= splice(s.bytes, address - s.start, seq![value]));
            assert(self@ =~= write_at(old(self)@, address as int, seq![value]));
        }
    }

    pub fn load_u8(&mut self, address: u64) -> (r: u8)
        requires
            old(self).wf(),
            accessible(old(self)@, address as int, 1),
        ensures
            *final(self) == *old(self),
            seq![r] == bytes_at(old(self)@, address as int, 1),
    {
        let k = self.find(address);
        let r = self.segments[k].load_u8(address);
        proof {
            assert(seq![r] =~= bytes_at(old(self)@, address as int, 1));
        }
        r
    }

    pub fn store_u16(&mut self, address: u64, value: u16)
        requires
            old(self).wf(),
            accessible(old(self)@, address as int, 2),
        ensures
            final(self).wf(),
            final(self)@ == write_at(old(self)@, address as int, le_bytes(value as nat, 2)),
    {
        let k = self.find(address);
        self.segments[k].store_u16(address, value);
        proof {
            assert(self@ =~= write_at(old(self)@, address as int, le_bytes(value as nat, 2)));
        }
    }

    pub fn store_u64(&mut self, address: u64, value: u64)
        requires
            old(self).wf(),
            accessible(old(self)@, address as int, 8),
        ensures
            final(self).wf(),
            final(self)@ == write_at(old(self)@, address as int, le_bytes(value as nat, 8)),
    {
        let k = self.find(address);
        self.segments[k].store_u64(address, value);
        proof {
            assert(self@ =~= write_at(old(self)@, address as int, le_bytes(value as nat, 8)));
        }
    }

    pub fn load_u16(&self, address: u64) -> (r: u16)
        requires
            self.wf(),
            accessible(self@, address as int, 2),
        ensures
            r as nat == le_value(bytes_at(self@, address as int, 2)),
    {
        let k = self.find(address);
        self.segments[k].load_u16(address)
    }

    pub fn store_u32(&mut self, address: u64, value: u32)
        requires
            old(self).wf(),
            accessible(old(self)@, address as int, 4),
        ensures
            final(self).wf(),
            final(self)@ == write_at(old(self)@, address as int, le_bytes(value as nat, 4)),
    {
        let k = self.find(address);
        self.segments[k].store_u32(address, value);
        proof {
            assert(self@ =~= write_at(old(self)@, address as int, le_bytes(value as nat, 4)));
        }
    }

    pub fn load_u32(&self, address: u64) -> (r: u32)
        requires
            self.wf(),
            accessible(self@, address as int, 4),
        ensures
            r as nat == le_value(bytes_at(self@, address as int, 4)),
    {
        let k = self.find(address);
        self.segments[k].load_u32(address)
    }

    pub fn load_u64(&self, address: u64) -> (r: u64)
        requires
            self.wf(),
            accessible(self@, address as int, 8),
        ensures
            r as nat == le_value(bytes_at(self@, address as int, 8)),
    {
        let k = self.find(address);
        self.segments[k].load_u64(address)
    }
}

/// Splicing keeps the length.
proof fn lemma_splice_len(s: Seq<u8>, offset: int, b: Seq<u8>)
    requires
        0 <= offset,
        offset + b.len() <= s.len(),
    ensures
        splice(s, offset, b).len() == s.len(),
{
}

} // verus!
