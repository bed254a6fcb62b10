use cachesim::memory::{Memory, MemorySegment};

#[test]
fn little_endian_round_trip() {
    let mut m = Memory::new();
    m.allocate(0x1000, 16);
    m.store_u32(0x1000, 0x1234_5678);
    assert_eq!(m.load_u8(0x1000), 0x78);
    assert_eq!(m.load_u8(0x1003), 0x12);
    assert_eq!(m.load_u16(0x1002), 0x1234);
    assert_eq!(m.load_u32(0x1000), 0x1234_5678);
    m.store_u64(0x1008, 0x0102_0304_0506_0708);
    assert_eq!(m.load_u64(0x1008), 0x0102_0304_0506_0708);
    assert_eq!(m.load_u8(0x1008), 0x08);
    m.store_u16(0x1004, 0xbeef);
    assert_eq!(m.load_u32(0x1004), 0xbeef);
    m.store_u8(0x100f, 0xff);
    assert_eq!(m.load_u64(0x1008), 0xff02_0304_0506_0708);
}

#[test]
fn first_matching_segment_wins() {
    let mut m = Memory::new();
    let mut seg = MemorySegment::new(0x2000, 8);
    seg.load_from(&[1, 2, 3, 4, 5, 6, 7, 8, 9], 4);
    m.push(seg);
    m.allocate(0x2000, 8);
    assert_eq!(m.load_u32(0x2000), 0x0403_0201);
    assert_eq!(m.load_u32(0x2004), 0);
    m.allocate(0x3000, 4);
    m.store_u32(0x3000, 7);
    assert_eq!(m.load_u32(0x3000), 7);
}
