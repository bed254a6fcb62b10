use cachesim::endian::{array_as_u16, array_as_u32, array_as_u64};

#[test]
fn test_array_as_u64() {
    let a: [u8; 8] = [1, 2, 3, 4, 5, 6, 7, 8];
    assert_eq!(array_as_u16(&a), 0x0201);
    assert_eq!(array_as_u64(&a), 0x0807060504030201);
}

#[test]
fn array_as_u32_reads_four_bytes() {
    let a: [u8; 5] = [0xef, 0xbe, 0xad, 0xde, 0xff];
    assert_eq!(array_as_u32(&a), 0xdead_beef);
}
