//! Little-endian integers in byte buffers.
use vstd::prelude::*;
use byteorder::{ByteOrder, LittleEndian};

verus! {

/// The little-endian number held by `b`.
pub open spec fn le_value(b: Seq<u8>) -> nat
    decreases b.len(),
{
    if b.len() == 0 {
        0
    } else {
        b[0] as nat + 256 * le_value(b.drop_first())
    }
}

/// The `n` little-endian bytes of `v`.
pub open spec fn le_bytes(v: nat, n: nat) -> Seq<u8>
    decreases n,
{
    if n == 0 {
        Seq::empty()
    } else {
        seq![(v % 256) as u8] + le_bytes(v / 256, (n - 1) as nat)
    }
}

/// `s` with the bytes from `offset` on replaced by `b`.
pub open spec fn splice(s: Seq<u8>, offset: int, b: Seq<u8>) -> Seq<u8> {
    s.subrange(0, offset) + b + s.subrange(offset + b.len(), s.len() as int)
}

/// Relies on byteorder's `LittleEndian::read_u16`: the two bytes at `offset`,
/// little-endian.
#[verifier::external_body]
pub(crate) fn read_u16_at(buf: &[u8], offset: usize) -> (r: u16)
    requires
        offset + 2 <= buf@.len(),
    ensures
        r as nat == le_value(buf@.subrange(offset as int, offset + 2)),
{
    LittleEndian::read_u16(&buf[offset..])
}

/// Relies on byteorder's `LittleEndian::read_u32`: the four bytes at
/// `offset`, little-endian.
#[verifier::external_body]
pub(crate) fn read_u32_at(buf: &[u8], offset: usize) -> (r: u32)
    requires
        offset + 4 <= buf@.len(),
    ensures
        r as nat == le_value(buf@.subrange(offset as int, offset + 4)),
{
    LittleEndian::read_u32(&buf[offset..])
}

/// Relies on byteorder's `LittleEndian::read_u64`: the eight bytes at
/// `offset`, little-endian.
#[verifier::external_body]
pub(crate) fn read_u64_at(buf: &[u8], offset: usize) -> (r: u64)
    requires
        offset + 8 <= buf@.len(),
    ensures
        r as nat == le_value(buf@.subrange(offset as int, offset + 8)),
{
    LittleEndian::read_u64(&buf[offset..])
}

/// Relies on byteorder's `LittleEndian::write_u16`: the two bytes at `offset`
/// become `n`, little-endian; the rest stays.
#[verifier::external_body]
pub(crate) fn write_u16_at(buf: &mut Vec<u8>, offset: usize, n: u16)
    requires
        offset + 2 <= old(buf)@.len(),
    ensures
        final(buf)@ == splice(old(buf)@, offset as int, le_bytes(n as nat, 2)),
{
    LittleEndian::write_u16(&mut buf[offset..], n)
}

/// Relies on byteorder's `LittleEndian::write_u32`: the four bytes at
/// `offset` become `n`, little-endian; the rest stays.
#[verifier::external_body]
pub(crate) fn write_u32_at(buf: &mut Vec<u8>, offset: usize, n: u32)
    requires
        offset + 4 <= old(buf)@.len(),
    ensures
        final(buf)@ == splice(old(buf)@, offset as int, le_bytes(n as nat, 4)),
{
    LittleEndian::write_u32(&mut buf[offset..], n)
}

/// Relies on byteorder's `LittleEndian::write_u64`: the eight bytes at
/// `offset` become `n`, little-endian; the rest stays.
#[verifier::external_body]
pub(crate) fn write_u64_at(buf: &mut Vec<u8>, offset: usize, n: u64)
    requires
        offset + 8 <= old(buf)@.len(),
    ensures
        final(buf)@ == splice(old(buf)@, offset as int, le_bytes(n as nat, 8)),
{
    LittleEndian::write_u64(&mut buf[offset..], n)
}

/// The little-endian `u16` in the first two bytes of `array`.
pub fn array_as_u16(array: &[u8]) -> (r: u16)
    requires
        array@.len() >= 2,
    ensures
        r as nat == le_value(array@.subrange(0, 2)),
{
    read_u16_at(array, 0)
}

/// The little-endian `u32` in the first four bytes of `array`.
pub fn array_as_u32(array: &[u8]) -> (r: u32)
    requires
        array@.len() >= 4,
    ensures
        r as nat == le_value(array@.subrange(0, 4)),
{
    read_u32_at(array, 0)
}

/// The little-endian `u64` in the first eight bytes of `array`.
pub fn array_as_u64(array: &[u8]) -> (r: u64)
    requires
        array@.len() >= 8,
    ensures
        r as nat == le_value(array@.subrange(0, 8)),
{
    read_u64_at(array, 0)
}

/// `le_bytes` gives as many bytes as asked.
pub proof fn lemma_le_bytes_len(v: nat, n: nat)
    ensures
        le_bytes(v, n).len() == n,
    decreases n,
{
    if n > 0 {
        lemma_le_bytes_len(v / 256, (n - 1) as nat);
    }
}

} // verus!
