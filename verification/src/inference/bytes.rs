//! Little-endian numbers.

use byteorder::{LittleEndian, ReadBytesExt};
use vstd::prelude::*;

verus! {

/// The number that the first four bytes denote, the lowest byte first.
pub open spec fn le_u32(bytes: Seq<u8>) -> u32 {
    (bytes[0] + bytes[1] * 0x100 + bytes[2] * 0x1_0000 + bytes[3] * 0x100_0000) as u32
}

/// The number that the first eight bytes denote, the lowest byte first.
pub open spec fn le_u64(bytes: Seq<u8>) -> u64 {
    (le_u32(bytes) + le_u32(bytes.skip(4)) * 0x1_0000_0000) as u64
}

/// The number that the first four bytes denote in two's complement, the lowest byte first.
pub open spec fn le_i32(bytes: Seq<u8>) -> i32 {
    let raw = le_u32(bytes);
    if raw < 0x8000_0000 {
        raw as i32
    } else {
        (raw - 0x1_0000_0000) as i32
    }
}

/// `byteorder`'s `read_i32` in little-endian order on a slice: the number in its first four bytes,
/// in two's complement, or nothing where there are fewer.
#[verifier::external_body]
pub(crate) fn read_i32(bytes: &[u8]) -> (value: Option<i32>)
    ensures
        value == if bytes@.len() >= 4 { Some(le_i32(bytes@)) } else { None::<i32> },
{
    let mut reader: &[u8] = bytes;
    reader.read_i32::<LittleEndian>().ok()
}

/// `byteorder`'s `read_u32` in little-endian order on a slice: the number in its first four bytes,
/// or nothing where there are fewer.
#[verifier::external_body]
pub(crate) fn read_u32(bytes: &[u8]) -> (value: Option<u32>)
    ensures
        value == if bytes@.len() >= 4 { Some(le_u32(bytes@)) } else { None::<u32> },
{
    let mut reader: &[u8] = bytes;
    reader.read_u32::<LittleEndian>().ok()
}

/// `byteorder`'s `read_u64` in little-endian order on a slice: the number in its first eight bytes,
/// or nothing where there are fewer.
#[verifier::external_body]
pub(crate) fn read_u64(bytes: &[u8]) -> (value: Option<u64>)
    ensures
        value == if bytes@.len() >= 8 { Some(le_u64(bytes@)) } else { None::<u64> },
{
    let mut reader: &[u8] = bytes;
    reader.read_u64::<LittleEndian>().ok()
}

} // verus!
