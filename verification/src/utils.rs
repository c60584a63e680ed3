//! Fixed-width helpers for the big-endian fields of the wire format.

use crate::error::PngError;
use vstd::prelude::*;

verus! {

/// The number that the first four bytes of `bytes` spell in big-endian order.
pub open spec fn be_value(bytes: Seq<u8>) -> int
    recommends
        bytes.len() >= 4,
{
    bytes[0] * 0x100_0000 + bytes[1] * 0x1_0000 + bytes[2] * 0x100 + bytes[3]
}

/// The four bytes that spell `value` in big-endian order.
pub open spec fn be_bytes(value: u32) -> Seq<u8> {
    seq![
        (value / 0x100_0000) as u8,
        (value / 0x1_0000 % 0x100) as u8,
        (value / 0x100 % 0x100) as u8,
        (value % 0x100) as u8,
    ]
}

/// Reading back the bytes written for a number gives that number.
pub proof fn lemma_be_value_of_bytes(value: u32)
    ensures
        be_bytes(value).len() == 4,
        be_value(be_bytes(value)) == value,
{
}

/// Writing the number read from four bytes gives those bytes back.
pub proof fn lemma_be_bytes_of_value(bytes: Seq<u8>)
    requires
        bytes.len() == 4,
    ensures
        0 <= be_value(bytes) <= u32::MAX,
        be_bytes(be_value(bytes) as u32) == bytes,
{
    let b0 = bytes[0] as int;
    let b1 = bytes[1] as int;
    let b2 = bytes[2] as int;
    let b3 = bytes[3] as int;
    let value = be_value(bytes);
    assert(value == b0 * 0x100_0000 + b1 * 0x1_0000 + b2 * 0x100 + b3);
    assert(value / 0x100_0000 == b0);
    assert(value / 0x1_0000 == b0 * 0x100 + b1);
    assert(value / 0x100 == b0 * 0x1_0000 + b1 * 0x100 + b2);
    assert(be_bytes(value as u32) =~= bytes);
}

/// Spells `value` as four bytes, most significant first.
pub fn u32_to_be_bytes(value: u32) -> (bytes: [u8; 4])
    ensures
        bytes@ == be_bytes(value),
{
    let bytes = [
        (value / 0x100_0000) as u8,
        (value / 0x1_0000 % 0x100) as u8,
        (value / 0x100 % 0x100) as u8,
        (value % 0x100) as u8,
    ];
    assert(bytes@ =~= be_bytes(value));
    bytes
}

/// Copies a slice of exactly four bytes into an array; any other length is
/// refused with `InvalidSegment`.
pub fn segment4(bytes: &[u8]) -> (segment: Result<[u8; 4], PngError>)
    ensures
        bytes@.len() == 4 ==> segment is Ok && segment->Ok_0@ == bytes@,
        bytes@.len() != 4 ==> segment == Err::<[u8; 4], PngError>(PngError::InvalidSegment),
{
    if bytes.len() != 4 {
        return Err(PngError::InvalidSegment);
    }
    let segment = [bytes[0], bytes[1], bytes[2], bytes[3]];
    assert(segment@ =~= bytes@);
    Ok(segment)
}

/// Reads the first four bytes of `buf` as a big-endian number; a shorter
/// buffer is refused with `InvalidSegment`.
pub fn ref_buffer_to_u32(buf: &[u8]) -> (value: Result<u32, PngError>)
    ensures
        buf@.len() >= 4 ==> value == Ok::<u32, PngError>(be_value(buf@) as u32),
        buf@.len() >= 4 ==> 0 <= be_value(buf@) <= u32::MAX,
        buf@.len() < 4 ==> value == Err::<u32, PngError>(PngError::InvalidSegment),
{
    if buf.len() < 4 {
        return Err(PngError::InvalidSegment);
    }
    let b0: u32 = buf[0] as u32;
    let b1: u32 = buf[1] as u32;
    let b2: u32 = buf[2] as u32;
    let b3: u32 = buf[3] as u32;
    Ok(b0 * 0x100_0000 + b1 * 0x1_0000 + b2 * 0x100 + b3)
}

} // verus!
