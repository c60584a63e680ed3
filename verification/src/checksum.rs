//! The checksum that guards the type and payload of every chunk.

use vstd::prelude::*;

verus! {

/// The CRC-32 checksum (IEEE polynomial) of `bytes`.
///
/// The value is computed by the `crc` crate and is not spelled out here: it is
/// a function of the bytes alone, and the contracts of this crate speak of it
/// by this name.
pub uninterp spec fn crc32_ieee(bytes: Seq<u8>) -> u32;

/// Computes the CRC-32 checksum (IEEE polynomial) of `bytes`.
///
/// Trusted: wraps `crc::crc32::checksum_ieee`, which runs its table-driven
/// update over the whole slice, starting from zero. It reads nothing but the
/// slice and cannot fail; the contract only gives its result the name above.
#[verifier::external_body]
pub(crate) fn checksum_ieee(bytes: &[u8]) -> (sum: u32)
    ensures
        sum == crc32_ieee(bytes@),
{
    crc::crc32::checksum_ieee(bytes)
}

} // verus!
