//! The CRC-32 that protects a chunk's type and data.
//!
//! The checksum itself is computed by the `crc` crate. Nothing here proves
//! anything about that computation: the call is wrapped in a function whose
//! contract is believed, not checked, and everything else reasons from it.

use vstd::prelude::*;

verus! {

/// The CRC-32 (IEEE polynomial) of a byte sequence, as
/// `crc::crc32::checksum_ieee` computes it. It is a fixed function of the
/// bytes; nothing else is assumed about it.
pub uninterp spec fn crc32_ieee(bytes: Seq<u8>) -> u32;

/// Calls `crc::crc32::checksum_ieee`. That function folds the bytes through
/// a constant table, starting from zero: it reads nothing but its argument,
/// cannot fail, and so returns the same sum for the same bytes. That sum is
/// what `crc32_ieee` names.
#[verifier::external_body]
pub(crate) fn checksum_ieee(bytes: &[u8]) -> (sum: u32)
    ensures
        sum == crc32_ieee(bytes@),
{
    crc::crc32::checksum_ieee(bytes)
}

} // verus!
