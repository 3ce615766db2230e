//! The CRC-32 checksum that guards every chunk, computed by the `crc`
//! crate and named here so that contracts can speak of it.

use vstd::prelude::*;

verus! {

/// The standard reflected CRC-32 checksum (the IEEE / 802.3 variant) of a
/// byte sequence. The checksum is a function of the bytes alone; nothing
/// more is assumed of it.
pub uninterp spec fn crc32_of(bytes: Seq<u8>) -> u32;

/// Relies on crc::crc32::checksum_ieee: the standard reflected CRC-32
/// checksum of the input, a pure function of the bytes alone.
#[verifier::external_body]
pub(crate) fn crc32_ieee(bytes: &[u8]) -> (r: u32)
    ensures
        r == crc32_of(bytes@),
{
    crc::crc32::checksum_ieee(bytes)
}

} // verus!
