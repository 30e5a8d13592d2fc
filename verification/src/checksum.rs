//! The CRC-32 digest (IEEE 802.3 polynomial) that guards each section of
//! the container.

use vstd::prelude::*;

verus! {

/// The CRC-32 digest, IEEE 802.3 polynomial, of a byte sequence.
pub uninterp spec fn crc32_of(bytes: Seq<u8>) -> u32;

/// Relies on crc::crc32::checksum_ieee: the IEEE-polynomial CRC-32 digest
/// of the bytes, a function of the bytes alone.
#[verifier::external_body]
pub(crate) fn crc32(data: &Vec<u8>) -> (r: u32)
    ensures
        r == crc32_of(data@),
{
    crc::crc32::checksum_ieee(data.as_slice())
}

} // verus!
