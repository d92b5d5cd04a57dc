use vstd::prelude::*;

verus! {

/// The CRC-32 (IEEE 802.3 polynomial) of a byte sequence.
pub uninterp spec fn crc32_ieee(b: Seq<u8>) -> u32;

/// Relies on `crc::crc32::checksum_ieee`: a total function of the bytes,
/// which computes their CRC-32 with the IEEE polynomial.
#[verifier::external_body]
pub(crate) fn checksum_ieee(bytes: &[u8]) -> (r: u32)
    ensures
        r == crc32_ieee(bytes@),
{
    crc::crc32::checksum_ieee(bytes)
}

} // verus!
