use vstd::prelude::*;

verus! {

/// The CRC-32 (IEEE) checksum of a byte sequence, as the `crc32fast`
/// crate computes it. The value is a function of the bytes alone; the
/// contracts of this library only ever compare two applications of it.
pub uninterp spec fn crc32_of(data: Seq<u8>) -> u32;

/// Relies on `crc32fast::hash`: the CRC-32 (IEEE) checksum of `data`,
/// determined by the bytes alone.
#[verifier::external_body]
pub(crate) fn crc32(data: &Vec<u8>) -> (r: u32)
    ensures
        r == crc32_of(data@),
{
    crc32fast::hash(data.as_slice())
}

} // verus!
