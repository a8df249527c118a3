use vstd::prelude::*;

verus! {

/// The major component of a packed 64-bit device identifier, per the
/// historical bit-interleaved layout: bits 8..20 form the low part and bits
/// 44..64 the high part of the component.
pub open spec fn spec_major(dev: u64) -> u64 {
    ((dev & 0x00000000000fff00) >> 8) | ((dev & 0xfffff00000000000) >> 32)
}

/// The minor component of a packed 64-bit device identifier, per the
/// historical bit-interleaved layout: bits 0..8 form the low part and bits
/// 20..44 the high part of the component.
pub open spec fn spec_minor(dev: u64) -> u64 {
    (dev & 0x00000000000000ff) | ((dev & 0x00000ffffff00000) >> 12)
}

/// Extracts the major component of a packed 64-bit device identifier.
pub fn major(dev: u64) -> (r: u64)
    ensures
        r == spec_major(dev),
{
    ((dev & 0x00000000000fff00) >> 8) | ((dev & 0xfffff00000000000) >> 32)
}

/// Extracts the minor component of a packed 64-bit device identifier.
pub fn minor(dev: u64) -> (r: u64)
    ensures
        r == spec_minor(dev),
{
    (dev & 0x00000000000000ff) | ((dev & 0x00000ffffff00000) >> 12)
}

} // verus!
