//! Addresses and messages as they appear on the wire.
use vstd::prelude::*;

pub mod igmp;
pub mod ip;
pub mod mld;
pub mod tcp;

verus! {

/// The scale `2^(exponent + 3)` of the floating-point response codes that IGMP and MLD
/// share.
pub(crate) fn response_scale(exponent: u64) -> (scale: u64)
    requires
        exponent < 8,
    ensures
        scale == vstd::arithmetic::power2::pow2((exponent + 3) as nat),
        8 <= scale <= 1024,
{
    proof {
        vstd::arithmetic::power2::lemma2_to64();
    }
    match exponent {
        0 => 8,
        1 => 16,
        2 => 32,
        3 => 64,
        4 => 128,
        5 => 256,
        6 => 512,
        _ => 1024,
    }
}

} // verus!
