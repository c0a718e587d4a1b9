//! The Multicast Listener Discovery protocol, version 2.
use vstd::prelude::*;

use crate::time::Duration;
use crate::wire::ip::Ipv6Address;
use crate::wire::response_scale;

verus! {

/// What an address record says of its group.
#[derive(Debug, Clone, Copy, PartialEq, Eq, Structural)]
pub enum MldRecordType {
    ModeIsInclude,
    ModeIsExclude,
    ChangeToInclude,
    ChangeToExclude,
    AllowNewSources,
    BlockOldSources,
}

/// One record of a listener report, without sources.
#[derive(Debug, Clone, Copy, PartialEq, Eq, Structural)]
pub struct MldAddressRecordRepr {
    pub record_type: MldRecordType,
    pub mcast_addr: Ipv6Address,
}

/// An MLD message, with the fields that a listener reads.
#[derive(Debug, Clone, Copy, PartialEq, Eq, Structural)]
pub enum MldRepr {
    Query { max_resp_code: u16, mcast_addr: Ipv6Address },
    Report { nr_mcast_addr_rcrds: u16 },
}

/// The response delay, in milliseconds, that a query's code stands for: the code itself
/// below 0x8000, from there a number with a twelve-bit mantissa and a three-bit exponent.
pub open spec fn response_millis(code: u16) -> int {
    if code < 0x8000 {
        code as int
    } else {
        (0x1000 + code % 0x1000) * vstd::arithmetic::power2::pow2((code / 0x1000 % 8 + 3) as nat)
    }
}

/// The longest response delay that a code can stand for, in milliseconds.
pub const MLD_MAX_RESPONSE_MILLIS: u64 = 8_387_584;

/// The response delay that a query's code stands for.
pub fn mldv2_max_resp_delay(code: u16) -> (delay: Duration)
    ensures
        delay.micros == response_millis(code) * 1000,
        delay.micros <= MLD_MAX_RESPONSE_MILLIS * 1000,
{
    let value: u64 = code as u64;
    if value < 0x8000 {
        return Duration::from_millis(value);
    }
    let mantissa: u64 = value % 0x1000;
    let scale: u64 = response_scale(value / 0x1000 % 8);
    assert((0x1000 + mantissa) * scale <= 8191 * 1024) by (nonlinear_arith)
        requires
            mantissa <= 0xfff,
            scale <= 1024,
    ;
    Duration::from_millis((0x1000 + mantissa) * scale)
}

impl MldAddressRecordRepr {
    /// A record of type `record_type` for the group `mcast_addr`.
    pub fn new(record_type: MldRecordType, mcast_addr: Ipv6Address) -> (record: Self)
        ensures
            record == (MldAddressRecordRepr { record_type, mcast_addr }),
    {
        MldAddressRecordRepr { record_type, mcast_addr }
    }
}

/// A code below 0x8000 stands for itself. From there 4096 codes in a row are a step apart, eight
/// at first, and the next 4096 stand for twice as much each: time never falls as the code rises.
pub proof fn law_response_codes_double(code: u16)
    ensures
        code < 0x8000 ==> response_millis(code) == code,
        0x8000 <= code < 0x9000 ==> response_millis(code) == 8 * (code - 0x7000),
        0x8000 <= code < 0xf000 ==> response_millis((code + 0x1000) as u16) == 2
            * response_millis(code),
        code < 0xffff ==> response_millis(code) < response_millis((code + 1) as u16),
        0 <= response_millis(code) <= MLD_MAX_RESPONSE_MILLIS,
        response_millis(code) == 0 <==> code == 0,
{
    vstd::arithmetic::power2::lemma2_to64();
    if code >= 0x8000 {
        lemma_code_value(code);
        if code < 0xffff {
            lemma_code_value((code + 1) as u16);
        }
        if code < 0xf000 {
            lemma_code_value((code + 0x1000) as u16);
        }
    }
}

/// What a code stands for, case by case of its exponent.
proof fn lemma_code_value(code: u16)
    requires
        code >= 0x8000,
    ensures
        response_millis(code) == (0x1000 + code % 0x1000) * match code / 0x1000 {
            8 => 8int,
            9 => 16,
            10 => 32,
            11 => 64,
            12 => 128,
            13 => 256,
            14 => 512,
            _ => 1024,
        },
{
    vstd::arithmetic::power2::lemma2_to64();
}

} // verus!
