//! The Internet Group Management Protocol.
use vstd::prelude::*;

use crate::time::Duration;
use crate::wire::ip::Ipv4Address;
use crate::wire::response_scale;

verus! {

/// The length of an IGMP message.
pub const IGMP_MESSAGE_LEN: usize = 8;

/// The version of the protocol that a message belongs to.
#[derive(Debug, Clone, Copy, PartialEq, Eq, Structural)]
pub enum IgmpVersion {
    Version1,
    Version2,
}

/// An IGMP message.
#[derive(Debug, Clone, Copy, PartialEq, Eq, Structural)]
pub enum IgmpRepr {
    MembershipQuery { max_resp_time: Duration, group_addr: Ipv4Address, version: IgmpVersion },
    MembershipReport { group_addr: Ipv4Address, version: IgmpVersion },
    LeaveGroup { group_addr: Ipv4Address },
}

/// The response time, in tenths of a second, that a query's code stands for: the code
/// itself below 128, from there a number with a four-bit mantissa and a three-bit exponent.
pub open spec fn response_deciseconds(code: u8) -> int {
    if code < 128 {
        code as int
    } else {
        (16 + code % 16) * vstd::arithmetic::power2::pow2((code / 16 % 8 + 3) as nat)
    }
}

/// The group address in the last four octets of a message.
pub open spec fn message_group(message: Seq<u8>) -> Ipv4Address {
    Ipv4Address {
        bits: (((message[4] * 256 + message[5]) * 256 + message[6]) * 256 + message[7]) as u32,
    }
}

/// The message that `message` spells, if it spells one: it must be eight octets long at
/// least, its group must be unspecified or multicast, and its type must be known.
pub open spec fn parsed(message: Seq<u8>) -> Option<IgmpRepr> {
    let group_addr = message_group(message);
    if message.len() < IGMP_MESSAGE_LEN || (!group_addr.spec_is_unspecified()
        && !group_addr.spec_is_multicast()) {
        None
    } else if message[0] == 0x11 {
        Some(
            IgmpRepr::MembershipQuery {
                max_resp_time: Duration {
                    micros: (response_deciseconds(message[1]) * 100_000) as u64,
                },
                group_addr,
                version: if message[1] == 0 {
                    IgmpVersion::Version1
                } else {
                    IgmpVersion::Version2
                },
            },
        )
    } else if message[0] == 0x12 {
        Some(IgmpRepr::MembershipReport { group_addr, version: IgmpVersion::Version1 })
    } else if message[0] == 0x16 {
        Some(IgmpRepr::MembershipReport { group_addr, version: IgmpVersion::Version2 })
    } else if message[0] == 0x17 {
        Some(IgmpRepr::LeaveGroup { group_addr })
    } else {
        None
    }
}

/// The response time that a query's code stands for.
pub fn max_resp_code_to_duration(code: u8) -> (time: Duration)
    ensures
        time.micros == response_deciseconds(code) * 100_000,
        time.micros <= 3_174_400_000,
{
    let value: u64 = code as u64;
    if value < 128 {
        return Duration::from_millis(value * 100);
    }
    let mantissa: u64 = value % 16;
    let scale: u64 = response_scale(value / 16 % 8);
    assert((16 + mantissa) * scale <= 31 * 1024) by (nonlinear_arith)
        requires
            mantissa <= 15,
            scale <= 1024,
    ;
    Duration::from_millis((16 + mantissa) * scale * 100)
}

impl IgmpRepr {
    /// Reads the message at the front of `message`.
    pub fn parse(message: &[u8]) -> (repr: Option<IgmpRepr>)
        ensures
            repr == parsed(message@),
            repr matches Some(IgmpRepr::MembershipQuery { max_resp_time, .. })
                ==> max_resp_time.micros <= 3_174_400_000,
    {
        if message.len() < IGMP_MESSAGE_LEN {
            return None;
        }
        let group_addr = Ipv4Address::new(message[4], message[5], message[6], message[7]);
        if !group_addr.is_unspecified() && !group_addr.is_multicast() {
            return None;
        }
        let code: u8 = message[1];
        match message[0] {
            0x11 => {
                let max_resp_time = max_resp_code_to_duration(code);
                let version = if code == 0 {
                    IgmpVersion::Version1
                } else {
                    IgmpVersion::Version2
                };
                Some(IgmpRepr::MembershipQuery { max_resp_time, group_addr, version })
            },
            0x12 => Some(
                IgmpRepr::MembershipReport { group_addr, version: IgmpVersion::Version1 },
            ),
            0x16 => Some(
                IgmpRepr::MembershipReport { group_addr, version: IgmpVersion::Version2 },
            ),
            0x17 => Some(IgmpRepr::LeaveGroup { group_addr }),
            _ => None,
        }
    }

    /// How many octets the message takes on the wire.
    pub fn buffer_len(&self) -> (len: usize)
        ensures
            len == IGMP_MESSAGE_LEN,
    {
        IGMP_MESSAGE_LEN
    }
}

/// A code below 128 stands for itself. From there sixteen codes in a row are a step apart, eight
/// at first, and the next sixteen stand for twice as much each: time never falls as the code
/// rises.
pub proof fn law_response_codes_double(code: u8)
    ensures
        code < 128 ==> response_deciseconds(code) == code,
        128 <= code < 144 ==> response_deciseconds(code) == 8 * (code - 112),
        128 <= code < 240 ==> response_deciseconds((code + 16) as u8) == 2
            * response_deciseconds(code),
        code < 255 ==> response_deciseconds(code) < response_deciseconds((code + 1) as u8),
        0 <= response_deciseconds(code) <= 31_744,
{
    vstd::arithmetic::power2::lemma2_to64();
    if code >= 128 {
        lemma_code_value(code);
        if code < 255 {
            lemma_code_value((code + 1) as u8);
        }
        if code < 240 {
            lemma_code_value((code + 16) as u8);
        }
    }
}

/// What a code stands for, case by case of its exponent.
proof fn lemma_code_value(code: u8)
    requires
        code >= 128,
    ensures
        response_deciseconds(code) == (16 + code % 16) * match code / 16 {
            8 => 8int,
            9 => 16,
            10 => 32,
            11 => 64,
            12 => 128,
            13 => 256,
            14 => 512,
            _ => 1024,
        },
{
    vstd::arithmetic::power2::lemma2_to64();
}

/// A message is read by its octets: the type first, the code of a query next, and the group in
/// the last four. What is shorter, of another type, or about an address that is neither
/// unspecified nor multicast is not read.
pub proof fn law_messages_are_read_by_their_octets(message: Seq<u8>, group: Ipv4Address)
    requires
        message.len() >= 8 ==> group.bits == message[4] * 0x100_0000 + message[5] * 0x1_0000
            + message[6] * 0x100 + message[7],
    ensures
        parsed(message) is Some <==> {
            &&& message.len() >= 8
            &&& message[0] == 0x11 || message[0] == 0x12 || message[0] == 0x16 || message[0]
                == 0x17
            &&& group.bits == 0 || 0xe000_0000 <= group.bits <= 0xefff_ffff
        },
        parsed(message) matches Some(repr) ==> {
            &&& message[0] == 0x11 ==> {
                &&& repr matches IgmpRepr::MembershipQuery { max_resp_time, group_addr, version }
                &&& group_addr == group
                &&& max_resp_time.micros == response_deciseconds(message[1]) * 100_000
                &&& (version == IgmpVersion::Version1) == (message[1] == 0)
            }
            &&& message[0] == 0x12 ==> repr == (IgmpRepr::MembershipReport {
                group_addr: group,
                version: IgmpVersion::Version1,
            })
            &&& message[0] == 0x16 ==> repr == (IgmpRepr::MembershipReport {
                group_addr: group,
                version: IgmpVersion::Version2,
            })
            &&& message[0] == 0x17 ==> repr == (IgmpRepr::LeaveGroup { group_addr: group })
        },
{
    if message.len() >= 8 {
        assert(message_group(message) == group);
        law_response_codes_double(message[1]);
    }
}

} // verus!
