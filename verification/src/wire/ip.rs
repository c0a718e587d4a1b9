//! Internet addresses.
use vstd::prelude::*;

verus! {

/// The group of all IPv4 systems on the link, 224.0.0.1.
pub const IPV4_MULTICAST_ALL_SYSTEMS: u32 = 0xe000_0001;

/// The group of all IPv4 routers on the link, 224.0.0.2.
pub const IPV4_MULTICAST_ALL_ROUTERS: u32 = 0xe000_0002;

/// The group of all IPv6 nodes on the link, ff02::1.
pub const IPV6_LINK_LOCAL_ALL_NODES: u128 = 0xff02_0000_0000_0000_0000_0000_0000_0001;

/// The upper 104 bits that the solicited-node groups share, ff02::1:ff00:0/104.
pub const IPV6_SOLICITED_NODE_PREFIX: u128 = 0xff02_0000_0000_0000_0000_0001_ff;

/// An IPv4 address, as the 32-bit number that its octets spell in network order.
#[derive(Debug, Clone, Copy, PartialEq, Eq, Structural)]
pub struct Ipv4Address {
    pub bits: u32,
}

/// An IPv6 address, as the 128-bit number that its octets spell in network order.
#[derive(Debug, Clone, Copy, PartialEq, Eq, Structural)]
pub struct Ipv6Address {
    pub bits: u128,
}

/// An address of either family.
#[derive(Debug, Clone, Copy, PartialEq, Eq, Structural)]
pub enum IpAddress {
    Ipv4(Ipv4Address),
    Ipv6(Ipv6Address),
}

/// An address with the length of its network prefix.
#[derive(Debug, Clone, Copy, PartialEq, Eq, Structural)]
pub struct IpCidr {
    pub address: IpAddress,
    pub prefix_len: u8,
}

/// The protocols that a packet of this library can announce.
#[derive(Debug, Clone, Copy, PartialEq, Eq, Structural)]
pub enum IpProtocol {
    Igmp,
    Icmpv6,
}

/// The fields of an IPv4 header.
#[derive(Debug, Clone, Copy, PartialEq, Eq, Structural)]
pub struct Ipv4Repr {
    pub src_addr: Ipv4Address,
    pub dst_addr: Ipv4Address,
    pub next_header: IpProtocol,
    pub payload_len: usize,
    pub hop_limit: u8,
}

/// The fields of an IPv6 header.
#[derive(Debug, Clone, Copy, PartialEq, Eq, Structural)]
pub struct Ipv6Repr {
    pub src_addr: Ipv6Address,
    pub dst_addr: Ipv6Address,
    pub next_header: IpProtocol,
    pub payload_len: usize,
    pub hop_limit: u8,
}

impl Ipv4Address {
    /// The address `a.b.c.d`.
    pub fn new(a: u8, b: u8, c: u8, d: u8) -> (addr: Ipv4Address)
        ensures
            addr.bits == ((a * 256 + b) * 256 + c) * 256 + d,
    {
        let high: u32 = (a as u32) * 256 + (b as u32);
        let low: u32 = (c as u32) * 256 + (d as u32);
        Ipv4Address { bits: high * 65536 + low }
    }

    /// Whether the address is 0.0.0.0.
    pub open spec fn spec_is_unspecified(self) -> bool {
        self.bits == 0
    }

    /// Whether the address lies in 224.0.0.0/4.
    pub open spec fn spec_is_multicast(self) -> bool {
        self.bits / 0x1000_0000 == 0xe
    }

    /// Whether the address is 0.0.0.0.
    pub fn is_unspecified(self) -> (r: bool)
        ensures
            r == self.spec_is_unspecified(),
    {
        self.bits == 0
    }

    /// Whether the address is a multicast address.
    pub fn is_multicast(self) -> (r: bool)
        ensures
            r == self.spec_is_multicast(),
    {
        self.bits / 0x1000_0000 == 0xe
    }
}

impl Ipv6Address {
    /// The address whose eight groups, from the left, are the arguments.
    pub fn new(a: u16, b: u16, c: u16, d: u16, e: u16, f: u16, g: u16, h: u16) -> (addr:
        Ipv6Address)
        ensures
            addr.bits == ((((((a * 0x1_0000 + b) * 0x1_0000 + c) * 0x1_0000 + d) * 0x1_0000 + e)
                * 0x1_0000 + f) * 0x1_0000 + g) * 0x1_0000 + h,
    {
        let ab: u128 = (a as u128) * 0x1_0000 + (b as u128);
        let abcd: u128 = (ab * 0x1_0000 + (c as u128)) * 0x1_0000 + (d as u128);
        let ef: u128 = (abcd * 0x1_0000 + (e as u128)) * 0x1_0000 + (f as u128);
        let gh: u128 = (ef * 0x1_0000 + (g as u128)) * 0x1_0000 + (h as u128);
        Ipv6Address { bits: gh }
    }

    /// Whether the address is `::`.
    pub open spec fn spec_is_unspecified(self) -> bool {
        self.bits == 0
    }

    /// Whether the address is `::1`.
    pub open spec fn spec_is_loopback(self) -> bool {
        self.bits == 1
    }

    /// Whether the address lies in ff00::/8.
    pub open spec fn spec_is_multicast(self) -> bool {
        self.bits / 0x100_0000_0000_0000_0000_0000_0000_0000 == 0xff
    }

    /// Whether the address is neither multicast nor unspecified.
    pub open spec fn spec_is_unicast(self) -> bool {
        !self.spec_is_multicast() && !self.spec_is_unspecified()
    }

    /// Whether the address lies in ff02::1:ff00:0/104.
    pub open spec fn spec_is_solicited_node_multicast(self) -> bool {
        self.bits / 0x100_0000 == IPV6_SOLICITED_NODE_PREFIX
    }

    /// The solicited-node group of the address: the common prefix, then the low 24 bits.
    pub open spec fn spec_solicited_node(self) -> Ipv6Address {
        Ipv6Address {
            bits: (IPV6_SOLICITED_NODE_PREFIX * 0x100_0000 + self.bits % 0x100_0000) as u128,
        }
    }

    /// Whether the address is `::`.
    pub fn is_unspecified(self) -> (r: bool)
        ensures
            r == self.spec_is_unspecified(),
    {
        self.bits == 0
    }

    /// Whether the address is the loopback address.
    pub fn is_loopback(self) -> (r: bool)
        ensures
            r == self.spec_is_loopback(),
    {
        self.bits == 1
    }

    /// Whether the address is a multicast address.
    pub fn is_multicast(self) -> (r: bool)
        ensures
            r == self.spec_is_multicast(),
    {
        self.bits / 0x100_0000_0000_0000_0000_0000_0000_0000 == 0xff
    }

    /// Whether the address is a unicast address.
    pub fn x_is_unicast(self) -> (r: bool)
        ensures
            r == self.spec_is_unicast(),
    {
        !self.is_multicast() && !self.is_unspecified()
    }

    /// Whether the address is a solicited-node group.
    pub fn is_solicited_node_multicast(self) -> (r: bool)
        ensures
            r == self.spec_is_solicited_node_multicast(),
    {
        self.bits / 0x100_0000 == IPV6_SOLICITED_NODE_PREFIX
    }

    /// The solicited-node group of the address.
    pub fn solicited_node(self) -> (group: Ipv6Address)
        ensures
            group == self.spec_solicited_node(),
            group.spec_is_solicited_node_multicast(),
            group.spec_is_multicast(),
    {
        Ipv6Address { bits: IPV6_SOLICITED_NODE_PREFIX * 0x100_0000 + self.bits % 0x100_0000 }
    }
}

impl From<Ipv4Address> for IpAddress {
    fn from(addr: Ipv4Address) -> (wrapped: IpAddress) {
        IpAddress::Ipv4(addr)
    }
}

impl vstd::std_specs::convert::FromSpecImpl<Ipv4Address> for IpAddress {
    open spec fn obeys_from_spec() -> bool {
        true
    }

    open spec fn from_spec(addr: Ipv4Address) -> IpAddress {
        IpAddress::Ipv4(addr)
    }
}

impl From<Ipv6Address> for IpAddress {
    fn from(addr: Ipv6Address) -> (wrapped: IpAddress) {
        IpAddress::Ipv6(addr)
    }
}

impl vstd::std_specs::convert::FromSpecImpl<Ipv6Address> for IpAddress {
    open spec fn obeys_from_spec() -> bool {
        true
    }

    open spec fn from_spec(addr: Ipv6Address) -> IpAddress {
        IpAddress::Ipv6(addr)
    }
}

impl IpAddress {
    /// Whether the address is a multicast address of its family.
    pub open spec fn spec_is_multicast(self) -> bool {
        match self {
            IpAddress::Ipv4(addr) => addr.spec_is_multicast(),
            IpAddress::Ipv6(addr) => addr.spec_is_multicast(),
        }
    }

    /// Whether the address is a multicast address of its family.
    pub fn is_multicast(self) -> (r: bool)
        ensures
            r == self.spec_is_multicast(),
    {
        match self {
            IpAddress::Ipv4(addr) => addr.is_multicast(),
            IpAddress::Ipv6(addr) => addr.is_multicast(),
        }
    }
}

/// The kinds of IPv4 address, by where they lie.
pub proof fn law_ipv4_kinds(addr: Ipv4Address)
    ensures
        addr.spec_is_unspecified() <==> addr.bits == 0,
        addr.spec_is_multicast() <==> 0xe000_0000 <= addr.bits <= 0xefff_ffff,
        IpAddress::Ipv4(addr).spec_is_multicast() == addr.spec_is_multicast(),
{
}

/// The kinds of IPv6 address, by where they lie.
pub proof fn law_ipv6_kinds(addr: Ipv6Address)
    ensures
        addr.spec_is_unspecified() <==> addr.bits == 0,
        addr.spec_is_loopback() <==> addr.bits == 1,
        addr.spec_is_multicast() <==> addr.bits >= 0xff00_0000_0000_0000_0000_0000_0000_0000,
        addr.spec_is_unicast() <==> 0 < addr.bits < 0xff00_0000_0000_0000_0000_0000_0000_0000,
        addr.spec_is_solicited_node_multicast() <==> 0xff02_0000_0000_0000_0000_0001_ff00_0000
            <= addr.bits <= 0xff02_0000_0000_0000_0000_0001_ffff_ffff,
        IpAddress::Ipv6(addr).spec_is_multicast() == addr.spec_is_multicast(),
{
}

/// Addresses have the same solicited-node group exactly where their low 24 bits are the same; it
/// is a solicited-node group and has these bits.
pub proof fn law_solicited_node_goes_by_low_bits(addr: Ipv6Address, other: Ipv6Address)
    ensures
        addr.spec_solicited_node().spec_is_solicited_node_multicast(),
        addr.spec_solicited_node().bits % 0x100_0000 == addr.bits % 0x100_0000,
        addr.spec_solicited_node() == other.spec_solicited_node() <==> addr.bits % 0x100_0000
            == other.bits % 0x100_0000,
{
}

} // verus!
