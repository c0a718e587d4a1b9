//! Multicast group membership of an interface.
use vstd::prelude::*;

use crate::iface::duty_laws;
use crate::iface::groups::{
    self, list_at, list_len, list_new, list_push, table_at, table_get, table_insert, table_len,
    table_new, table_remove, GroupList, GroupState, GroupTable,
};
use crate::iface::lemmas;
use crate::iface::model::{
    self, Delivery, EgressPhase, IgmpReportState, InterfaceView, MldReportState, PacketView,
    StateView, Transmission,
};
use crate::rand::Rand;
use crate::time::{Duration, Instant};
use crate::wire::igmp::{IgmpRepr, IgmpVersion};
use crate::wire::ip::{
    IpAddress, IpCidr, IpProtocol, Ipv4Address, Ipv4Repr, Ipv6Address, Ipv6Repr,
    IPV4_MULTICAST_ALL_ROUTERS, IPV4_MULTICAST_ALL_SYSTEMS, IPV6_LINK_LOCAL_ALL_NODES,
};
use crate::wire::mld::{mldv2_max_resp_delay, MldAddressRecordRepr, MldRecordType, MldRepr};

verus! {

/// Why a multicast group could not be joined or left.
#[derive(Debug, Clone, Copy, PartialEq, Eq, Structural)]
pub enum MulticastError {
    /// The table of joined multicast groups is already full.
    GroupTableFull,
    /// The address cannot be joined or left.
    Unaddressable,
}

/// The groups that an interface listens to, and the reports that it owes.
pub struct State {
    pub groups: GroupTable,
    /// When to report (all groups, or one) by IGMP.
    pub igmp_report_state: IgmpReportState,
    /// When to report (all groups, or one) by MLD.
    pub mld_report_state: MldReportState,
}

impl View for State {
    type V = StateView;

    open spec fn view(&self) -> StateView {
        StateView {
            groups: groups::table_entries(self.groups),
            igmp: self.igmp_report_state,
            mld: self.mld_report_state,
        }
    }
}

impl MulticastError {
    /// The name of the error.
    pub fn name(&self) -> (name: &'static str)
        ensures
            name@ == match *self {
                MulticastError::GroupTableFull => "GroupTableFull"@,
                MulticastError::Unaddressable => "Unaddressable"@,
            },
    {
        match self {
            MulticastError::GroupTableFull => "GroupTableFull",
            MulticastError::Unaddressable => "Unaddressable",
        }
    }
}

impl State {
    /// No groups, and nothing to report.
    pub fn new() -> (state: State)
        ensures
            state@ == (StateView {
                groups: Seq::empty(),
                igmp: IgmpReportState::Inactive,
                mld: MldReportState::Inactive,
            }),
            state@.wf(),
    {
        State {
            groups: table_new(),
            igmp_report_state: IgmpReportState::Inactive,
            mld_report_state: MldReportState::Inactive,
        }
    }

    /// Whether the group `addr` is listened to; one that is being left is not.
    pub fn has_multicast_group(&self, addr: IpAddress) -> (member: bool)
        requires
            self@.wf(),
        ensures
            member == model::is_member(self@.groups, addr),
    {
        let found = table_get(&self.groups, &addr);
        proof {
            let entries = self@.groups;
            if model::is_member(entries, addr) || found is Some {
                if model::is_member(entries, addr) {
                    let i = choose|i: int|
                        0 <= i < entries.len() && (#[trigger] entries[i]).0 == addr && entries[i].1
                            != GroupState::Leaving;
                    lemmas::lemma_entry_unique(entries, i);
                }
                lemmas::lemma_entry_index(entries, addr);
                let k = choose|k: int|
                    #[trigger] groups::first_entry(entries, addr, k) && entries[k].1 == found->0;
                lemmas::lemma_first_entry(entries, addr, k);
            }
        }
        match found {
            None => false,
            Some(GroupState::Joining) => true,
            Some(GroupState::Joined) => true,
            Some(GroupState::Leaving) => false,
        }
    }

    /// Asks for an MLD report of `group`, or of all groups, at `timeout` at the latest.
    pub fn schedule_mld_report(&mut self, group: Option<Ipv6Address>, timeout: Instant)
        ensures
            final(self)@ == (StateView {
                mld: model::rescheduled(old(self)@.mld, group, timeout),
                ..old(self)@
            }),
    {
        let (group, timeout) = match self.mld_report_state {
            MldReportState::Inactive => (group, timeout),
            MldReportState::ToGeneralQuery { timeout: pending_timeout } => (
                None,
                timeout.min(pending_timeout),
            ),
            MldReportState::ToSpecificQuery { group: pending_group, timeout: pending_timeout } => {
                let same = match group {
                    Some(group) => group == pending_group,
                    None => false,
                };
                (
                    if same {
                        group
                    } else {
                        None
                    },
                    timeout.min(pending_timeout),
                )
            },
        };
        self.mld_report_state =
        match group {
            Some(group) => MldReportState::ToSpecificQuery { group, timeout },
            None => MldReportState::ToGeneralQuery { timeout },
        };
    }

    /// When the state next wants to send a packet.
    pub fn poll_at(&self) -> (at: Option<Instant>)
        ensures
            at == model::work_due(self@),
            at is None <==> {
                &&& forall|i: int|
                    0 <= i < self@.groups.len() ==> (#[trigger] self@.groups[i]).1
                        == GroupState::Joined
                &&& self@.igmp == IgmpReportState::Inactive
                &&& self@.mld == MldReportState::Inactive
            },
            forall|due: Instant| #[trigger]
                duty_laws::reports_igmp_at(self@, due) && due.micros >= 0 ==> at is Some
                    && at->0.micros <= due.micros,
            forall|due: Instant| #[trigger]
                duty_laws::reports_mld_at(self@, due) && due.micros >= 0 ==> at is Some
                    && at->0.micros <= due.micros,
    {
        proof {
            duty_laws::law_poll_is_when_work_is_due(self@);
        }
        let ghost entries = self@.groups;
        let len: usize = table_len(&self.groups);
        let mut index: usize = 0;
        while index < len
            invariant
                entries == self@.groups,
                index <= len == entries.len(),
                forall|j: int| 0 <= j < index ==> (#[trigger] entries[j]).1 == GroupState::Joined,
            decreases len - index,
        {
            let (_, state) = table_at(&self.groups, index);
            if state != GroupState::Joined {
                assert(entries[index as int].1 != GroupState::Joined);
                return Some(Instant::from_micros(0));
            }
            index = index + 1;
        }
        let igmp = match self.igmp_report_state {
            IgmpReportState::Inactive => None,
            IgmpReportState::ToGeneralQuery { timeout, .. } => Some(timeout),
            IgmpReportState::ToSpecificQuery { timeout, .. } => Some(timeout),
        };
        let mld = match self.mld_report_state {
            MldReportState::Inactive => None,
            MldReportState::ToGeneralQuery { timeout } => Some(timeout),
            MldReportState::ToSpecificQuery { timeout, .. } => Some(timeout),
        };
        match (igmp, mld) {
            (Some(a), Some(b)) => Some(a.min(b)),
            (Some(a), None) => Some(a),
            (None, b) => b,
        }
    }

    /// The first group in the state `state`.
    fn find_in_state(&self, state: GroupState) -> (found: Option<IpAddress>)
        ensures
            match found {
                Some(addr) => {
                    &&& model::pending_index(self@.groups, state) matches Some(i)
                    &&& model::first_in_state(self@.groups, state, i)
                    &&& self@.groups[i].0 == addr
                },
                None => model::pending_index(self@.groups, state) is None,
            },
    {
        let ghost entries = self@.groups;
        let len: usize = table_len(&self.groups);
        let mut index: usize = 0;
        while index < len
            invariant
                entries == self@.groups,
                index <= len == entries.len(),
                forall|j: int| 0 <= j < index ==> (#[trigger] entries[j]).1 != state,
            decreases len - index,
        {
            let (addr, entry_state) = table_at(&self.groups, index);
            if entry_state == state {
                proof {
                    lemmas::lemma_pending(entries, state, index as int);
                }
                return Some(addr);
            }
            index = index + 1;
        }
        None
    }
}

/// A packet that the interface sends on behalf of its groups.
pub enum Packet {
    /// An IGMP message and the IPv4 header that it travels under.
    Igmp(Ipv4Repr, IgmpRepr),
    /// An MLDv2 listener report with these records.
    Mldv2Report(Vec<MldAddressRecordRepr>),
}

impl View for Packet {
    type V = PacketView;

    open spec fn view(&self) -> PacketView {
        match self {
            Packet::Igmp(ip, igmp) => PacketView::Igmp(*ip, *igmp),
            Packet::Mldv2Report(records) => PacketView::Mldv2Report(records@),
        }
    }
}

/// What an optional packet says.
pub open spec fn packet_view(packet: Option<Packet>) -> Option<PacketView> {
    match packet {
        Some(packet) => Some(packet@),
        None => None,
    }
}

/// A network device that packets are handed to.
pub trait Device {
    /// What the device was asked to send so far, and what it answered. This is history, which
    /// is spoken of in contracts alone: no device has to keep it at run time.
    open spec fn log(&self) -> Seq<Transmission> {
        arbitrary()
    }

    /// Asks the device to send `packet` at `timestamp`. The answer says whether it took it.
    fn transmit(&mut self, timestamp: Instant, packet: Packet) -> (taken: bool)
        ensures
            final(self).log() == old(self).log().push(
                Transmission { timestamp, packet: packet@, taken },
            ),
    ;
}

/// The part of an interface that reacts to packets.
pub struct InterfaceInner {
    pub now: Instant,
    pub rand: Rand,
    pub ip_addrs: Vec<IpCidr>,
    pub multicast: State,
}

/// A network interface.
pub struct Interface {
    pub inner: InterfaceInner,
}

impl View for InterfaceInner {
    type V = InterfaceView;

    open spec fn view(&self) -> InterfaceView {
        InterfaceView {
            now: self.now,
            rand: self.rand,
            addrs: self.ip_addrs@,
            multicast: self.multicast@,
        }
    }
}

impl View for Interface {
    type V = InterfaceView;

    open spec fn view(&self) -> InterfaceView {
        self.inner@
    }
}

impl Interface {
    /// An interface with the addresses `ip_addrs`, at time `now`, that is a member of no
    /// group; `seed` starts its generator.
    pub fn new(now: Instant, seed: u64, ip_addrs: Vec<IpCidr>) -> (iface: Interface)
        ensures
            iface@ == (InterfaceView {
                now,
                rand: Rand { state: seed },
                addrs: ip_addrs@,
                multicast: StateView {
                    groups: Seq::empty(),
                    igmp: IgmpReportState::Inactive,
                    mld: MldReportState::Inactive,
                },
            }),
            iface@.wf(),
    {
        Interface {
            inner: InterfaceInner {
                now,
                rand: Rand::new(seed),
                ip_addrs,
                multicast: State::new(),
            },
        }
    }

    /// Adds an address to the multicast groups that are listened to.
    pub fn join_multicast_group(&mut self, addr: IpAddress) -> (r: Result<(), MulticastError>)
        requires
            old(self)@.wf(),
        ensures
            final(self)@.wf(),
            !addr.spec_is_multicast() ==> r == Err::<(), _>(MulticastError::Unaddressable)
                && final(self)@ == old(self)@,
            addr.spec_is_multicast() ==> match model::joined(old(self)@.multicast.groups, addr) {
                Some(groups) => r == Ok::<_, MulticastError>(()) && final(self)@ == old(
                    self,
                )@.with_groups(groups),
                None => r == Err::<(), _>(MulticastError::GroupTableFull) && final(self)@ == old(
                    self,
                )@,
            },
    {
        if !addr.is_multicast() {
            return Err(MulticastError::Unaddressable);
        }
        let ghost entries = self@.multicast.groups;
        match table_get(&self.inner.multicast.groups, &addr) {
            Some(state) => {
                let next = match state {
                    GroupState::Joining => GroupState::Joining,
                    GroupState::Joined => GroupState::Joined,
                    GroupState::Leaving => GroupState::Joined,
                };
                let _ = table_insert(&mut self.inner.multicast.groups, addr, next);
                proof {
                    let i = choose|i: int|
                        #[trigger] groups::first_entry(entries, addr, i) && entries[i].1 == state;
                    lemmas::lemma_first_entry(entries, addr, i);
                    lemmas::lemma_update_distinct(entries, i, next);
                    if state != GroupState::Leaving {
                        assert(entries.update(i, (addr, next)) =~= entries);
                    }
                }
                Ok(())
            },
            None => {
                proof {
                    lemmas::lemma_push_distinct(entries, addr, GroupState::Joining);
                }
                if table_insert(&mut self.inner.multicast.groups, addr, GroupState::Joining) {
                    Ok(())
                } else {
                    Err(MulticastError::GroupTableFull)
                }
            },
        }
    }

    /// Removes an address from the multicast groups that are listened to.
    pub fn leave_multicast_group(&mut self, addr: IpAddress) -> (r: Result<(), MulticastError>)
        requires
            old(self)@.wf(),
        ensures
            final(self)@.wf(),
            !addr.spec_is_multicast() ==> r == Err::<(), _>(MulticastError::Unaddressable)
                && final(self)@ == old(self)@,
            addr.spec_is_multicast() ==> r == Ok::<_, MulticastError>(()) && final(self)@ == old(
                self,
            )@.with_groups(model::left(old(self)@.multicast.groups, addr)),
    {
        if !addr.is_multicast() {
            return Err(MulticastError::Unaddressable);
        }
        let ghost entries = self@.multicast.groups;
        if let Some(state) = table_get(&self.inner.multicast.groups, &addr) {
            let ghost i = choose|i: int|
                #[trigger] groups::first_entry(entries, addr, i) && entries[i].1 == state;
            proof {
                lemmas::lemma_first_entry(entries, addr, i);
                lemmas::lemma_removed_distinct(entries, i);
                lemmas::lemma_update_distinct(entries, i, GroupState::Leaving);
            }
            match state {
                GroupState::Joining => {
                    let _ = table_remove(&mut self.inner.multicast.groups, &addr);
                },
                GroupState::Joined | GroupState::Leaving => {
                    let _ = table_insert(
                        &mut self.inner.multicast.groups,
                        addr,
                        GroupState::Leaving,
                    );
                },
            }
        }
        Ok(())
    }

    /// Whether the interface listens to the multicast address `addr`.
    pub fn has_multicast_group(&self, addr: IpAddress) -> (member: bool)
        requires
            self@.wf(),
        ensures
            member == model::is_member(self@.multicast.groups, addr),
    {
        self.inner.has_multicast_group(addr)
    }

    /// Makes the solicited-node groups follow the interface's addresses: leaves those that
    /// no address has any more, and joins those that the addresses want.
    pub fn update_solicited_node_groups(&mut self)
        requires
            old(self)@.wf(),
        ensures
            final(self)@ == old(self)@.with_groups(
                model::solicited_updated(old(self)@.multicast.groups, old(self)@.addrs),
            ),
            final(self)@.wf(),
    {
        let removals = self.stale_solicited_node_groups();
        let ghost stale = groups::list_items(removals);
        let removal_count: usize = list_len(&removals);
        let mut index: usize = 0;
        while index < removal_count
            invariant
                self@.wf(),
                index <= removal_count == stale.len(),
                stale == groups::list_items(removals),
                forall|j: int| 0 <= j < stale.len() ==> (#[trigger] stale[j]).spec_is_multicast(),
                self@ == old(self)@.with_groups(
                    model::left_all(old(self)@.multicast.groups, stale.take(index as int)),
                ),
            decreases removal_count - index,
        {
            assert(stale.take(index + 1).drop_last() =~= stale.take(index as int));
            let removal = list_at(&removals, index);
            let _ = self.leave_multicast_group(IpAddress::Ipv6(removal));
            index = index + 1;
        }
        assert(stale.take(stale.len() as int) =~= stale);
        let ghost kept = self@.multicast.groups;
        let ghost addrs = old(self)@.addrs;
        let mut next: usize = 0;
        while next < self.inner.ip_addrs.len()
            invariant
                self@.wf(),
                next <= self.inner.ip_addrs@.len(),
                addrs == old(self)@.addrs,
                self@ == old(self)@.with_groups(
                    model::joined_wanted(kept, addrs.take(next as int)),
                ),
            decreases addrs.len() - next,
        {
            assert(addrs.take(next + 1).drop_last() =~= addrs.take(next as int));
            if let IpAddress::Ipv6(addr) = self.inner.ip_addrs[next].address {
                if addr.x_is_unicast() && !addr.is_loopback() {
                    let _ = self.join_multicast_group(IpAddress::Ipv6(addr.solicited_node()));
                }
            }
            next = next + 1;
        }
        assert(addrs.take(addrs.len() as int) =~= addrs);
    }

    /// The solicited-node groups that no address of the interface has, in table order.
    fn stale_solicited_node_groups(&self) -> (removals: GroupList)
        ensures
            groups::list_items(removals) == model::stale_groups(
                self@.multicast.groups,
                self@.addrs,
            ),
            forall|j: int|
                0 <= j < groups::list_items(removals).len() ==> (#[trigger] groups::list_items(
                    removals,
                )[j]).spec_is_multicast(),
    {
        let ghost entries = self@.multicast.groups;
        let len: usize = table_len(&self.inner.multicast.groups);
        let mut removals = list_new();
        let mut index: usize = 0;
        while index < len
            invariant
                entries == self@.multicast.groups,
                index <= len == entries.len(),
                len <= crate::config::IFACE_MAX_MULTICAST_GROUP_COUNT,
                groups::list_items(removals) == model::stale_groups(
                    entries.take(index as int),
                    self@.addrs,
                ),
                groups::list_items(removals).len() <= index,
                forall|j: int|
                    0 <= j < groups::list_items(removals).len() ==> (#[trigger] groups::list_items(
                        removals,
                    )[j]).spec_is_multicast(),
            decreases len - index,
        {
            assert(entries.take(index + 1).drop_last() =~= entries.take(index as int));
            let (addr, _) = table_at(&self.inner.multicast.groups, index);
            if let IpAddress::Ipv6(addr) = addr {
                if addr.is_solicited_node_multicast() && !self.inner.has_solicited_node(addr) {
                    let _ = list_push(&mut removals, addr);
                }
            }
            index = index + 1;
        }
        assert(entries.take(len as int) =~= entries);
        removals
    }
}

impl InterfaceInner {
    /// Whether the interface listens to the multicast address `addr`.
    pub fn has_multicast_group(&self, addr: IpAddress) -> (member: bool)
        requires
            self@.wf(),
        ensures
            member == model::is_member(self@.multicast.groups, addr),
    {
        self.multicast.has_multicast_group(addr)
    }

    /// The first IPv4 address of the interface.
    pub fn ipv4_addr(&self) -> (addr: Option<Ipv4Address>)
        ensures
            addr == model::interface_ipv4(self@.addrs),
    {
        let mut index: usize = 0;
        assert(self.ip_addrs@.skip(0) =~= self.ip_addrs@);
        while index < self.ip_addrs.len()
            invariant
                index <= self.ip_addrs@.len(),
                model::interface_ipv4(self.ip_addrs@) == model::interface_ipv4(
                    self.ip_addrs@.skip(index as int),
                ),
            decreases self.ip_addrs.len() - index,
        {
            assert(self.ip_addrs@.skip(index as int).drop_first() =~= self.ip_addrs@.skip(
                index + 1,
            ));
            if let IpAddress::Ipv4(addr) = self.ip_addrs[index].address {
                return Some(addr);
            }
            index = index + 1;
        }
        None
    }

    /// Whether the interface has the address `addr`.
    pub fn has_ip_addr(&self, addr: IpAddress) -> (owned: bool)
        ensures
            owned == model::owns(self@.addrs, addr),
    {
        let mut index: usize = 0;
        while index < self.ip_addrs.len()
            invariant
                index <= self.ip_addrs@.len(),
                forall|j: int| 0 <= j < index ==> (#[trigger] self.ip_addrs@[j]).address != addr,
            decreases self.ip_addrs.len() - index,
        {
            if self.ip_addrs[index].address == addr {
                return true;
            }
            index = index + 1;
        }
        false
    }

    /// Whether `group` is the solicited-node group of an address, other than loopback, that
    /// the interface has.
    pub fn has_solicited_node(&self, group: Ipv6Address) -> (solicited: bool)
        ensures
            solicited == model::solicits(self@.addrs, group),
    {
        let mut index: usize = 0;
        while index < self.ip_addrs.len()
            invariant
                index <= self.ip_addrs@.len(),
                forall|j: int|
                    0 <= j < index ==> model::solicited_group(
                        (#[trigger] self.ip_addrs@[j]).address,
                    ) != Some(group),
            decreases self.ip_addrs.len() - index,
        {
            if let IpAddress::Ipv6(addr) = self.ip_addrs[index].address {
                if !addr.is_loopback() && addr.solicited_node() == group {
                    return true;
                }
            }
            index = index + 1;
        }
        false
    }

    /// The IPv4 groups, in table order.
    fn ipv4_groups(&self) -> (addrs: Vec<Ipv4Address>)
        ensures
            addrs@ == model::ipv4_groups(self@.multicast.groups),
            addrs@.len() <= crate::config::IFACE_MAX_MULTICAST_GROUP_COUNT,
    {
        let ghost entries = self@.multicast.groups;
        let len: usize = table_len(&self.multicast.groups);
        let mut addrs: Vec<Ipv4Address> = Vec::new();
        let mut index: usize = 0;
        while index < len
            invariant
                entries == self@.multicast.groups,
                index <= len == entries.len(),
                addrs@ == model::ipv4_groups(entries.take(index as int)),
                addrs@.len() <= index,
            decreases len - index,
        {
            assert(entries.take(index + 1).drop_last() =~= entries.take(index as int));
            let (addr, _) = table_at(&self.multicast.groups, index);
            if let IpAddress::Ipv4(addr) = addr {
                addrs.push(addr);
            }
            index = index + 1;
        }
        assert(entries.take(len as int) =~= entries);
        addrs
    }

    /// Whether there is an entry for an IPv6 group.
    fn has_ipv6_group(&self) -> (found: bool)
        ensures
            found == model::has_ipv6_group(self@.multicast.groups),
    {
        let ghost entries = self@.multicast.groups;
        let len: usize = table_len(&self.multicast.groups);
        let mut index: usize = 0;
        while index < len
            invariant
                entries == self@.multicast.groups,
                index <= len == entries.len(),
                forall|j: int| 0 <= j < index ==> !((#[trigger] entries[j]).0 is Ipv6),
            decreases len - index,
        {
            let (addr, _) = table_at(&self.multicast.groups, index);
            if let IpAddress::Ipv6(_) = addr {
                assert(entries[index as int].0 is Ipv6);
                return true;
            }
            index = index + 1;
        }
        false
    }

    /// The IPv6 groups that are listened to, in table order.
    fn listened_groups(&self) -> (listened: GroupList)
        ensures
            groups::list_items(listened) == model::listened_groups(self@.multicast.groups),
            self@.wf() ==> groups::list_items(listened).no_duplicates(),
            self@.wf() ==> forall|addr: Ipv6Address| #[trigger]
                groups::list_items(listened).contains(addr) == model::is_member(
                    self@.multicast.groups,
                    IpAddress::Ipv6(addr),
                ),
    {
        let ghost entries = self@.multicast.groups;
        let len: usize = table_len(&self.multicast.groups);
        let mut listened = list_new();
        let mut index: usize = 0;
        while index < len
            invariant
                entries == self@.multicast.groups,
                index <= len == entries.len(),
                len <= crate::config::IFACE_MAX_MULTICAST_GROUP_COUNT,
                groups::list_items(listened) == model::listened_groups(
                    entries.take(index as int),
                ),
                groups::list_items(listened).len() <= index,
            decreases len - index,
        {
            assert(entries.take(index + 1).drop_last() =~= entries.take(index as int));
            let (addr, state) = table_at(&self.multicast.groups, index);
            if let IpAddress::Ipv6(addr) = addr {
                if state != GroupState::Leaving {
                    let _ = list_push(&mut listened, addr);
                }
            }
            index = index + 1;
        }
        assert(entries.take(len as int) =~= entries);
        proof {
            if self@.wf() {
                duty_laws::law_listened_groups_are_the_members(entries);
            }
        }
        listened
    }

    /// The records of a report of all IPv6 groups that are listened to, in table order.
    fn listener_records(&self) -> (records: Vec<MldAddressRecordRepr>)
        ensures
            records@ == model::listener_records(self@.multicast.groups),
    {
        let listened = self.listened_groups();
        let ghost addrs = groups::list_items(listened);
        let len: usize = list_len(&listened);
        let mut records: Vec<MldAddressRecordRepr> = Vec::new();
        let mut index: usize = 0;
        while index < len
            invariant
                addrs == groups::list_items(listened),
                index <= len == addrs.len(),
                records@ == model::records_of(addrs.take(index as int)),
            decreases len - index,
        {
            let addr = list_at(&listened, index);
            records.push(MldAddressRecordRepr::new(MldRecordType::ModeIsExclude, addr));
            index = index + 1;
            assert(records@ =~= model::records_of(addrs.take(index as int)));
        }
        assert(addrs.take(len as int) =~= addrs);
        records
    }

    /// Host duties of the IGMPv2 protocol: schedules the reports that a general or a
    /// group-specific membership query asks for. There is no immediate answer.
    pub fn process_igmp(&mut self, ipv4_repr: Ipv4Repr, ip_payload: &[u8]) -> (answer: Option<
        Packet,
    >)
        requires
            old(self)@.wf(),
            old(self)@.clock_has_room(),
        ensures
            answer is None,
            final(self)@ == model::igmp_heard(old(self)@, ipv4_repr.dst_addr, ip_payload@),
            final(self)@.wf(),
    {
        match IgmpRepr::parse(ip_payload) {
            Some(IgmpRepr::MembershipQuery { max_resp_time, group_addr, version }) => {
                if group_addr.is_unspecified() && ipv4_repr.dst_addr.bits
                    == IPV4_MULTICAST_ALL_SYSTEMS {
                    // General query: is there any group to report?
                    let count: usize = self.ipv4_groups().len();
                    if count != 0 {
                        let interval = match version {
                            IgmpVersion::Version1 => Duration::from_millis(100),
                            // Spread the reports evenly over the response time.
                            IgmpVersion::Version2 => {
                                let intervals: u32 = (count as u32) + 1;
                                proof {
                                    vstd::arithmetic::div_mod::lemma_div_is_ordered_by_denominator(
                                        max_resp_time.micros as int,
                                        1,
                                        intervals as int,
                                    );
                                }
                                max_resp_time.divided_by(intervals)
                            },
                        };
                        self.multicast.igmp_report_state =
                        IgmpReportState::ToGeneralQuery {
                            version,
                            timeout: self.now.after(interval),
                            interval,
                            next_index: 0,
                        };
                    }
                } else if self.has_multicast_group(IpAddress::Ipv4(group_addr))
                    && ipv4_repr.dst_addr == group_addr {
                    // Group-specific query: do not respond immediately.
                    let timeout = max_resp_time.divided_by(4);
                    self.multicast.igmp_report_state =
                    IgmpReportState::ToSpecificQuery {
                        version,
                        timeout: self.now.after(timeout),
                        group: group_addr,
                    };
                }
            },
            // Other hosts' reports and leaves are ignored, as is what cannot be read.
            _ => {},
        }
        None
    }

    /// The membership report for `group_addr`, if the interface has an IPv4 address.
    pub fn igmp_report_packet(&self, version: IgmpVersion, group_addr: Ipv4Address) -> (packet:
        Option<Packet>)
        ensures
            packet_view(packet) == model::report_packet(self@.addrs, version, group_addr),
    {
        match self.ipv4_addr() {
            Some(src_addr) => {
                let igmp_repr = IgmpRepr::MembershipReport { group_addr, version };
                let ip_repr = Ipv4Repr {
                    src_addr,
                    // Send to the group being reported.
                    dst_addr: group_addr,
                    next_header: IpProtocol::Igmp,
                    payload_len: igmp_repr.buffer_len(),
                    hop_limit: 1,
                };
                Some(Packet::Igmp(ip_repr, igmp_repr))
            },
            None => None,
        }
    }

    /// The notice that `group_addr` is left, if the interface has an IPv4 address.
    pub fn igmp_leave_packet(&self, group_addr: Ipv4Address) -> (packet: Option<Packet>)
        ensures
            packet_view(packet) == model::leave_packet(self@.addrs, group_addr),
    {
        match self.ipv4_addr() {
            Some(src_addr) => {
                let igmp_repr = IgmpRepr::LeaveGroup { group_addr };
                let ip_repr = Ipv4Repr {
                    src_addr,
                    dst_addr: Ipv4Address { bits: IPV4_MULTICAST_ALL_ROUTERS },
                    next_header: IpProtocol::Igmp,
                    payload_len: igmp_repr.buffer_len(),
                    hop_limit: 1,
                };
                Some(Packet::Igmp(ip_repr, igmp_repr))
            },
            None => None,
        }
    }

    /// The listener report with a single record.
    fn mldv2_single_report(record_type: MldRecordType, mcast_addr: Ipv6Address) -> (packet: Packet)
        ensures
            packet@ == model::single_record(record_type, mcast_addr),
    {
        let mut records: Vec<MldAddressRecordRepr> = Vec::new();
        records.push(MldAddressRecordRepr::new(record_type, mcast_addr));
        Packet::Mldv2Report(records)
    }

    /// Host duties of the MLDv2 protocol: schedules the reports that a general or a
    /// group-specific query asks for, after a random delay so that a query does not have the
    /// whole link answer at once. There is no immediate answer.
    pub fn process_mldv2(&mut self, ip_repr: Ipv6Repr, repr: MldRepr) -> (answer: Option<Packet>)
        requires
            old(self)@.wf(),
            old(self)@.clock_has_room(),
        ensures
            answer is None,
            final(self)@ == model::mld_heard(old(self)@, ip_repr.dst_addr, repr),
            final(self)@.wf(),
    {
        match repr {
            MldRepr::Query { mcast_addr, max_resp_code } => {
                let max_delay: u64 = mldv2_max_resp_delay(max_resp_code).total_millis();
                let delay = if max_delay == 0 {
                    Duration::from_micros(0)
                } else {
                    let drawn: u64 = self.rand.rand_u32() as u64;
                    Duration::from_millis(1 + drawn % max_delay)
                };
                assert(delay == model::report_delay(old(self).rand, max_resp_code));
                let timeout = self.now.after(delay);
                if mcast_addr.is_unspecified() && (ip_repr.dst_addr.bits
                    == IPV6_LINK_LOCAL_ALL_NODES || self.has_ip_addr(
                    IpAddress::Ipv6(ip_repr.dst_addr),
                )) {
                    // General query: is there any group to report?
                    if self.has_ipv6_group() {
                        self.multicast.schedule_mld_report(None, timeout);
                    }
                }
                if self.has_multicast_group(IpAddress::Ipv6(mcast_addr)) && ip_repr.dst_addr
                    == mcast_addr {
                    self.multicast.schedule_mld_report(Some(mcast_addr), timeout);
                }
                None
            },
            MldRepr::Report { .. } => None,
        }
    }
}

impl Interface {
    /// The packet that an egress pass in `phase` asks the device to transmit, if any.
    pub fn egress_request(&self, phase: EgressPhase) -> (packet: Option<Packet>)
        requires
            self@.wf(),
        ensures
            packet_view(packet) == model::egress_request(self@, phase),
    {
        match phase {
            EgressPhase::Join => match self.inner.multicast.find_in_state(GroupState::Joining) {
                Some(IpAddress::Ipv4(addr)) => self.inner.igmp_report_packet(
                    IgmpVersion::Version2,
                    addr,
                ),
                Some(IpAddress::Ipv6(addr)) => Some(
                    InterfaceInner::mldv2_single_report(MldRecordType::ChangeToInclude, addr),
                ),
                None => None,
            },
            EgressPhase::Leave => match self.inner.multicast.find_in_state(GroupState::Leaving) {
                Some(IpAddress::Ipv4(addr)) => self.inner.igmp_leave_packet(addr),
                Some(IpAddress::Ipv6(addr)) => Some(
                    InterfaceInner::mldv2_single_report(MldRecordType::ChangeToExclude, addr),
                ),
                None => None,
            },
            EgressPhase::IgmpReport => self.igmp_report_request(),
            EgressPhase::MldReport => self.mld_report_request(),
            EgressPhase::Done => None,
        }
    }

    /// The IGMP report to transmit, if one is due.
    fn igmp_report_request(&self) -> (packet: Option<Packet>)
        ensures
            packet_view(packet) == model::egress_request(self@, EgressPhase::IgmpReport),
    {
        match self.inner.multicast.igmp_report_state {
            IgmpReportState::ToSpecificQuery { version, timeout, group } => {
                if self.inner.now.reached(timeout) {
                    self.inner.igmp_report_packet(version, group)
                } else {
                    None
                }
            },
            IgmpReportState::ToGeneralQuery { version, timeout, next_index, .. } => {
                let groups = self.inner.ipv4_groups();
                if self.inner.now.reached(timeout) && next_index < groups.len() {
                    self.inner.igmp_report_packet(version, groups[next_index])
                } else {
                    None
                }
            },
            IgmpReportState::Inactive => None,
        }
    }

    /// The MLD report to transmit, if one is due and there is anything to report.
    fn mld_report_request(&self) -> (packet: Option<Packet>)
        requires
            self@.wf(),
        ensures
            packet_view(packet) == model::egress_request(self@, EgressPhase::MldReport),
    {
        match self.inner.multicast.mld_report_state {
            MldReportState::ToGeneralQuery { timeout } => {
                let records = self.inner.listener_records();
                if self.inner.now.reached(timeout) && records.len() > 0 {
                    Some(Packet::Mldv2Report(records))
                } else {
                    None
                }
            },
            MldReportState::ToSpecificQuery { group, timeout } => {
                if self.inner.now.reached(timeout) && self.has_multicast_group(
                    IpAddress::Ipv6(group),
                ) {
                    Some(InterfaceInner::mldv2_single_report(MldRecordType::ModeIsExclude, group))
                } else {
                    None
                }
            },
            MldReportState::Inactive => None,
        }
    }

    /// Goes on with an egress pass in `phase` once the packet that it asked for, if any, was
    /// sent or refused. The result is the phase that follows.
    pub fn egress_advance(&mut self, phase: EgressPhase, delivery: Delivery) -> (next: EgressPhase)
        requires
            old(self)@.wf(),
            old(self)@.clock_has_room(),
            delivery is Nothing <==> model::egress_request(old(self)@, phase) is None,
        ensures
            (final(self)@, next) == model::egress_next(old(self)@, phase, delivery is Sent),
            final(self)@.wf(),
            final(self)@.clock_has_room(),
    {
        match phase {
            EgressPhase::Join => self.advance_join(delivery),
            EgressPhase::Leave => self.advance_leave(delivery),
            EgressPhase::IgmpReport => {
                self.advance_igmp_report(delivery);
                EgressPhase::MldReport
            },
            EgressPhase::MldReport => {
                let due = match self.inner.multicast.mld_report_state {
                    MldReportState::ToGeneralQuery { timeout } => self.inner.now.reached(timeout),
                    MldReportState::ToSpecificQuery { timeout, .. } => self.inner.now.reached(
                        timeout,
                    ),
                    MldReportState::Inactive => false,
                };
                if due && delivery != Delivery::Refused {
                    self.inner.multicast.mld_report_state = MldReportState::Inactive;
                }
                EgressPhase::Done
            },
            EgressPhase::Done => EgressPhase::Done,
        }
    }

    /// Marks the first group that is being joined as joined, unless its packet was refused.
    fn advance_join(&mut self, delivery: Delivery) -> (next: EgressPhase)
        requires
            old(self)@.wf(),
            old(self)@.clock_has_room(),
            delivery is Nothing <==> model::egress_request(old(self)@, EgressPhase::Join) is None,
        ensures
            (final(self)@, next) == model::egress_next(
                old(self)@,
                EgressPhase::Join,
                delivery is Sent,
            ),
            final(self)@.wf(),
            final(self)@.clock_has_room(),
    {
        let ghost entries = self@.multicast.groups;
        if let Some(addr) = self.inner.multicast.find_in_state(GroupState::Joining) {
            if delivery != Delivery::Refused {
                proof {
                    let i = model::pending_index(entries, GroupState::Joining)->0;
                    lemmas::lemma_entry_unique(entries, i);
                    lemmas::lemma_update_distinct(entries, i, GroupState::Joined);
                }
                let _ = table_insert(&mut self.inner.multicast.groups, addr, GroupState::Joined);
                return EgressPhase::Join;
            }
        }
        EgressPhase::Leave
    }

    /// Drops the first group that is being left, unless its packet was refused.
    fn advance_leave(&mut self, delivery: Delivery) -> (next: EgressPhase)
        requires
            old(self)@.wf(),
            old(self)@.clock_has_room(),
            delivery is Nothing <==> model::egress_request(old(self)@, EgressPhase::Leave) is None,
        ensures
            (final(self)@, next) == model::egress_next(
                old(self)@,
                EgressPhase::Leave,
                delivery is Sent,
            ),
            final(self)@.wf(),
            final(self)@.clock_has_room(),
    {
        let ghost entries = self@.multicast.groups;
        if let Some(addr) = self.inner.multicast.find_in_state(GroupState::Leaving) {
            if delivery != Delivery::Refused {
                proof {
                    let i = model::pending_index(entries, GroupState::Leaving)->0;
                    lemmas::lemma_entry_unique(entries, i);
                    lemmas::lemma_removed_distinct(entries, i);
                }
                let _ = table_remove(&mut self.inner.multicast.groups, &addr);
                return EgressPhase::Leave;
            }
        }
        EgressPhase::IgmpReport
    }

    /// Settles the IGMP report that was due: one for a single group is done with once sent,
    /// one for all groups goes on to the next group, until there is none.
    fn advance_igmp_report(&mut self, delivery: Delivery)
        requires
            old(self)@.wf(),
            old(self)@.clock_has_room(),
            delivery is Nothing <==> model::egress_request(
                old(self)@,
                EgressPhase::IgmpReport,
            ) is None,
        ensures
            final(self)@ == old(self)@.with_igmp(
                model::igmp_after(old(self)@, delivery is Sent),
            ),
            final(self)@.wf(),
            final(self)@.clock_has_room(),
    {
        match self.inner.multicast.igmp_report_state {
            IgmpReportState::ToSpecificQuery { timeout, .. } => {
                if self.inner.now.reached(timeout) && delivery == Delivery::Sent {
                    self.inner.multicast.igmp_report_state = IgmpReportState::Inactive;
                }
            },
            IgmpReportState::ToGeneralQuery { version, timeout, interval, next_index } => {
                if self.inner.now.reached(timeout) {
                    let count: usize = self.inner.ipv4_groups().len();
                    if next_index >= count {
                        self.inner.multicast.igmp_report_state = IgmpReportState::Inactive;
                    } else if delivery == Delivery::Sent {
                        let next_timeout = timeout.after(interval).max(self.inner.now);
                        self.inner.multicast.igmp_report_state =
                        IgmpReportState::ToGeneralQuery {
                            version,
                            timeout: next_timeout,
                            interval,
                            next_index: next_index + 1,
                        };
                    }
                }
            },
            IgmpReportState::Inactive => {},
        }
    }

    /// Sends the join and leave packets that the groups' states call for, then the IGMP and
    /// MLD reports that are due, as far as the device takes packets.
    pub fn multicast_egress<D: Device>(&mut self, device: &mut D)
        requires
            old(self)@.wf(),
            old(self)@.clock_has_room(),
        ensures
            exists|trace: Seq<(InterfaceView, EgressPhase)>, answers: Seq<bool>| #[trigger]
                model::egress_pass(old(self)@, final(self)@, trace, answers)
                    && final(device).log() == old(device).log() + model::egress_log(
                    trace,
                    answers,
                ),
            final(self)@.wf(),
    {
        let mut phase = EgressPhase::Join;
        let ghost mut trace: Seq<(InterfaceView, EgressPhase)> = seq![(self@, phase)];
        let ghost mut answers: Seq<bool> = seq![];
        while phase != EgressPhase::Done
            invariant
                self@.wf(),
                self@.clock_has_room(),
                model::egress_trace(trace, answers),
                trace.first() == (old(self)@, EgressPhase::Join),
                trace.last() == (self@, phase),
                device.log() == old(device).log() + model::egress_log(trace, answers),
            decreases lemmas::phase_rank(phase), lemmas::phase_work(self@, phase),
        {
            let ghost before = self@;
            let ghost before_phase = phase;
            let delivery = match self.egress_request(phase) {
                Some(packet) => if device.transmit(self.inner.now, packet) {
                    Delivery::Sent
                } else {
                    Delivery::Refused
                },
                None => Delivery::Nothing,
            };
            phase = self.egress_advance(phase, delivery);
            proof {
                lemmas::lemma_egress_progress(before, before_phase, delivery is Sent);
                lemmas::lemma_trace_extends(trace, answers, delivery is Sent);
                lemmas::lemma_log_extends(trace, answers, (self@, phase), delivery is Sent);
                trace = trace.push((self@, phase));
                answers = answers.push(delivery is Sent);
                assert(device.log() =~= old(device).log() + model::egress_log(trace, answers));
            }
        }
        assert(model::egress_pass(old(self)@, self@, trace, answers));
    }
}

} // verus!
