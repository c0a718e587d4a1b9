//! The mathematical model of an interface's multicast duties: what its state is, and what
//! each operation makes of it.
use vstd::prelude::*;

use crate::config::IFACE_MAX_MULTICAST_GROUP_COUNT;
use crate::iface::groups::{self, GroupEntry, GroupState};
use crate::rand::{self, Rand};
use crate::time::{self, Duration, Instant};
use crate::wire::igmp::{self, IgmpRepr, IgmpVersion, IGMP_MESSAGE_LEN};
use crate::wire::ip::{
    IpAddress, IpCidr, IpProtocol, Ipv4Address, Ipv4Repr, Ipv6Address, IPV4_MULTICAST_ALL_ROUTERS,
    IPV4_MULTICAST_ALL_SYSTEMS, IPV6_LINK_LOCAL_ALL_NODES,
};
use crate::wire::mld::{self, MldAddressRecordRepr, MldRecordType, MldRepr};

verus! {

/// The longest delay, in microseconds, for which a query can have a report put off.
pub const MAX_REPORT_DELAY_MICROS: u64 = 8_387_584_000;

/// The IGMP report that is due, if any.
#[derive(Debug, Clone, Copy, PartialEq, Eq, Structural)]
pub enum IgmpReportState {
    Inactive,
    ToGeneralQuery { version: IgmpVersion, timeout: Instant, interval: Duration, next_index: usize },
    ToSpecificQuery { version: IgmpVersion, timeout: Instant, group: Ipv4Address },
}

/// The MLD report that is due, if any.
#[derive(Debug, Clone, Copy, PartialEq, Eq, Structural)]
pub enum MldReportState {
    Inactive,
    ToGeneralQuery { timeout: Instant },
    ToSpecificQuery { group: Ipv6Address, timeout: Instant },
}

/// The part of a multicast egress pass that is being worked on.
#[derive(Debug, Clone, Copy, PartialEq, Eq, Structural)]
pub enum EgressPhase {
    Join,
    Leave,
    IgmpReport,
    MldReport,
    Done,
}

/// What became of the packet that an egress pass asked for.
#[derive(Debug, Clone, Copy, PartialEq, Eq, Structural)]
pub enum Delivery {
    /// No packet was asked for.
    Nothing,
    /// The device took the packet.
    Sent,
    /// The device did not take the packet.
    Refused,
}

/// What a multicast state holds: the groups in table order, and the reports that are due.
#[verifier::ext_equal]
pub struct StateView {
    pub groups: Seq<GroupEntry>,
    pub igmp: IgmpReportState,
    pub mld: MldReportState,
}

/// What an interface holds.
#[verifier::ext_equal]
pub struct InterfaceView {
    pub now: Instant,
    pub rand: Rand,
    pub addrs: Seq<IpCidr>,
    pub multicast: StateView,
}

/// What a packet says.
#[verifier::ext_equal]
pub enum PacketView {
    Igmp(Ipv4Repr, IgmpRepr),
    Mldv2Report(Seq<MldAddressRecordRepr>),
}

impl StateView {
    /// No address has two entries, and reports are not spaced wider than a query can ask.
    pub open spec fn wf(self) -> bool {
        &&& distinct(self.groups)
        &&& self.igmp matches IgmpReportState::ToGeneralQuery { interval, .. }
            ==> interval.micros <= MAX_REPORT_DELAY_MICROS
    }
}

impl InterfaceView {
    /// The multicast state is well formed.
    pub open spec fn wf(self) -> bool {
        self.multicast.wf()
    }

    /// Every report delay from now ends at an instant that the clock can represent.
    pub open spec fn clock_has_room(self) -> bool {
        self.now.micros + MAX_REPORT_DELAY_MICROS <= i64::MAX
    }

    /// The same interface with other groups.
    pub open spec fn with_groups(self, groups: Seq<GroupEntry>) -> InterfaceView {
        InterfaceView { multicast: StateView { groups, ..self.multicast }, ..self }
    }

    /// The same interface with another IGMP report due.
    pub open spec fn with_igmp(self, igmp: IgmpReportState) -> InterfaceView {
        InterfaceView { multicast: StateView { igmp, ..self.multicast }, ..self }
    }

    /// The same interface with another MLD report due.
    pub open spec fn with_mld(self, mld: MldReportState) -> InterfaceView {
        InterfaceView { multicast: StateView { mld, ..self.multicast }, ..self }
    }
}

/// No address has two entries.
pub open spec fn distinct(entries: Seq<GroupEntry>) -> bool {
    forall|i: int, j: int|
        0 <= i < j < entries.len() ==> (#[trigger] entries[i]).0 != (#[trigger] entries[j]).0
}

/// The place of the entry for `addr`.
pub open spec fn entry_index(entries: Seq<GroupEntry>, addr: IpAddress) -> int {
    choose|i: int| groups::first_entry(entries, addr, i)
}

/// Whether `addr` is listened to: it has an entry, and is not being left.
pub open spec fn is_member(entries: Seq<GroupEntry>, addr: IpAddress) -> bool {
    exists|i: int|
        0 <= i < entries.len() && (#[trigger] entries[i]).0 == addr && entries[i].1
            != GroupState::Leaving
}

/// The groups once `addr` is joined: an entry that was being left is kept, a new entry is
/// appended. `None` where the entry is new and the table full.
pub open spec fn joined(entries: Seq<GroupEntry>, addr: IpAddress) -> Option<Seq<GroupEntry>> {
    if groups::has_entry(entries, addr) {
        let i = entry_index(entries, addr);
        Some(
            if entries[i].1 == GroupState::Leaving {
                entries.update(i, (addr, GroupState::Joined))
            } else {
                entries
            },
        )
    } else if entries.len() < IFACE_MAX_MULTICAST_GROUP_COUNT {
        Some(entries.push((addr, GroupState::Joining)))
    } else {
        None
    }
}

/// The groups once `addr` is left: an entry whose join was not sent goes at once, another
/// waits for its leave packet.
pub open spec fn left(entries: Seq<GroupEntry>, addr: IpAddress) -> Seq<GroupEntry> {
    if groups::has_entry(entries, addr) {
        let i = entry_index(entries, addr);
        if entries[i].1 == GroupState::Joining {
            groups::swap_removed(entries, i)
        } else {
            entries.update(i, (addr, GroupState::Leaving))
        }
    } else {
        entries
    }
}

/// The report that is due once another one is asked for: it is due no later than either,
/// and answers for one group only where both are for that group.
pub open spec fn rescheduled(
    pending: MldReportState,
    group: Option<Ipv6Address>,
    timeout: Instant,
) -> MldReportState {
    match (pending, group) {
        (MldReportState::Inactive, Some(group)) => MldReportState::ToSpecificQuery {
            group,
            timeout,
        },
        (MldReportState::Inactive, None) => MldReportState::ToGeneralQuery { timeout },
        (MldReportState::ToGeneralQuery { timeout: pending_timeout }, _) => {
            MldReportState::ToGeneralQuery { timeout: time::earlier_of(timeout, pending_timeout) }
        },
        (
            MldReportState::ToSpecificQuery { group: pending_group, timeout: pending_timeout },
            _,
        ) => if group == Some(pending_group) {
            MldReportState::ToSpecificQuery {
                group: pending_group,
                timeout: time::earlier_of(timeout, pending_timeout),
            }
        } else {
            MldReportState::ToGeneralQuery { timeout: time::earlier_of(timeout, pending_timeout) }
        },
    }
}

/// When the IGMP report is due.
pub open spec fn igmp_timeout(state: IgmpReportState) -> Option<Instant> {
    match state {
        IgmpReportState::Inactive => None,
        IgmpReportState::ToGeneralQuery { timeout, .. } => Some(timeout),
        IgmpReportState::ToSpecificQuery { timeout, .. } => Some(timeout),
    }
}

/// When the MLD report is due.
pub open spec fn mld_timeout(state: MldReportState) -> Option<Instant> {
    match state {
        MldReportState::Inactive => None,
        MldReportState::ToGeneralQuery { timeout } => Some(timeout),
        MldReportState::ToSpecificQuery { timeout, .. } => Some(timeout),
    }
}

/// Whether a join or leave packet is still to be sent.
pub open spec fn has_unsettled(entries: Seq<GroupEntry>) -> bool {
    exists|i: int| 0 <= i < entries.len() && (#[trigger] entries[i]).1 != GroupState::Joined
}

/// When the state next wants to send: at once for a join or leave packet, otherwise when
/// the first report is due.
pub open spec fn work_due(state: StateView) -> Option<Instant> {
    if has_unsettled(state.groups) {
        Some(Instant { micros: 0 })
    } else {
        match (igmp_timeout(state.igmp), mld_timeout(state.mld)) {
            (Some(a), Some(b)) => Some(time::earlier_of(a, b)),
            (Some(a), None) => Some(a),
            (None, b) => b,
        }
    }
}

/// The first IPv4 address of an interface.
pub open spec fn interface_ipv4(addrs: Seq<IpCidr>) -> Option<Ipv4Address>
    decreases addrs.len(),
{
    if addrs.len() == 0 {
        None
    } else {
        match addrs.first().address {
            IpAddress::Ipv4(addr) => Some(addr),
            IpAddress::Ipv6(_) => interface_ipv4(addrs.drop_first()),
        }
    }
}

/// Whether the interface has the address `addr`.
pub open spec fn owns(addrs: Seq<IpCidr>, addr: IpAddress) -> bool {
    exists|i: int| 0 <= i < addrs.len() && (#[trigger] addrs[i]).address == addr
}

/// Whether `group` is the solicited-node group of an address, other than loopback, that the
/// interface has.
pub open spec fn solicits(addrs: Seq<IpCidr>, group: Ipv6Address) -> bool {
    exists|i: int|
        0 <= i < addrs.len() && solicited_group((#[trigger] addrs[i]).address) == Some(group)
}

/// The solicited-node group of an address: IPv6 addresses other than loopback have one.
pub open spec fn solicited_group(addr: IpAddress) -> Option<Ipv6Address> {
    match addr {
        IpAddress::Ipv6(addr) => if addr.spec_is_loopback() {
            None
        } else {
            Some(addr.spec_solicited_node())
        },
        IpAddress::Ipv4(_) => None,
    }
}

/// The group that an address of the interface asks to be joined: the solicited-node group
/// of a unicast IPv6 address other than loopback.
pub open spec fn wanted_group(addr: IpAddress) -> Option<IpAddress> {
    match addr {
        IpAddress::Ipv6(addr) => if addr.spec_is_unicast() && !addr.spec_is_loopback() {
            Some(IpAddress::Ipv6(addr.spec_solicited_node()))
        } else {
            None
        },
        IpAddress::Ipv4(_) => None,
    }
}

/// Whether `addr` is a solicited-node group that no address of the interface has.
pub open spec fn is_stale(addrs: Seq<IpCidr>, addr: IpAddress) -> bool {
    match addr {
        IpAddress::Ipv6(addr) => addr.spec_is_solicited_node_multicast() && !solicits(addrs, addr),
        IpAddress::Ipv4(_) => false,
    }
}

/// The stale solicited-node groups, in table order.
pub open spec fn stale_groups(entries: Seq<GroupEntry>, addrs: Seq<IpCidr>) -> Seq<Ipv6Address>
    decreases entries.len(),
{
    if entries.len() == 0 {
        seq![]
    } else {
        let rest = stale_groups(entries.drop_last(), addrs);
        match entries.last().0 {
            IpAddress::Ipv6(addr) if is_stale(addrs, entries.last().0) => rest.push(addr),
            _ => rest,
        }
    }
}

/// The groups once each of `removals` is left, in order.
pub open spec fn left_all(entries: Seq<GroupEntry>, removals: Seq<Ipv6Address>) -> Seq<GroupEntry>
    decreases removals.len(),
{
    if removals.len() == 0 {
        entries
    } else {
        left(left_all(entries, removals.drop_last()), IpAddress::Ipv6(removals.last()))
    }
}

/// The groups once the group that each address wants is joined, in order, as long as the
/// table has room.
pub open spec fn joined_wanted(entries: Seq<GroupEntry>, addrs: Seq<IpCidr>) -> Seq<GroupEntry>
    decreases addrs.len(),
{
    if addrs.len() == 0 {
        entries
    } else {
        let before = joined_wanted(entries, addrs.drop_last());
        match wanted_group(addrs.last().address) {
            Some(group) => match joined(before, group) {
                Some(after) => after,
                None => before,
            },
            None => before,
        }
    }
}

/// The groups once the solicited-node groups follow the interface's addresses.
pub open spec fn solicited_updated(
    entries: Seq<GroupEntry>,
    addrs: Seq<IpCidr>,
) -> Seq<GroupEntry> {
    joined_wanted(left_all(entries, stale_groups(entries, addrs)), addrs)
}

/// The IPv4 groups, in table order.
pub open spec fn ipv4_groups(entries: Seq<GroupEntry>) -> Seq<Ipv4Address>
    decreases entries.len(),
{
    if entries.len() == 0 {
        seq![]
    } else {
        let rest = ipv4_groups(entries.drop_last());
        match entries.last().0 {
            IpAddress::Ipv4(addr) => rest.push(addr),
            IpAddress::Ipv6(_) => rest,
        }
    }
}

/// Whether there is an entry for an IPv6 group.
pub open spec fn has_ipv6_group(entries: Seq<GroupEntry>) -> bool {
    exists|i: int| 0 <= i < entries.len() && (#[trigger] entries[i]).0 is Ipv6
}

/// The IPv6 groups that are listened to, in table order.
pub open spec fn listened_groups(entries: Seq<GroupEntry>) -> Seq<Ipv6Address>
    decreases entries.len(),
{
    if entries.len() == 0 {
        seq![]
    } else {
        let rest = listened_groups(entries.drop_last());
        match entries.last() {
            (IpAddress::Ipv6(addr), GroupState::Joining) => rest.push(addr),
            (IpAddress::Ipv6(addr), GroupState::Joined) => rest.push(addr),
            _ => rest,
        }
    }
}

/// A record for each of `addrs` that says that it is listened to.
pub open spec fn records_of(addrs: Seq<Ipv6Address>) -> Seq<MldAddressRecordRepr> {
    addrs.map_values(
        |addr: Ipv6Address|
            MldAddressRecordRepr { record_type: MldRecordType::ModeIsExclude, mcast_addr: addr },
    )
}

/// The records of a report of all IPv6 groups that are listened to, in table order.
pub open spec fn listener_records(entries: Seq<GroupEntry>) -> Seq<MldAddressRecordRepr> {
    records_of(listened_groups(entries))
}

/// The IGMP message `igmp` from the interface's IPv4 address to `dst_addr`, on this link
/// only; `None` where the interface has no IPv4 address.
pub open spec fn igmp_packet(
    addrs: Seq<IpCidr>,
    dst_addr: Ipv4Address,
    igmp: IgmpRepr,
) -> Option<PacketView> {
    match interface_ipv4(addrs) {
        Some(src_addr) => Some(
            PacketView::Igmp(
                Ipv4Repr {
                    src_addr,
                    dst_addr,
                    next_header: IpProtocol::Igmp,
                    payload_len: IGMP_MESSAGE_LEN,
                    hop_limit: 1,
                },
                igmp,
            ),
        ),
        None => None,
    }
}

/// The membership report for `group_addr`, sent to the group itself.
pub open spec fn report_packet(
    addrs: Seq<IpCidr>,
    version: IgmpVersion,
    group_addr: Ipv4Address,
) -> Option<PacketView> {
    igmp_packet(addrs, group_addr, IgmpRepr::MembershipReport { group_addr, version })
}

/// The notice that `group_addr` is left, sent to the routers.
pub open spec fn leave_packet(addrs: Seq<IpCidr>, group_addr: Ipv4Address) -> Option<PacketView> {
    igmp_packet(
        addrs,
        Ipv4Address { bits: IPV4_MULTICAST_ALL_ROUTERS },
        IgmpRepr::LeaveGroup { group_addr },
    )
}

/// The listener report with a single record.
pub open spec fn single_record(record_type: MldRecordType, mcast_addr: Ipv6Address) -> PacketView {
    PacketView::Mldv2Report(seq![MldAddressRecordRepr { record_type, mcast_addr }])
}

/// Whether `index` is the first entry in the state `state`.
pub open spec fn first_in_state(entries: Seq<GroupEntry>, state: GroupState, index: int) -> bool {
    &&& 0 <= index < entries.len()
    &&& entries[index].1 == state
    &&& forall|j: int| 0 <= j < index ==> (#[trigger] entries[j]).1 != state
}

/// The first entry in the state `state`.
pub open spec fn pending_index(entries: Seq<GroupEntry>, state: GroupState) -> Option<int> {
    if exists|i: int| first_in_state(entries, state, i) {
        Some(choose|i: int| first_in_state(entries, state, i))
    } else {
        None
    }
}

/// The packet that announces the join of `addr`, if one can be sent.
pub open spec fn join_packet(addrs: Seq<IpCidr>, addr: IpAddress) -> Option<PacketView> {
    match addr {
        IpAddress::Ipv4(group) => report_packet(addrs, IgmpVersion::Version2, group),
        IpAddress::Ipv6(group) => Some(single_record(MldRecordType::ChangeToInclude, group)),
    }
}

/// The packet that announces that `addr` is left, if one can be sent.
pub open spec fn part_packet(addrs: Seq<IpCidr>, addr: IpAddress) -> Option<PacketView> {
    match addr {
        IpAddress::Ipv4(group) => leave_packet(addrs, group),
        IpAddress::Ipv6(group) => Some(single_record(MldRecordType::ChangeToExclude, group)),
    }
}

/// The packet that an egress pass asks the device to transmit, if any.
pub open spec fn egress_request(v: InterfaceView, phase: EgressPhase) -> Option<PacketView> {
    let groups = v.multicast.groups;
    match phase {
        EgressPhase::Join => match pending_index(groups, GroupState::Joining) {
            Some(i) => join_packet(v.addrs, groups[i].0),
            None => None,
        },
        EgressPhase::Leave => match pending_index(groups, GroupState::Leaving) {
            Some(i) => part_packet(v.addrs, groups[i].0),
            None => None,
        },
        EgressPhase::IgmpReport => match v.multicast.igmp {
            IgmpReportState::ToSpecificQuery { version, timeout, group } => {
                if v.now.micros >= timeout.micros {
                    report_packet(v.addrs, version, group)
                } else {
                    None
                }
            },
            IgmpReportState::ToGeneralQuery { version, timeout, next_index, .. } => {
                if v.now.micros >= timeout.micros && next_index < ipv4_groups(groups).len() {
                    report_packet(v.addrs, version, ipv4_groups(groups)[next_index as int])
                } else {
                    None
                }
            },
            IgmpReportState::Inactive => None,
        },
        EgressPhase::MldReport => match v.multicast.mld {
            MldReportState::ToGeneralQuery { timeout } => {
                if v.now.micros >= timeout.micros && listener_records(groups).len() > 0 {
                    Some(PacketView::Mldv2Report(listener_records(groups)))
                } else {
                    None
                }
            },
            MldReportState::ToSpecificQuery { group, timeout } => {
                if v.now.micros >= timeout.micros && is_member(groups, IpAddress::Ipv6(group)) {
                    Some(single_record(MldRecordType::ModeIsExclude, group))
                } else {
                    None
                }
            },
            MldReportState::Inactive => None,
        },
        EgressPhase::Done => None,
    }
}

/// The IGMP report due after the device was asked, `sent` saying that it took a packet.
pub open spec fn igmp_after(v: InterfaceView, sent: bool) -> IgmpReportState {
    match v.multicast.igmp {
        IgmpReportState::ToSpecificQuery { timeout, .. } => {
            if v.now.micros >= timeout.micros && sent {
                IgmpReportState::Inactive
            } else {
                v.multicast.igmp
            }
        },
        IgmpReportState::ToGeneralQuery { version, timeout, interval, next_index } => {
            if v.now.micros < timeout.micros {
                v.multicast.igmp
            } else if next_index >= ipv4_groups(v.multicast.groups).len() {
                IgmpReportState::Inactive
            } else if sent {
                let next = time::instant_after(timeout, interval);
                IgmpReportState::ToGeneralQuery {
                    version,
                    timeout: if next.micros <= v.now.micros {
                        v.now
                    } else {
                        next
                    },
                    interval,
                    next_index: (next_index + 1) as usize,
                }
            } else {
                v.multicast.igmp
            }
        },
        IgmpReportState::Inactive => IgmpReportState::Inactive,
    }
}

/// The MLD report due after the device was asked: one that was due is done with when it is
/// sent, or when there is nothing left to report.
pub open spec fn mld_after(v: InterfaceView, refused: bool) -> MldReportState {
    match mld_timeout(v.multicast.mld) {
        Some(timeout) if v.now.micros >= timeout.micros && !refused => MldReportState::Inactive,
        _ => v.multicast.mld,
    }
}

/// One step of an egress pass: the interface and the phase that follow, `granted` being the
/// device's answer where a packet was handed to it.
pub open spec fn egress_next(v: InterfaceView, phase: EgressPhase, granted: bool) -> (
    InterfaceView,
    EgressPhase,
) {
    let groups = v.multicast.groups;
    let sent = egress_request(v, phase) is Some && granted;
    let refused = egress_request(v, phase) is Some && !granted;
    match phase {
        EgressPhase::Join => match pending_index(groups, GroupState::Joining) {
            Some(i) if !refused => (
                v.with_groups(groups.update(i, (groups[i].0, GroupState::Joined))),
                EgressPhase::Join,
            ),
            _ => (v, EgressPhase::Leave),
        },
        EgressPhase::Leave => match pending_index(groups, GroupState::Leaving) {
            Some(i) if !refused => (v.with_groups(groups::swap_removed(groups, i)), EgressPhase::Leave),
            _ => (v, EgressPhase::IgmpReport),
        },
        EgressPhase::IgmpReport => (v.with_igmp(igmp_after(v, sent)), EgressPhase::MldReport),
        EgressPhase::MldReport => (v.with_mld(mld_after(v, refused)), EgressPhase::Done),
        EgressPhase::Done => (v, EgressPhase::Done),
    }
}

/// Whether `trace` runs an egress pass step by step under the device's `answers`.
pub open spec fn egress_trace(
    trace: Seq<(InterfaceView, EgressPhase)>,
    answers: Seq<bool>,
) -> bool {
    &&& trace.len() == answers.len() + 1
    &&& forall|i: int|
        0 <= i < answers.len() ==> trace[i + 1] == egress_next(
            trace[i].0,
            trace[i].1,
            #[trigger] answers[i],
        )
}

/// What a device was asked to send, and what it answered.
#[verifier::ext_equal]
pub struct Transmission {
    pub timestamp: Instant,
    pub packet: PacketView,
    pub taken: bool,
}

/// What the device is asked to send in a run of an egress pass, in order.
pub open spec fn egress_log(
    trace: Seq<(InterfaceView, EgressPhase)>,
    answers: Seq<bool>,
) -> Seq<Transmission>
    decreases answers.len(),
{
    if answers.len() == 0 {
        seq![]
    } else {
        let before = egress_log(trace, answers.drop_last());
        let (v, phase) = trace[answers.len() - 1];
        match egress_request(v, phase) {
            Some(packet) => before.push(
                Transmission { timestamp: v.now, packet, taken: answers.last() },
            ),
            None => before,
        }
    }
}

/// Whether `answers` take an egress pass that starts at `before` to its end at `after`.
pub open spec fn egress_pass(
    before: InterfaceView,
    after: InterfaceView,
    trace: Seq<(InterfaceView, EgressPhase)>,
    answers: Seq<bool>,
) -> bool {
    &&& egress_trace(trace, answers)
    &&& trace.first() == (before, EgressPhase::Join)
    &&& trace.last() == (after, EgressPhase::Done)
}

/// The interface once it has heard the IGMP message `message`, sent to `dst_addr`.
pub open spec fn igmp_heard(
    v: InterfaceView,
    dst_addr: Ipv4Address,
    message: Seq<u8>,
) -> InterfaceView {
    match igmp::parsed(message) {
        Some(IgmpRepr::MembershipQuery { max_resp_time, group_addr, version }) => {
            if group_addr.spec_is_unspecified() && dst_addr.bits == IPV4_MULTICAST_ALL_SYSTEMS {
                let count = ipv4_groups(v.multicast.groups).len();
                if count == 0 {
                    v
                } else {
                    let interval = match version {
                        IgmpVersion::Version1 => Duration { micros: 100_000 },
                        IgmpVersion::Version2 => Duration {
                            micros: (max_resp_time.micros as int / (count + 1) as int) as u64,
                        },
                    };
                    v.with_igmp(
                        IgmpReportState::ToGeneralQuery {
                            version,
                            timeout: time::instant_after(v.now, interval),
                            interval,
                            next_index: 0,
                        },
                    )
                }
            } else if is_member(v.multicast.groups, IpAddress::Ipv4(group_addr)) && dst_addr
                == group_addr {
                v.with_igmp(
                    IgmpReportState::ToSpecificQuery {
                        version,
                        timeout: time::instant_after(
                            v.now,
                            Duration { micros: (max_resp_time.micros / 4) as u64 },
                        ),
                        group: group_addr,
                    },
                )
            } else {
                v
            }
        },
        _ => v,
    }
}

/// The delay before a report that answers a query with the code `code`: at random between
/// one millisecond and the delay that the code stands for, none where that is none.
pub open spec fn report_delay(rand: Rand, code: u16) -> Duration {
    if mld::response_millis(code) == 0 {
        Duration { micros: 0 }
    } else {
        Duration {
            micros: ((1 + rand::output(rand::next_state(rand.state)) as int % mld::response_millis(code))
                * 1000) as u64,
        }
    }
}

/// The interface once it has heard the MLD message `repr`, sent to `dst_addr`.
pub open spec fn mld_heard(v: InterfaceView, dst_addr: Ipv6Address, repr: MldRepr) -> InterfaceView {
    match repr {
        MldRepr::Query { max_resp_code, mcast_addr } => {
            let groups = v.multicast.groups;
            let timeout = time::instant_after(v.now, report_delay(v.rand, max_resp_code));
            let rand = if mld::response_millis(max_resp_code) == 0 {
                v.rand
            } else {
                Rand { state: rand::next_state(v.rand.state) }
            };
            let general = mcast_addr.spec_is_unspecified() && (dst_addr.bits
                == IPV6_LINK_LOCAL_ALL_NODES || owns(v.addrs, IpAddress::Ipv6(dst_addr)))
                && has_ipv6_group(groups);
            let first = if general {
                rescheduled(v.multicast.mld, None, timeout)
            } else {
                v.multicast.mld
            };
            let specific = is_member(groups, IpAddress::Ipv6(mcast_addr)) && dst_addr == mcast_addr;
            let mld = if specific {
                rescheduled(first, Some(mcast_addr), timeout)
            } else {
                first
            };
            (InterfaceView { rand, ..v }).with_mld(mld)
        },
        MldRepr::Report { .. } => v,
    }
}

} // verus!
