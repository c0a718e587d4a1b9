//! What an interface owes its links: when it has to send, what its packets say, and what queries
//! make it do.
use vstd::prelude::*;

use crate::config::IFACE_MAX_MULTICAST_GROUP_COUNT;
use crate::iface::groups::{self, GroupEntry, GroupState};
use crate::iface::laws;
use crate::iface::lemmas;
use crate::iface::model::{
    self, EgressPhase, IgmpReportState, InterfaceView, MldReportState, PacketView, StateView,
};
use crate::rand;
use crate::time::{Duration, Instant};
use crate::wire::igmp::{self, IgmpRepr, IgmpVersion};
use crate::wire::ip::{IpAddress, IpCidr, IpProtocol, Ipv4Address, Ipv6Address};
use crate::wire::mld::{self, MldAddressRecordRepr, MldRecordType, MldRepr};

verus! {

/// The groups that a general MLD report is about are the IPv6 groups that are listened to, each
/// once.
pub proof fn law_listened_groups_are_the_members(entries: Seq<GroupEntry>)
    requires
        model::distinct(entries),
    ensures
        model::listened_groups(entries).no_duplicates(),
        forall|addr: Ipv6Address| #[trigger]
            model::listened_groups(entries).contains(addr) == model::is_member(
                entries,
                IpAddress::Ipv6(addr),
            ),
    decreases entries.len(),
{
    let all = model::listened_groups(entries);
    if entries.len() > 0 {
        let fewer = entries.drop_last();
        let rest = model::listened_groups(fewer);
        let last = entries.len() - 1;
        assert forall|i: int, j: int| 0 <= i < j < fewer.len() implies (#[trigger] fewer[i]).0 != (
        #[trigger] fewer[j]).0 by {
            assert(entries[i].0 != entries[j].0);
        }
        law_listened_groups_are_the_members(fewer);
        assert forall|addr: Ipv6Address| #[trigger]
            all.contains(addr) == model::is_member(entries, IpAddress::Ipv6(addr)) by {
            let group = IpAddress::Ipv6(addr);
            assert(rest.contains(addr) == model::is_member(fewer, group));
            if model::is_member(fewer, group) {
                let i = choose|i: int|
                    0 <= i < fewer.len() && (#[trigger] fewer[i]).0 == group && fewer[i].1
                        != GroupState::Leaving;
                assert(entries[i] == fewer[i]);
            }
            if model::is_member(entries, group) {
                let i = choose|i: int|
                    0 <= i < entries.len() && (#[trigger] entries[i]).0 == group && entries[i].1
                        != GroupState::Leaving;
                if i < last {
                    assert(fewer[i] == entries[i]);
                }
            }
            if rest.contains(addr) {
                let k = choose|k: int| 0 <= k < rest.len() && rest[k] == addr;
                assert(all[k] == addr);
            }
            if all.len() > rest.len() {
                assert(all[rest.len() as int] == entries[last].0->Ipv6_0);
                if all.contains(addr) && !rest.contains(addr) {
                    let k = choose|k: int| 0 <= k < all.len() && all[k] == addr;
                    if k < rest.len() {
                        assert(rest[k] == addr);
                    }
                }
            }
        }
        if all.len() > rest.len() {
            let own = entries[last].0->Ipv6_0;
            if rest.contains(own) {
                assert(model::is_member(fewer, IpAddress::Ipv6(own)));
                let i = choose|i: int|
                    0 <= i < fewer.len() && (#[trigger] fewer[i]).0 == IpAddress::Ipv6(own)
                        && fewer[i].1 != GroupState::Leaving;
                assert(entries[i].0 != entries[last].0);
            }
        }
    }
}

/// Whether a report has a record for a group.
pub open spec fn names(records: Seq<MldAddressRecordRepr>, addr: Ipv6Address) -> bool {
    exists|i: int| 0 <= i < records.len() && (#[trigger] records[i]).mcast_addr == addr
}

/// A general MLD report that is due names each IPv6 group that is listened to, once, as listened
/// to, and no other. Where there is none, nothing is sent.
pub proof fn law_general_mld_report_names_each_listener(v: InterfaceView, timeout: Instant)
    requires
        v.wf(),
        v.multicast.mld == (MldReportState::ToGeneralQuery { timeout }),
        v.now.micros >= timeout.micros,
    ensures
        match model::egress_request(v, EgressPhase::MldReport) {
            Some(PacketView::Mldv2Report(records)) => {
                &&& records.len() > 0
                &&& forall|addr: Ipv6Address| #[trigger]
                    names(records, addr) == model::is_member(
                        v.multicast.groups,
                        IpAddress::Ipv6(addr),
                    )
                &&& forall|i: int, j: int|
                    0 <= i < j < records.len() ==> (#[trigger] records[i]).mcast_addr != (
                    #[trigger] records[j]).mcast_addr
                &&& forall|i: int|
                    0 <= i < records.len() ==> (#[trigger] records[i]).record_type
                        == MldRecordType::ModeIsExclude
            },
            Some(PacketView::Igmp(..)) => false,
            None => forall|addr: Ipv6Address| !#[trigger]
                model::is_member(v.multicast.groups, IpAddress::Ipv6(addr)),
        },
{
    let entries = v.multicast.groups;
    let listened = model::listened_groups(entries);
    let records = model::listener_records(entries);
    law_listened_groups_are_the_members(entries);
    assert(records.len() == listened.len());
    assert forall|addr: Ipv6Address| #[trigger]
        names(records, addr) == model::is_member(entries, IpAddress::Ipv6(addr)) by {
        assert(listened.contains(addr) == model::is_member(entries, IpAddress::Ipv6(addr)));
        if names(records, addr) {
            let i = choose|i: int| 0 <= i < records.len() && (#[trigger] records[i]).mcast_addr
                == addr;
            assert(listened[i] == addr);
        }
        if listened.contains(addr) {
            let i = choose|i: int| 0 <= i < listened.len() && listened[i] == addr;
            assert(records[i].mcast_addr == addr);
        }
    }
    if listened.len() == 0 {
        assert forall|addr: Ipv6Address| !#[trigger]
            model::is_member(entries, IpAddress::Ipv6(addr)) by {
            assert(!listened.contains(addr));
        }
    }
}

/// An MLD report of one group that is due names that group alone, as listened to, and is sent
/// exactly where it is listened to.
pub proof fn law_specific_mld_report_names_its_group(
    v: InterfaceView,
    group: Ipv6Address,
    timeout: Instant,
)
    requires
        v.multicast.mld == (MldReportState::ToSpecificQuery { group, timeout }),
        v.now.micros >= timeout.micros,
    ensures
        match model::egress_request(v, EgressPhase::MldReport) {
            Some(PacketView::Mldv2Report(records)) => {
                &&& model::is_member(v.multicast.groups, IpAddress::Ipv6(group))
                &&& records.len() == 1
                &&& records[0].mcast_addr == group
                &&& records[0].record_type == MldRecordType::ModeIsExclude
            },
            Some(PacketView::Igmp(..)) => false,
            None => !model::is_member(v.multicast.groups, IpAddress::Ipv6(group)),
        },
{
}

/// An IGMP report of one group that is due is sent, to that group and about it, where the
/// interface has an IPv4 address. It is done with once it is sent, and stays due until then.
pub proof fn law_specific_igmp_report_is_sent_once(
    v: InterfaceView,
    version: IgmpVersion,
    timeout: Instant,
    group: Ipv4Address,
    granted: bool,
)
    requires
        v.multicast.igmp == (IgmpReportState::ToSpecificQuery { version, timeout, group }),
        v.now.micros >= timeout.micros,
    ensures
        ({
            let request = model::egress_request(v, EgressPhase::IgmpReport);
            let (after, next) = model::egress_next(v, EgressPhase::IgmpReport, granted);
            &&& request is Some == model::interface_ipv4(v.addrs) is Some
            &&& request matches Some(packet) ==> is_igmp(
                packet,
                v.addrs,
                group,
                IgmpRepr::MembershipReport { group_addr: group, version },
            )
            &&& request is Some && granted ==> after.multicast.igmp == IgmpReportState::Inactive
            &&& !(request is Some && granted) ==> after.multicast.igmp == v.multicast.igmp
            &&& after.multicast.groups == v.multicast.groups
            &&& after.multicast.mld == v.multicast.mld
            &&& next == EgressPhase::MldReport
        }),
{
    law_interface_address_is_its_first(v.addrs);
}

/// A report that is not due is not sent, and stays as it is.
pub proof fn law_reports_wait_until_due(v: InterfaceView, due: Instant, granted: bool)
    requires
        v.now.micros < due.micros,
    ensures
        reports_igmp_at(v.multicast, due) ==> model::egress_request(
            v,
            EgressPhase::IgmpReport,
        ) is None && model::egress_next(v, EgressPhase::IgmpReport, granted).0.multicast
            == v.multicast,
        reports_mld_at(v.multicast, due) ==> model::egress_request(
            v,
            EgressPhase::MldReport,
        ) is None && model::egress_next(v, EgressPhase::MldReport, granted).0.multicast
            == v.multicast,
        v.multicast.igmp == IgmpReportState::Inactive ==> model::egress_request(
            v,
            EgressPhase::IgmpReport,
        ) is None,
        v.multicast.mld == MldReportState::Inactive ==> model::egress_request(
            v,
            EgressPhase::MldReport,
        ) is None,
{
    assert(v.with_igmp(v.multicast.igmp).multicast =~= v.multicast);
    assert(v.with_mld(v.multicast.mld).multicast =~= v.multicast);
}

/// Whether an IGMP report is to be sent at `due`.
pub open spec fn reports_igmp_at(state: StateView, due: Instant) -> bool {
    ||| state.igmp matches IgmpReportState::ToGeneralQuery { timeout, .. } && timeout == due
    ||| state.igmp matches IgmpReportState::ToSpecificQuery { timeout, .. } && timeout == due
}

/// Whether an MLD report is to be sent at `due`.
pub open spec fn reports_mld_at(state: StateView, due: Instant) -> bool {
    ||| state.mld matches MldReportState::ToGeneralQuery { timeout } && timeout == due
    ||| state.mld matches MldReportState::ToSpecificQuery { timeout, .. } && timeout == due
}

/// A poll is asked for exactly where something is pending: a group that is being joined or left,
/// or a report. It is asked for no later than any of them is due, and at no other time.
pub proof fn law_poll_is_when_work_is_due(state: StateView)
    ensures
        model::work_due(state) is None <==> {
            &&& forall|i: int|
                0 <= i < state.groups.len() ==> (#[trigger] state.groups[i]).1
                    == GroupState::Joined
            &&& state.igmp == IgmpReportState::Inactive
            &&& state.mld == MldReportState::Inactive
        },
        forall|i: int|
            0 <= i < state.groups.len() && (#[trigger] state.groups[i]).1 != GroupState::Joined
                ==> model::work_due(state) == Some(Instant { micros: 0 }),
        forall|due: Instant| #[trigger]
            reports_igmp_at(state, due) && due.micros >= 0 ==> (model::work_due(
                state,
            ) matches Some(at) && at.micros <= due.micros),
        forall|due: Instant| #[trigger]
            reports_mld_at(state, due) && due.micros >= 0 ==> (model::work_due(
                state,
            ) matches Some(at) && at.micros <= due.micros),
        (forall|i: int|
            0 <= i < state.groups.len() ==> (#[trigger] state.groups[i]).1
                == GroupState::Joined) ==> {
            &&& forall|due: Instant| #[trigger]
                reports_igmp_at(state, due) ==> (model::work_due(state) matches Some(at)
                    && at.micros <= due.micros)
            &&& forall|due: Instant| #[trigger]
                reports_mld_at(state, due) ==> (model::work_due(state) matches Some(at)
                    && at.micros <= due.micros)
            &&& model::work_due(state) matches Some(at) ==> reports_igmp_at(state, at)
                || reports_mld_at(state, at)
        },
{
    if model::has_unsettled(state.groups) {
        let i = choose|i: int|
            0 <= i < state.groups.len() && (#[trigger] state.groups[i]).1 != GroupState::Joined;
        assert(state.groups[i].1 != GroupState::Joined);
    }
}

/// Nothing is ever sent without a poll being asked for in time: where an egress pass at some
/// later time, with nothing heard or asked meanwhile, has a packet to send, a poll was asked for
/// no later than then.
pub proof fn law_poll_comes_before_every_packet(
    v: InterfaceView,
    later: Instant,
    phase: EgressPhase,
)
    requires
        later.micros >= 0,
        model::egress_request(InterfaceView { now: later, ..v }, phase) is Some,
    ensures
        model::work_due(v.multicast) matches Some(at) && at.micros <= later.micros,
{
    let entries = v.multicast.groups;
    law_poll_is_when_work_is_due(v.multicast);
    match phase {
        EgressPhase::Join => {
            let i = model::pending_index(entries, GroupState::Joining)->0;
            assert(model::first_in_state(entries, GroupState::Joining, i));
            assert(entries[i].1 != GroupState::Joined);
        },
        EgressPhase::Leave => {
            let i = model::pending_index(entries, GroupState::Leaving)->0;
            assert(model::first_in_state(entries, GroupState::Leaving, i));
            assert(entries[i].1 != GroupState::Joined);
        },
        _ => {},
    }
}

/// The address that an interface sends from is the first IPv4 address that it has.
pub proof fn law_interface_address_is_its_first(addrs: Seq<IpCidr>)
    ensures
        match model::interface_ipv4(addrs) {
            Some(addr) => exists|i: int|
                0 <= i < addrs.len() && (#[trigger] addrs[i]).address == IpAddress::Ipv4(addr)
                    && forall|j: int| 0 <= j < i ==> (#[trigger] addrs[j]).address is Ipv6,
            None => forall|i: int| 0 <= i < addrs.len() ==> (#[trigger] addrs[i]).address is Ipv6,
        },
    decreases addrs.len(),
{
    if addrs.len() > 0 {
        let rest = addrs.drop_first();
        if let IpAddress::Ipv4(addr) = addrs.first().address {
            assert(addrs[0].address == IpAddress::Ipv4(addr));
        } else {
            law_interface_address_is_its_first(rest);
            match model::interface_ipv4(rest) {
                Some(addr) => {
                    let i = choose|i: int|
                        0 <= i < rest.len() && (#[trigger] rest[i]).address == IpAddress::Ipv4(addr)
                            && forall|j: int| 0 <= j < i ==> (#[trigger] rest[j]).address is Ipv6;
                    assert(addrs[i + 1] == rest[i]);
                    assert forall|j: int| 0 <= j < i + 1 implies (
                    #[trigger] addrs[j]).address is Ipv6 by {
                        if j > 0 {
                            assert(addrs[j] == rest[j - 1]);
                        }
                    }
                },
                None => {
                    assert forall|i: int| 0 <= i < addrs.len() implies (
                    #[trigger] addrs[i]).address is Ipv6 by {
                        if i > 0 {
                            assert(addrs[i] == rest[i - 1]);
                        }
                    }
                },
            }
        }
    }
}

/// Whether `packet` is the IGMP message `igmp`, from an address of the interface to `dst_addr`,
/// under a header that keeps it on the link.
pub open spec fn is_igmp(
    packet: PacketView,
    addrs: Seq<IpCidr>,
    dst_addr: Ipv4Address,
    igmp: IgmpRepr,
) -> bool {
    packet matches PacketView::Igmp(ip, message) && {
        &&& message == igmp
        &&& ip.dst_addr == dst_addr
        &&& ip.next_header == IpProtocol::Igmp
        &&& ip.payload_len == 8
        &&& ip.hop_limit == 1
        &&& exists|i: int|
            0 <= i < addrs.len() && (#[trigger] addrs[i]).address == IpAddress::Ipv4(ip.src_addr)
    }
}

/// Whether `packet` is an MLD report with one record, of the type `record_type`, for `group`.
pub open spec fn is_record(
    packet: PacketView,
    record_type: MldRecordType,
    group: Ipv6Address,
) -> bool {
    packet matches PacketView::Mldv2Report(records) && records.len() == 1
        && records[0].record_type == record_type && records[0].mcast_addr == group
}

/// The packet of a group that is being joined reports it, by version 2 to the group itself or by
/// a record; that of a group that is being left tells the routers, or the listeners by a record.
/// There is one for every IPv6 group, and for an IPv4 group where the interface has an IPv4
/// address.
pub proof fn law_announcements_name_their_group(addrs: Seq<IpCidr>, addr: IpAddress)
    ensures
        match addr {
            IpAddress::Ipv4(group) => {
                &&& model::join_packet(addrs, addr) is Some == model::interface_ipv4(addrs) is Some
                &&& model::part_packet(addrs, addr) is Some == model::interface_ipv4(addrs) is Some
                &&& model::join_packet(addrs, addr) matches Some(packet) ==> is_igmp(
                    packet,
                    addrs,
                    group,
                    IgmpRepr::MembershipReport {
                        group_addr: group,
                        version: IgmpVersion::Version2,
                    },
                )
                &&& model::part_packet(addrs, addr) matches Some(packet) ==> is_igmp(
                    packet,
                    addrs,
                    Ipv4Address { bits: 0xe000_0002 },
                    IgmpRepr::LeaveGroup { group_addr: group },
                )
            },
            IpAddress::Ipv6(group) => {
                &&& model::join_packet(addrs, addr) matches Some(packet) && is_record(
                    packet,
                    MldRecordType::ChangeToInclude,
                    group,
                )
                &&& model::part_packet(addrs, addr) matches Some(packet) && is_record(
                    packet,
                    MldRecordType::ChangeToExclude,
                    group,
                )
            },
        },
{
    law_interface_address_is_its_first(addrs);
}

/// Groups are announced in the order of the table: the one that is next is the first that is in
/// the state that is asked for, and there is one where any is.
pub proof fn law_pending_groups_go_in_table_order(entries: Seq<GroupEntry>, state: GroupState)
    ensures
        match model::pending_index(entries, state) {
            Some(i) => {
                &&& 0 <= i < entries.len()
                &&& entries[i].1 == state
                &&& forall|j: int| 0 <= j < i ==> (#[trigger] entries[j]).1 != state
            },
            None => forall|j: int| 0 <= j < entries.len() ==> (#[trigger] entries[j]).1 != state,
        },
{
    match model::pending_index(entries, state) {
        Some(i) => assert(model::first_in_state(entries, state, i)),
        None => lemmas::lemma_none_pending(entries, state),
    }
}

/// In the joining phase of an egress pass, the packet that is sent is that of a group that is
/// being joined. Once it is taken, or where the group has none, that group is joined, every
/// other is as it was, and the phase goes on; a refusal changes nothing and ends the phase, as
/// does there being no such group.
pub proof fn law_join_step_settles_one_group(v: InterfaceView, granted: bool)
    requires
        v.wf(),
    ensures
        ({
            let groups = v.multicast.groups;
            let request = model::egress_request(v, EgressPhase::Join);
            let (after, next) = model::egress_next(v, EgressPhase::Join, granted);
            if exists|i: int| 0 <= i < groups.len() && (#[trigger] groups[i]).1
                == GroupState::Joining {
                exists|i: int|
                    0 <= i < groups.len() && (#[trigger] groups[i]).1 == GroupState::Joining && {
                        &&& request == model::join_packet(v.addrs, groups[i].0)
                        &&& request is Some && !granted ==> after == v && next
                            == EgressPhase::Leave
                        &&& request is None || granted ==> next == EgressPhase::Join
                            && after.multicast.groups == groups.update(
                            i,
                            (groups[i].0, GroupState::Joined),
                        )
                    }
            } else {
                request is None && after == v && next == EgressPhase::Leave
            }
        }),
        model::egress_next(v, EgressPhase::Join, granted).0.multicast.igmp == v.multicast.igmp,
        model::egress_next(v, EgressPhase::Join, granted).0.multicast.mld == v.multicast.mld,
{
    let entries = v.multicast.groups;
    match model::pending_index(entries, GroupState::Joining) {
        Some(i) => {
            assert(model::first_in_state(entries, GroupState::Joining, i));
            assert(entries[i].1 == GroupState::Joining);
        },
        None => lemmas::lemma_none_pending(entries, GroupState::Joining),
    }
}

/// In the leaving phase of an egress pass, the packet that is sent is that of a group that is
/// being left. Once it is taken, or where the group has none, that group is gone, the entry of
/// every other is as it was, and the phase goes on; a refusal changes nothing and ends the
/// phase, as does there being no such group.
pub proof fn law_leave_step_drops_one_group(v: InterfaceView, granted: bool)
    requires
        v.wf(),
    ensures
        ({
            let groups = v.multicast.groups;
            let request = model::egress_request(v, EgressPhase::Leave);
            let (after, next) = model::egress_next(v, EgressPhase::Leave, granted);
            if exists|i: int| 0 <= i < groups.len() && (#[trigger] groups[i]).1
                == GroupState::Leaving {
                exists|i: int|
                    0 <= i < groups.len() && (#[trigger] groups[i]).1 == GroupState::Leaving && {
                        &&& request == model::part_packet(v.addrs, groups[i].0)
                        &&& request is Some && !granted ==> after == v && next
                            == EgressPhase::IgmpReport
                        &&& request is None || granted ==> next == EgressPhase::Leave
                            && !groups::has_entry(after.multicast.groups, groups[i].0) && forall|
                            entry: GroupEntry,
                        | entry.0 != groups[i].0 ==> #[trigger] after.multicast.groups.contains(
                            entry,
                        ) == groups.contains(entry)
                    }
            } else {
                request is None && after == v && next == EgressPhase::IgmpReport
            }
        }),
        model::egress_next(v, EgressPhase::Leave, granted).0.multicast.igmp == v.multicast.igmp,
        model::egress_next(v, EgressPhase::Leave, granted).0.multicast.mld == v.multicast.mld,
{
    let entries = v.multicast.groups;
    match model::pending_index(entries, GroupState::Leaving) {
        Some(i) => {
            assert(model::first_in_state(entries, GroupState::Leaving, i));
            assert(entries[i].1 == GroupState::Leaving);
            laws::lemma_removed_entry(entries, i);
            let left = groups::swap_removed(entries, i);
            assert forall|entry: GroupEntry| entry.0 != entries[i].0 implies #[trigger]
                left.contains(entry) == entries.contains(entry) by {
                laws::lemma_removed_elsewhere(entries, i, entry);
            }
        },
        None => lemmas::lemma_none_pending(entries, GroupState::Leaving),
    }
}

/// A join succeeds where the group has an entry or the table has room. A new group is then being
/// joined, one that was being left is joined, and one that was neither stays as it was; the
/// entries of other groups stay as they were.
pub proof fn law_join_touches_one_entry(
    entries: Seq<GroupEntry>,
    addr: IpAddress,
    other: GroupEntry,
)
    requires
        model::distinct(entries),
    ensures
        model::joined(entries, addr) is None <==> !groups::has_entry(entries, addr)
            && entries.len() >= IFACE_MAX_MULTICAST_GROUP_COUNT,
        model::joined(entries, addr) matches Some(after) ==> {
            &&& !groups::has_entry(entries, addr) ==> after.contains((addr, GroupState::Joining))
            &&& entries.contains((addr, GroupState::Joining)) ==> after == entries
            &&& entries.contains((addr, GroupState::Joined)) ==> after == entries
            &&& entries.contains((addr, GroupState::Leaving)) ==> after.contains(
                (addr, GroupState::Joined),
            )
            &&& other.0 != addr ==> after.contains(other) == entries.contains(other)
        },
{
    lemma_states_exclude(entries, addr);
    if groups::has_entry(entries, addr) {
        lemmas::lemma_entry_index(entries, addr);
        let i = model::entry_index(entries, addr);
        assert(entries.contains(entries[i]));
        if entries[i].1 == GroupState::Leaving {
            let after = entries.update(i, (addr, GroupState::Joined));
            assert(after[i] == (addr, GroupState::Joined));
            if other.0 != addr {
                laws::lemma_updated_elsewhere(entries, i, (addr, GroupState::Joined), other);
            }
        }
    } else {
        let after = entries.push((addr, GroupState::Joining));
        let last = entries.len() as int;
        assert(after[last] == (addr, GroupState::Joining));
        if entries.contains(other) {
            let k = choose|k: int| 0 <= k < entries.len() && entries[k] == other;
            assert(after[k] == other);
        }
        if after.contains(other) && other.0 != addr {
            let k = choose|k: int| 0 <= k < after.len() && after[k] == other;
            assert(entries[k] == other);
        }
    }
}

/// A leave drops a group whose join was not sent, and has any other leave packet sent; the
/// entries of other groups stay as they were.
pub proof fn law_leave_touches_one_entry(
    entries: Seq<GroupEntry>,
    addr: IpAddress,
    other: GroupEntry,
)
    requires
        model::distinct(entries),
    ensures
        ({
            let after = model::left(entries, addr);
            &&& !groups::has_entry(entries, addr) ==> after == entries
            &&& entries.contains((addr, GroupState::Joining)) ==> !groups::has_entry(after, addr)
            &&& entries.contains((addr, GroupState::Joined)) ==> after.contains(
                (addr, GroupState::Leaving),
            )
            &&& entries.contains((addr, GroupState::Leaving)) ==> after.contains(
                (addr, GroupState::Leaving),
            )
            &&& other.0 != addr ==> after.contains(other) == entries.contains(other)
        }),
{
    lemma_states_exclude(entries, addr);
    if groups::has_entry(entries, addr) {
        lemmas::lemma_entry_index(entries, addr);
        let i = model::entry_index(entries, addr);
        assert(entries.contains(entries[i]));
        if entries[i].1 == GroupState::Joining {
            laws::lemma_removed_entry(entries, i);
            if other.0 != addr {
                laws::lemma_removed_elsewhere(entries, i, other);
            }
        } else {
            let after = entries.update(i, (addr, GroupState::Leaving));
            assert(after[i] == (addr, GroupState::Leaving));
            if other.0 != addr {
                laws::lemma_updated_elsewhere(entries, i, (addr, GroupState::Leaving), other);
            }
        }
    }
}

/// An address is in one state at most, and in one where it has an entry.
proof fn lemma_states_exclude(entries: Seq<GroupEntry>, addr: IpAddress)
    requires
        model::distinct(entries),
    ensures
        forall|state: GroupState| #[trigger]
            entries.contains((addr, state)) ==> groups::has_entry(entries, addr) && entries[
            model::entry_index(entries, addr)].1 == state,
{
    assert forall|state: GroupState| #[trigger]
        entries.contains((addr, state)) implies groups::has_entry(entries, addr) && entries[
    model::entry_index(entries, addr)].1 == state by {
        let k = choose|k: int| 0 <= k < entries.len() && entries[k] == (addr, state);
        lemmas::lemma_entry_unique(entries, k);
    }
}

/// A report that is asked for where none is pending is the one that is pending then. Where one
/// is, the two become one that is due when the first of them was, for the one group that both
/// are for, or for all groups.
pub proof fn law_reschedule_merges(
    pending: MldReportState,
    group: Option<Ipv6Address>,
    timeout: Instant,
)
    ensures
        ({
            let merged = model::rescheduled(pending, group, timeout);
            match pending {
                MldReportState::Inactive => match group {
                    Some(group) => merged == (MldReportState::ToSpecificQuery { group, timeout }),
                    None => merged == (MldReportState::ToGeneralQuery { timeout }),
                },
                MldReportState::ToGeneralQuery { timeout: due } => {
                    &&& merged matches MldReportState::ToGeneralQuery { timeout: at }
                    &&& at.micros <= due.micros && at.micros <= timeout.micros
                    &&& at == due || at == timeout
                },
                MldReportState::ToSpecificQuery { group: only, timeout: due } => {
                    &&& group == Some(only) ==> {
                        &&& merged matches MldReportState::ToSpecificQuery { group: g, timeout: at }
                        &&& g == only && at.micros <= due.micros && at.micros <= timeout.micros
                        &&& at == due || at == timeout
                    }
                    &&& group != Some(only) ==> {
                        &&& merged matches MldReportState::ToGeneralQuery { timeout: at }
                        &&& at.micros <= due.micros && at.micros <= timeout.micros
                        &&& at == due || at == timeout
                    }
                },
            }
        }),
{
}

/// Whether `message` is a membership query about `group`, by its octets.
pub open spec fn is_query(message: Seq<u8>, group: Ipv4Address) -> bool {
    &&& message.len() >= 8
    &&& message[0] == 0x11
    &&& group.bits == message[4] * 0x100_0000 + message[5] * 0x1_0000 + message[6] * 0x100
        + message[7]
}

/// A general IGMP query, sent to all systems, has the IPv4 groups reported, the first of them
/// after an interval and from the start of the table: a tenth of a second for version 1, and for
/// version 2 the part of the response time that the groups and one more divide it into.
pub proof fn law_general_igmp_query_is_answered(v: InterfaceView, message: Seq<u8>)
    requires
        v.clock_has_room(),
        is_query(message, Ipv4Address { bits: 0 }),
        model::ipv4_groups(v.multicast.groups).len() > 0,
    ensures
        ({
            let after = model::igmp_heard(v, Ipv4Address { bits: 0xe000_0001 }, message);
            let parts = model::ipv4_groups(v.multicast.groups).len() + 1;
            let time = igmp::response_deciseconds(message[1]) * 100_000;
            after.multicast.igmp matches IgmpReportState::ToGeneralQuery {
                version,
                timeout,
                interval,
                next_index,
            } && {
                &&& next_index == 0
                &&& timeout.micros == v.now.micros + interval.micros
                &&& message[1] == 0 ==> version == IgmpVersion::Version1 && interval.micros
                    == 100_000
                &&& message[1] != 0 ==> {
                    &&& version == IgmpVersion::Version2
                    &&& interval.micros * parts <= time
                    &&& (interval.micros + 1) * parts > time
                }
            }
        }),
{
    lemma_message_group(message, Ipv4Address { bits: 0 });
    igmp::law_response_codes_double(message[1]);
    let parts = (model::ipv4_groups(v.multicast.groups).len() + 1) as int;
    let time = igmp::response_deciseconds(message[1]) * 100_000;
    vstd::arithmetic::div_mod::lemma_fundamental_div_mod(time, parts);
    let part = time / parts;
    assert(0 <= part <= time && part * parts <= time && (part + 1) * parts > time)
        by (nonlinear_arith)
        requires
            time == parts * part + time % parts,
            0 <= time % parts < parts,
            parts >= 2,
            time >= 0,
    ;
}

/// A group-specific IGMP query, sent to the group, has that group reported, where it is listened
/// to, after a quarter of the response time.
pub proof fn law_specific_igmp_query_is_answered(
    v: InterfaceView,
    message: Seq<u8>,
    group: Ipv4Address,
)
    requires
        v.clock_has_room(),
        is_query(message, group),
        group.bits != 0,
        group.spec_is_multicast(),
        model::is_member(v.multicast.groups, IpAddress::Ipv4(group)),
    ensures
        ({
            let time = igmp::response_deciseconds(message[1]) * 100_000;
            model::igmp_heard(v, group, message).multicast.igmp
                matches IgmpReportState::ToSpecificQuery { version, timeout, group: asked } && {
                &&& asked == group
                &&& (version == IgmpVersion::Version1) == (message[1] == 0)
                &&& (timeout.micros - v.now.micros) * 4 <= time
                &&& (timeout.micros - v.now.micros + 1) * 4 > time
            }
        }),
{
    lemma_message_group(message, group);
    igmp::law_response_codes_double(message[1]);
}

/// An IGMP message changes nothing but the report that is due, and that only where it is a query
/// that is addressed as it should be and about a group that the interface has: a general one to
/// all systems, or one about a group that is listened to, to that group.
pub proof fn law_other_igmp_messages_change_nothing(
    v: InterfaceView,
    dst_addr: Ipv4Address,
    message: Seq<u8>,
    group: Ipv4Address,
)
    requires
        message.len() >= 8 ==> group.bits == message[4] * 0x100_0000 + message[5] * 0x1_0000
            + message[6] * 0x100 + message[7],
    ensures
        ({
            let after = model::igmp_heard(v, dst_addr, message);
            &&& after == v.with_igmp(after.multicast.igmp)
            &&& after.multicast.igmp != v.multicast.igmp ==> {
                &&& is_query(message, group)
                &&& {
                    ||| {
                        &&& group.bits == 0
                        &&& dst_addr.bits == 0xe000_0001
                        &&& model::ipv4_groups(v.multicast.groups).len() > 0
                    }
                    ||| {
                        &&& dst_addr == group
                        &&& model::is_member(v.multicast.groups, IpAddress::Ipv4(group))
                    }
                }
            }
        }),
{
    if message.len() >= 8 {
        lemma_message_group(message, group);
    }
    assert(v.with_igmp(v.multicast.igmp) =~= v);
}

/// The group of a message, by its octets.
proof fn lemma_message_group(message: Seq<u8>, group: Ipv4Address)
    requires
        message.len() >= 8,
        group.bits == message[4] * 0x100_0000 + message[5] * 0x1_0000 + message[6] * 0x100
            + message[7],
    ensures
        igmp::message_group(message) == group,
{
}

/// An MLD query about all groups, sent to all nodes or to an address of the interface, has all
/// IPv6 groups reported, where there are any; one about a group that is listened to, sent to that
/// group, has at least that group reported. Either is due within the response time, and no later
/// than a report that was due already. It draws from the generator where there is time to wait.
pub proof fn law_mld_query_is_answered(
    v: InterfaceView,
    dst_addr: Ipv6Address,
    max_resp_code: u16,
    mcast_addr: Ipv6Address,
)
    requires
        v.clock_has_room(),
    ensures
        ({
            let after = model::mld_heard(
                v,
                dst_addr,
                MldRepr::Query { max_resp_code, mcast_addr },
            );
            let general = mcast_addr.bits == 0 && (dst_addr.bits
                == 0xff02_0000_0000_0000_0000_0000_0000_0001 || exists|i: int|
                0 <= i < v.addrs.len() && (#[trigger] v.addrs[i]).address == IpAddress::Ipv6(
                    dst_addr,
                )) && exists|i: int|
                0 <= i < v.multicast.groups.len() && (
                #[trigger] v.multicast.groups[i]).0 is Ipv6;
            let specific = dst_addr == mcast_addr && model::is_member(
                v.multicast.groups,
                IpAddress::Ipv6(mcast_addr),
            );
            let latest = v.now.micros + mld::response_millis(max_resp_code) * 1000;
            &&& general ==> (after.multicast.mld matches MldReportState::ToGeneralQuery { timeout }
                && timeout.micros <= latest)
            &&& general && v.multicast.mld == MldReportState::Inactive
                ==> after.multicast.mld->ToGeneralQuery_timeout.micros >= v.now.micros
            &&& specific ==> {
                ||| after.multicast.mld matches MldReportState::ToGeneralQuery { timeout }
                    && timeout.micros <= latest
                ||| after.multicast.mld matches MldReportState::ToSpecificQuery { group, timeout }
                    && group == mcast_addr && timeout.micros <= latest
            }
            &&& specific && !general && v.multicast.mld == MldReportState::Inactive ==> {
                &&& after.multicast.mld matches MldReportState::ToSpecificQuery { group, timeout }
                &&& group == mcast_addr && v.now.micros <= timeout.micros <= latest
            }
            &&& !general && !specific ==> after.multicast.mld == v.multicast.mld
            &&& v.multicast.mld matches MldReportState::ToGeneralQuery { timeout } ==> {
                &&& after.multicast.mld matches MldReportState::ToGeneralQuery { timeout: at }
                &&& at.micros <= timeout.micros
            }
            &&& after.multicast.groups == v.multicast.groups
            &&& after.multicast.igmp == v.multicast.igmp
            &&& after.addrs == v.addrs && after.now == v.now
            &&& max_resp_code == 0 ==> after.rand == v.rand
            &&& max_resp_code != 0 ==> after.rand.state == rand::next_state(v.rand.state)
        }),
{
    laws::law_report_delay_in_range(v.rand, max_resp_code);
    mld::law_response_codes_double(max_resp_code);
}

/// Reports of other listeners change nothing.
pub proof fn law_mld_reports_change_nothing(
    v: InterfaceView,
    dst_addr: Ipv6Address,
    records: u16,
)
    ensures
        model::mld_heard(v, dst_addr, MldRepr::Report { nr_mcast_addr_rcrds: records }) == v,
{
}

/// The group that an address asks for has the address's low 24 bits behind the prefix of the
/// solicited-node groups. Every IPv6 address asks for one, but for multicast addresses, the
/// unspecified one and loopback; IPv4 addresses ask for none.
pub proof fn law_addresses_ask_for_their_group(addr: IpAddress)
    ensures
        addr is Ipv4 ==> model::wanted_group(addr) is None,
        addr matches IpAddress::Ipv6(own) ==> {
            &&& model::wanted_group(addr) is None <==> own.bits <= 1 || own.bits
                >= 0xff00_0000_0000_0000_0000_0000_0000_0000
            &&& model::wanted_group(addr) matches Some(group) ==> {
                &&& group matches IpAddress::Ipv6(solicited)
                &&& solicited.bits == 0xff02_0000_0000_0000_0000_0001_ff00_0000 + own.bits
                    % 0x100_0000
            }
        },
{
}

/// A group is stale where it is a solicited-node group and no address of the interface, other
/// than loopback, has its low 24 bits.
pub proof fn law_stale_groups_have_no_address(addrs: Seq<IpCidr>, group: Ipv6Address)
    ensures
        model::is_stale(addrs, IpAddress::Ipv6(group)) <==> {
            &&& 0xff02_0000_0000_0000_0000_0001_ff00_0000 <= group.bits
            &&& group.bits <= 0xff02_0000_0000_0000_0000_0001_ffff_ffff
            &&& forall|i: int|
                0 <= i < addrs.len() ==> ((#[trigger] addrs[i]).address matches IpAddress::Ipv6(
                    own,
                ) ==> own.bits == 1 || own.bits % 0x100_0000 != group.bits % 0x100_0000)
        },
        forall|addr: Ipv4Address| !#[trigger] model::is_stale(addrs, IpAddress::Ipv4(addr)),
{
    if group.spec_is_solicited_node_multicast() {
        if model::solicits(addrs, group) {
            let i = choose|i: int|
                0 <= i < addrs.len() && model::solicited_group((#[trigger] addrs[i]).address)
                    == Some(group);
            assert(addrs[i].address is Ipv6);
            assert(group.bits % 0x100_0000 == addrs[i].address->Ipv6_0.bits % 0x100_0000);
        } else {
            assert forall|i: int| 0 <= i < addrs.len() implies ((
            #[trigger] addrs[i]).address matches IpAddress::Ipv6(own) ==> own.bits == 1 || own.bits
                % 0x100_0000 != group.bits % 0x100_0000) by {
                assert(model::solicited_group(addrs[i].address) != Some(group));
            }
        }
    }
}

/// An IGMP report of all groups that is due is sent for the group that is next in the table, to
/// that group, where the interface has an IPv4 address. Once it is sent, the group after it is
/// next, an interval after this one was due, or at once where that is over. Until then it stays
/// as it is; and once there is no next group, the report is done with.
pub proof fn law_general_igmp_report_goes_group_by_group(
    v: InterfaceView,
    version: IgmpVersion,
    timeout: Instant,
    interval: Duration,
    next_index: usize,
    granted: bool,
)
    requires
        v.wf(),
        v.clock_has_room(),
        v.multicast.groups.len() <= IFACE_MAX_MULTICAST_GROUP_COUNT,
        v.multicast.igmp == (IgmpReportState::ToGeneralQuery {
            version,
            timeout,
            interval,
            next_index,
        }),
        v.now.micros >= timeout.micros,
    ensures
        ({
            let reported = model::ipv4_groups(v.multicast.groups);
            let request = model::egress_request(v, EgressPhase::IgmpReport);
            let (after, next) = model::egress_next(v, EgressPhase::IgmpReport, granted);
            &&& request is Some <==> next_index < reported.len() && exists|i: int|
                0 <= i < v.addrs.len() && (#[trigger] v.addrs[i]).address is Ipv4
            &&& request matches Some(packet) ==> is_igmp(
                packet,
                v.addrs,
                reported[next_index as int],
                IgmpRepr::MembershipReport {
                    group_addr: reported[next_index as int],
                    version,
                },
            )
            &&& next_index >= reported.len() ==> after.multicast.igmp == IgmpReportState::Inactive
            &&& next_index < reported.len() && !(request is Some && granted)
                ==> after.multicast.igmp == v.multicast.igmp
            &&& request is Some && granted ==> {
                &&& after.multicast.igmp matches IgmpReportState::ToGeneralQuery {
                    version: kept,
                    timeout: due,
                    interval: spacing,
                    next_index: following,
                }
                &&& kept == version && spacing == interval && following == next_index + 1
                &&& due.micros >= v.now.micros && due.micros >= timeout.micros + interval.micros
                &&& due == v.now || due.micros == timeout.micros + interval.micros
            }
            &&& after.multicast.groups == v.multicast.groups
            &&& after.multicast.mld == v.multicast.mld
            &&& next == EgressPhase::MldReport
        }),
{
    law_interface_address_is_its_first(v.addrs);
    laws::lemma_ipv4_groups_len(v.multicast.groups);
}

/// The delay of a report goes up by a millisecond with each step of the number that is drawn,
/// from one millisecond on, and starts over where the response time is reached.
pub proof fn law_report_delay_follows_the_draw(first: rand::Rand, second: rand::Rand, code: u16)
    requires
        code > 0,
    ensures
        ({
            let a = rand::output(rand::next_state(first.state));
            let b = rand::output(rand::next_state(second.state));
            let time = mld::response_millis(code);
            let delay = model::report_delay(first, code).micros;
            &&& delay - model::report_delay(second, code).micros == 1000 * (a as int % time
                - b as int % time)
            &&& a as int % time == 0 ==> delay == 1000
            &&& model::report_delay(first, 0).micros == 0
        }),
{
    mld::law_response_codes_double(code);
    mld::law_response_codes_double(0);
    let time = mld::response_millis(code);
    let a = rand::output(rand::next_state(first.state)) as int;
    let b = rand::output(rand::next_state(second.state)) as int;
    vstd::arithmetic::div_mod::lemma_mod_bound(a, time);
    vstd::arithmetic::div_mod::lemma_mod_bound(b, time);
}

} // verus!
