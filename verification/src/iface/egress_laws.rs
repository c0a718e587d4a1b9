//! What egress passes send, taken over whole passes and over several of them.
use vstd::multiset::Multiset;
use vstd::prelude::*;

use crate::config::IFACE_MAX_MULTICAST_GROUP_COUNT;
use crate::iface::groups::{self, GroupEntry, GroupState};
use crate::iface::laws;
use crate::iface::model::{
    self, EgressPhase, IgmpReportState, InterfaceView, MldReportState, PacketView, Transmission,
};
use crate::time::{self, Duration, Instant};
use crate::wire::igmp::IgmpVersion;
use crate::wire::ip::{IpAddress, IpCidr, Ipv4Address};

verus! {

/// Whether the device took every packet that a run of an egress pass asked it to send.
pub open spec fn all_taken(
    trace: Seq<(InterfaceView, EgressPhase)>,
    answers: Seq<bool>,
) -> bool {
    forall|i: int|
        0 <= i < answers.len() && model::egress_request(trace[i].0, trace[i].1) is Some
            ==> #[trigger] answers[i]
}

/// Whether the MLD report, if there is one, is not due yet.
pub open spec fn mld_not_due(v: InterfaceView) -> bool {
    model::mld_timeout(v.multicast.mld) matches Some(timeout) ==> v.now.micros < timeout.micros
}

/// Whether no report is due.
pub open spec fn no_report_due(v: InterfaceView) -> bool {
    &&& model::igmp_timeout(v.multicast.igmp) matches Some(timeout) ==> v.now.micros
        < timeout.micros
    &&& mld_not_due(v)
}

/// The packet that announces what is to become of a group: one that is being joined or left has
/// one, unless it is an IPv4 group and the interface has no IPv4 address.
pub open spec fn pending_packet(addrs: Seq<IpCidr>, entry: GroupEntry) -> Option<PacketView> {
    match entry.1 {
        GroupState::Joining => model::join_packet(addrs, entry.0),
        GroupState::Leaving => model::part_packet(addrs, entry.0),
        GroupState::Joined => None,
    }
}

/// The packet, where there is one, on its own.
pub open spec fn alone(packet: Option<PacketView>) -> Multiset<PacketView> {
    match packet {
        Some(packet) => Multiset::singleton(packet),
        None => Multiset::empty(),
    }
}

/// The packets that announce what is to become of the groups, one for each.
pub open spec fn pending_packets(
    addrs: Seq<IpCidr>,
    entries: Seq<GroupEntry>,
) -> Multiset<PacketView>
    decreases entries.len(),
{
    if entries.len() == 0 {
        Multiset::empty()
    } else {
        pending_packets(addrs, entries.drop_last()).add(
            alone(pending_packet(addrs, entries.last())),
        )
    }
}

/// The packets that a device was asked to send.
pub open spec fn packets_of(log: Seq<Transmission>) -> Multiset<PacketView>
    decreases log.len(),
{
    if log.len() == 0 {
        Multiset::empty()
    } else {
        packets_of(log.drop_last()).insert(log.last().packet)
    }
}

/// An egress pass in which the device takes every packet, and no report is due, sends exactly
/// one packet for each group that is being joined or left (none for an IPv4 group where the
/// interface has no IPv4 address). After it the groups that were listened to are joined, and
/// there are no others.
pub proof fn law_granted_egress_announces_each_group_once(
    before: InterfaceView,
    after: InterfaceView,
    trace: Seq<(InterfaceView, EgressPhase)>,
    answers: Seq<bool>,
)
    requires
        before.wf(),
        no_report_due(before),
        model::egress_pass(before, after, trace, answers),
        all_taken(trace, answers),
    ensures
        packets_of(model::egress_log(trace, answers)) == pending_packets(
            before.addrs,
            before.multicast.groups,
        ),
        after == before.with_groups(after.multicast.groups),
        after.wf(),
        forall|i: int|
            0 <= i < after.multicast.groups.len() ==> (#[trigger] after.multicast.groups[i]).1
                == GroupState::Joined,
        forall|addr: IpAddress| #[trigger]
            groups::has_entry(after.multicast.groups, addr) == model::is_member(
                before.multicast.groups,
                addr,
            ),
{
    let entries = after.multicast.groups;
    let n = answers.len() as int;
    lemma_announced(before, trace, answers, n);
    assert(answers.take(n) =~= answers);
    laws::law_granted_egress_settles_groups(before, after, trace, answers);
    lemma_joined_pend_nothing(after.addrs, entries);
    assert(packets_of(model::egress_log(trace, answers)).add(Multiset::empty()) =~= packets_of(
        model::egress_log(trace, answers),
    ));
    assert forall|addr: IpAddress| #[trigger]
        groups::has_entry(entries, addr) == model::is_member(
            before.multicast.groups,
            addr,
        ) by {
        laws::law_egress_keeps_members(before, after, trace, answers, addr);
        if groups::has_entry(entries, addr) {
            let i = choose|i: int| 0 <= i < entries.len() && (#[trigger] entries[i]).0 == addr;
            assert(entries[i].1 != GroupState::Leaving);
        }
    }
}

/// Where every group is joined and no report is due, an egress pass asks for nothing and changes
/// nothing.
pub proof fn law_settled_egress_is_silent(
    before: InterfaceView,
    after: InterfaceView,
    trace: Seq<(InterfaceView, EgressPhase)>,
    answers: Seq<bool>,
)
    requires
        !model::has_unsettled(before.multicast.groups),
        no_report_due(before),
        model::egress_pass(before, after, trace, answers),
    ensures
        model::egress_log(trace, answers).len() == 0,
        after == before,
{
    lemma_settled_pass(before, after, trace, answers);
    assert(before.with_igmp(before.multicast.igmp) =~= before);
}

/// An egress pass right after one in which the device took every packet sends nothing and
/// changes nothing, as long as no report is due.
pub proof fn law_second_egress_is_silent(
    before: InterfaceView,
    between: InterfaceView,
    after: InterfaceView,
    first_trace: Seq<(InterfaceView, EgressPhase)>,
    first_answers: Seq<bool>,
    second_trace: Seq<(InterfaceView, EgressPhase)>,
    second_answers: Seq<bool>,
)
    requires
        before.wf(),
        no_report_due(before),
        model::egress_pass(before, between, first_trace, first_answers),
        all_taken(first_trace, first_answers),
        model::egress_pass(between, after, second_trace, second_answers),
    ensures
        model::egress_log(second_trace, second_answers).len() == 0,
        after == between,
{
    law_granted_egress_announces_each_group_once(before, between, first_trace, first_answers);
    law_settled_egress_is_silent(between, after, second_trace, second_answers);
}

/// Where every group is joined and an IGMP report of all groups is due, with no MLD report due,
/// an egress pass that the device takes the packets of reports the next IPv4 group and puts off
/// the rest by the interval, from now at the earliest. Once there is no next group it sends
/// nothing, and the report is done with.
pub proof fn law_due_general_report_goes_on(
    before: InterfaceView,
    after: InterfaceView,
    trace: Seq<(InterfaceView, EgressPhase)>,
    answers: Seq<bool>,
    version: IgmpVersion,
    timeout: Instant,
    interval: Duration,
    index: usize,
)
    requires
        before.multicast.groups.len() <= IFACE_MAX_MULTICAST_GROUP_COUNT,
        !model::has_unsettled(before.multicast.groups),
        mld_not_due(before),
        model::interface_ipv4(before.addrs) is Some,
        before.multicast.igmp == (IgmpReportState::ToGeneralQuery {
            version,
            timeout,
            interval,
            next_index: index,
        }),
        before.now.micros >= timeout.micros,
        model::egress_pass(before, after, trace, answers),
        all_taken(trace, answers),
    ensures
        ({
            let reported = model::ipv4_groups(before.multicast.groups);
            let next = time::instant_after(timeout, interval);
            if index < reported.len() {
                &&& model::egress_log(trace, answers) == seq![
                    Transmission {
                        timestamp: before.now,
                        packet: model::report_packet(
                            before.addrs,
                            version,
                            reported[index as int],
                        )->0,
                        taken: true,
                    },
                ]
                &&& after == before.with_igmp(
                    IgmpReportState::ToGeneralQuery {
                        version,
                        timeout: if next.micros <= before.now.micros {
                            before.now
                        } else {
                            next
                        },
                        interval,
                        next_index: (index + 1) as usize,
                    },
                )
            } else {
                &&& model::egress_log(trace, answers).len() == 0
                &&& after == before.with_igmp(IgmpReportState::Inactive)
            }
        }),
{
    lemma_settled_pass(before, after, trace, answers);
    assert(answers.len() >= 4);
    assert(trace[2] == (before, EgressPhase::IgmpReport));
    if model::egress_request(before, EgressPhase::IgmpReport) is Some {
        assert(answers[2]);
    }
}

/// A call for an egress pass.
pub struct EgressCall {
    pub before: InterfaceView,
    pub after: InterfaceView,
    pub trace: Seq<(InterfaceView, EgressPhase)>,
    pub answers: Seq<bool>,
}

impl EgressCall {
    /// The call runs a pass in which the device takes every packet, at a time when the IGMP
    /// report is due.
    pub open spec fn reports(self) -> bool {
        &&& model::egress_pass(self.before, self.after, self.trace, self.answers)
        &&& all_taken(self.trace, self.answers)
        &&& model::igmp_timeout(self.before.multicast.igmp) matches Some(timeout)
            && self.before.now.micros >= timeout.micros
    }

    /// What the device was asked to send.
    pub open spec fn log(self) -> Seq<Transmission> {
        model::egress_log(self.trace, self.answers)
    }
}

/// Whether the calls follow each other with nothing but time passing between them.
pub open spec fn in_succession(calls: Seq<EgressCall>) -> bool {
    forall|k: int|
        1 <= k < calls.len() ==> (#[trigger] calls[k]).before == (InterfaceView {
            now: calls[k].before.now,
            ..calls[k - 1].after
        })
}

/// The due calls that follow one general IGMP query, as many as there are IPv4 groups and one
/// more, report each IPv4 group once, in table order: each of the first calls sends the report
/// of one group and nothing else, and the last sends nothing and ends the report. No other
/// group is reported, and the groups stay as they are.
pub proof fn law_general_query_reports_each_group_once(
    calls: Seq<EgressCall>,
    groups: Seq<GroupEntry>,
    addrs: Seq<IpCidr>,
    version: IgmpVersion,
    timeout: Instant,
    interval: Duration,
)
    requires
        groups.len() <= IFACE_MAX_MULTICAST_GROUP_COUNT,
        model::distinct(groups),
        !model::has_unsettled(groups),
        model::interface_ipv4(addrs) is Some,
        calls.len() == model::ipv4_groups(groups).len() + 1,
        calls[0].before.addrs == addrs,
        calls[0].before.multicast == (model::StateView {
            groups,
            igmp: IgmpReportState::ToGeneralQuery { version, timeout, interval, next_index: 0 },
            mld: MldReportState::Inactive,
        }),
        forall|k: int| 0 <= k < calls.len() ==> (#[trigger] calls[k]).reports(),
        in_succession(calls),
    ensures
        ({
            let reported = model::ipv4_groups(groups);
            let last = calls.len() - 1;
            &&& forall|k: int|
                0 <= k < last ==> (#[trigger] calls[k]).log().len() == 1
                    && calls[k].log()[0].packet == model::report_packet(
                    addrs,
                    version,
                    reported[k],
                )->0
            &&& calls[last].log().len() == 0
            &&& calls[last].after.multicast.igmp == IgmpReportState::Inactive
            &&& calls[last].after.multicast.groups == groups
            &&& reported.no_duplicates()
            &&& forall|addr: Ipv4Address| #[trigger]
                reported.contains(addr) == groups::has_entry(groups, IpAddress::Ipv4(addr))
        }),
{
    let reported = model::ipv4_groups(groups);
    let last = calls.len() - 1;
    assert forall|k: int| 0 <= k < last implies (#[trigger] calls[k]).log().len() == 1
        && calls[k].log()[0].packet == model::report_packet(addrs, version, reported[k])->0 by {
        lemma_report_call(calls, groups, addrs, version, interval, k);
    }
    lemma_report_call(calls, groups, addrs, version, interval, last);
    lemma_ipv4_groups(groups);
}

/// The call `k` of those that follow a general query: where it starts, what it sends and where
/// it ends.
proof fn lemma_report_call(
    calls: Seq<EgressCall>,
    groups: Seq<GroupEntry>,
    addrs: Seq<IpCidr>,
    version: IgmpVersion,
    interval: Duration,
    k: int,
)
    requires
        groups.len() <= IFACE_MAX_MULTICAST_GROUP_COUNT,
        !model::has_unsettled(groups),
        model::interface_ipv4(addrs) is Some,
        0 <= k < calls.len() == model::ipv4_groups(groups).len() + 1,
        calls[0].before.addrs == addrs,
        calls[0].before.multicast.groups == groups,
        calls[0].before.multicast.mld == MldReportState::Inactive,
        calls[0].before.multicast.igmp matches IgmpReportState::ToGeneralQuery {
            version: v,
            interval: i,
            next_index,
            ..
        } && v == version && i == interval && next_index == 0,
        forall|j: int| 0 <= j < calls.len() ==> (#[trigger] calls[j]).reports(),
        in_succession(calls),
    ensures
        calls[k].before.addrs == addrs,
        calls[k].before.multicast.groups == groups,
        calls[k].before.multicast.mld == MldReportState::Inactive,
        calls[k].before.multicast.igmp matches IgmpReportState::ToGeneralQuery {
            version: v,
            interval: i,
            next_index,
            ..
        } && v == version && i == interval && next_index == k,
        calls[k].after.multicast.groups == groups,
        k < calls.len() - 1 ==> calls[k].log().len() == 1 && calls[k].log()[0].packet
            == model::report_packet(addrs, version, model::ipv4_groups(groups)[k])->0,
        k == calls.len() - 1 ==> calls[k].log().len() == 0 && calls[k].after.multicast.igmp
            == IgmpReportState::Inactive,
    decreases k,
{
    lemma_ipv4_groups_len(groups);
    if k > 0 {
        lemma_report_call(calls, groups, addrs, version, interval, k - 1);
        let previous = calls[k - 1];
        assert(previous.reports());
        let start = previous.before.multicast.igmp;
        law_due_general_report_goes_on(
            previous.before,
            previous.after,
            previous.trace,
            previous.answers,
            version,
            start->ToGeneralQuery_timeout,
            interval,
            start->next_index,
        );
        assert(calls[k].before == (InterfaceView {
            now: calls[k].before.now,
            ..calls[k - 1].after
        }));
    }
    let call = calls[k];
    assert(call.reports());
    let start = call.before.multicast.igmp;
    law_due_general_report_goes_on(
        call.before,
        call.after,
        call.trace,
        call.answers,
        version,
        start->ToGeneralQuery_timeout,
        interval,
        start->next_index,
    );
}

/// There are no more IPv4 groups than groups.
proof fn lemma_ipv4_groups_len(entries: Seq<GroupEntry>)
    ensures
        model::ipv4_groups(entries).len() <= entries.len(),
    decreases entries.len(),
{
    if entries.len() > 0 {
        lemma_ipv4_groups_len(entries.drop_last());
    }
}

/// The IPv4 groups are those that have an entry, each once.
proof fn lemma_ipv4_groups(entries: Seq<GroupEntry>)
    requires
        model::distinct(entries),
    ensures
        model::ipv4_groups(entries).no_duplicates(),
        forall|addr: Ipv4Address| #[trigger]
            model::ipv4_groups(entries).contains(addr) == groups::has_entry(
                entries,
                IpAddress::Ipv4(addr),
            ),
    decreases entries.len(),
{
    let all = model::ipv4_groups(entries);
    if entries.len() > 0 {
        let fewer = entries.drop_last();
        let rest = model::ipv4_groups(fewer);
        assert forall|i: int, j: int| 0 <= i < j < fewer.len() implies (#[trigger] fewer[i]).0 != (
        #[trigger] fewer[j]).0 by {
            assert(entries[i].0 != entries[j].0);
        }
        lemma_ipv4_groups(fewer);
        let last = entries.len() - 1;
        assert(!groups::has_entry(fewer, entries.last().0)) by {
            assert forall|i: int| 0 <= i < fewer.len() implies (#[trigger] fewer[i]).0
                != entries.last().0 by {
                assert(entries[i].0 != entries[last].0);
            }
        }
        assert forall|addr: Ipv4Address| #[trigger]
            all.contains(addr) == groups::has_entry(entries, IpAddress::Ipv4(addr)) by {
            assert(rest.contains(addr) == groups::has_entry(fewer, IpAddress::Ipv4(addr)));
            if groups::has_entry(fewer, IpAddress::Ipv4(addr)) {
                let i = choose|i: int|
                    0 <= i < fewer.len() && (#[trigger] fewer[i]).0 == IpAddress::Ipv4(addr);
                assert(entries[i].0 == IpAddress::Ipv4(addr));
            }
            if groups::has_entry(entries, IpAddress::Ipv4(addr)) {
                let i = choose|i: int|
                    0 <= i < entries.len() && (#[trigger] entries[i]).0 == IpAddress::Ipv4(addr);
                if i < last {
                    assert(fewer[i].0 == IpAddress::Ipv4(addr));
                }
            }
            if let IpAddress::Ipv4(own) = entries.last().0 {
                assert(all == rest.push(own));
                assert(entries[last].0 == IpAddress::Ipv4(own));
                assert(all[rest.len() as int] == own);
                if rest.contains(addr) {
                    let k = choose|k: int| 0 <= k < rest.len() && rest[k] == addr;
                    assert(all[k] == addr);
                }
                if all.contains(addr) && addr != own {
                    let k = choose|k: int| 0 <= k < all.len() && all[k] == addr;
                    assert(rest[k] == addr);
                }
            }
        }
        if let IpAddress::Ipv4(own) = entries.last().0 {
            assert(rest.contains(own) == groups::has_entry(fewer, IpAddress::Ipv4(own)));
            assert(all == rest.push(own));
        }
    }
}

/// Where every group is joined and no MLD report is due, an egress pass is about the IGMP report
/// alone.
proof fn lemma_settled_pass(
    before: InterfaceView,
    after: InterfaceView,
    trace: Seq<(InterfaceView, EgressPhase)>,
    answers: Seq<bool>,
)
    requires
        !model::has_unsettled(before.multicast.groups),
        mld_not_due(before),
        model::egress_pass(before, after, trace, answers),
    ensures
        answers.len() >= 4,
        trace[2] == (before, EgressPhase::IgmpReport),
        ({
            let request = model::egress_request(before, EgressPhase::IgmpReport);
            &&& after == before.with_igmp(
                model::igmp_after(before, request is Some && answers[2]),
            )
            &&& model::egress_log(trace, answers) == match request {
                Some(packet) => seq![
                    Transmission { timestamp: before.now, packet, taken: answers[2] },
                ],
                None => seq![],
            }
        }),
{
    let n = answers.len() as int;
    lemma_settled_trace(before, trace, answers, n);
    assert(answers.take(n) =~= answers);
    if n >= 3 {
        lemma_settled_trace(before, trace, answers, 2);
    }
}

/// Where a run of an egress pass is after `n` steps, and what it has asked for, when every group
/// is joined and no MLD report is due.
proof fn lemma_settled_trace(
    before: InterfaceView,
    trace: Seq<(InterfaceView, EgressPhase)>,
    answers: Seq<bool>,
    n: int,
)
    requires
        !model::has_unsettled(before.multicast.groups),
        mld_not_due(before),
        model::egress_trace(trace, answers),
        trace.first() == (before, EgressPhase::Join),
        0 <= n <= answers.len(),
    ensures
        ({
            let request = model::egress_request(before, EgressPhase::IgmpReport);
            let reported = before.with_igmp(
                model::igmp_after(before, request is Some && answers[2]),
            );
            &&& trace[n] == if n == 0 {
                (before, EgressPhase::Join)
            } else if n == 1 {
                (before, EgressPhase::Leave)
            } else if n == 2 {
                (before, EgressPhase::IgmpReport)
            } else if n == 3 {
                (reported, EgressPhase::MldReport)
            } else {
                (reported, EgressPhase::Done)
            }
            &&& model::egress_log(trace, answers.take(n)) == match request {
                Some(packet) if n >= 3 => seq![
                    Transmission { timestamp: before.now, packet, taken: answers[2] },
                ],
                _ => seq![],
            }
        }),
    decreases n,
{
    let entries = before.multicast.groups;
    if n > 0 {
        lemma_settled_trace(before, trace, answers, n - 1);
        assert(answers.take(n).drop_last() =~= answers.take(n - 1));
        assert(trace[n - 1 + 1] == model::egress_next(
            trace[n - 1].0,
            trace[n - 1].1,
            answers[n - 1],
        ));
        assert(model::pending_index(entries, GroupState::Joining) is None) by {
            if let Some(i) = model::pending_index(entries, GroupState::Joining) {
                assert(model::first_in_state(entries, GroupState::Joining, i));
                assert(entries[i].1 != GroupState::Joined);
            }
        }
        assert(model::pending_index(entries, GroupState::Leaving) is None) by {
            if let Some(i) = model::pending_index(entries, GroupState::Leaving) {
                assert(model::first_in_state(entries, GroupState::Leaving, i));
                assert(entries[i].1 != GroupState::Joined);
            }
        }
        if n == 4 {
            let v = trace[3].0;
            assert(v.with_mld(v.multicast.mld) =~= v);
        }
    }
}

/// What a run of an egress pass in which the device takes every packet has sent after `n` steps,
/// and what it has still to send, are what it had to send; nothing but the groups changes.
proof fn lemma_announced(
    before: InterfaceView,
    trace: Seq<(InterfaceView, EgressPhase)>,
    answers: Seq<bool>,
    n: int,
)
    requires
        before.wf(),
        no_report_due(before),
        model::egress_trace(trace, answers),
        trace.first() == (before, EgressPhase::Join),
        all_taken(trace, answers),
        0 <= n <= answers.len(),
    ensures
        trace[n].0 == before.with_groups(trace[n].0.multicast.groups),
        trace[n].0.wf(),
        packets_of(model::egress_log(trace, answers.take(n))).add(
            pending_packets(before.addrs, trace[n].0.multicast.groups),
        ) == pending_packets(before.addrs, before.multicast.groups),
    decreases n,
{
    if n == 0 {
        assert(before.with_groups(before.multicast.groups) =~= before);
        assert(Multiset::<PacketView>::empty().add(
            pending_packets(before.addrs, before.multicast.groups),
        ) =~= pending_packets(before.addrs, before.multicast.groups));
    } else {
        lemma_announced(before, trace, answers, n - 1);
        let (v, phase) = trace[n - 1];
        let granted = answers[n - 1];
        let entries = v.multicast.groups;
        let after = trace[n].0.multicast.groups;
        let log = model::egress_log(trace, answers.take(n));
        let log_before = model::egress_log(trace, answers.take(n - 1));
        assert(trace[n - 1 + 1] == model::egress_next(v, phase, granted));
        assert(answers.take(n).drop_last() =~= answers.take(n - 1));
        laws::law_egress_step_keeps_members(
            v,
            phase,
            granted,
            IpAddress::Ipv4(Ipv4Address { bits: 0 }),
        );
        match phase {
            EgressPhase::Join => {
                if let Some(i) = model::pending_index(entries, GroupState::Joining) {
                    assert(model::first_in_state(entries, GroupState::Joining, i));
                    let entry = (entries[i].0, GroupState::Joined);
                    lemma_pending_update(before.addrs, entries, i, entry);
                    lemma_log_packet(
                        log_before,
                        log,
                        v.now,
                        pending_packet(before.addrs, entries[i]),
                        granted,
                    );
                    lemma_moved(
                        packets_of(log_before),
                        packets_of(log),
                        pending_packets(before.addrs, entries),
                        pending_packets(before.addrs, after),
                        alone(pending_packet(before.addrs, entries[i])),
                    );
                }
            },
            EgressPhase::Leave => {
                if let Some(i) = model::pending_index(entries, GroupState::Leaving) {
                    assert(model::first_in_state(entries, GroupState::Leaving, i));
                    lemma_pending_removed(before.addrs, entries, i);
                    lemma_log_packet(
                        log_before,
                        log,
                        v.now,
                        pending_packet(before.addrs, entries[i]),
                        granted,
                    );
                    lemma_moved(
                        packets_of(log_before),
                        packets_of(log),
                        pending_packets(before.addrs, entries),
                        pending_packets(before.addrs, after),
                        alone(pending_packet(before.addrs, entries[i])),
                    );
                }
            },
            EgressPhase::IgmpReport => {
                assert(v.with_igmp(v.multicast.igmp) =~= v);
            },
            EgressPhase::MldReport => {
                assert(v.with_mld(v.multicast.mld) =~= v);
            },
            EgressPhase::Done => {},
        }
    }
}

/// A log with one more packet, where there is one, holds the packets of the log and that one.
proof fn lemma_log_packet(
    before: Seq<Transmission>,
    after: Seq<Transmission>,
    timestamp: Instant,
    packet: Option<PacketView>,
    taken: bool,
)
    requires
        after == match packet {
            Some(packet) => before.push(Transmission { timestamp, packet, taken }),
            None => before,
        },
    ensures
        packets_of(after) == packets_of(before).add(alone(packet)),
{
    match packet {
        Some(packet) => {
            assert(after.drop_last() =~= before);
            assert(packets_of(before).insert(packet) =~= packets_of(before).add(
                Multiset::singleton(packet),
            ));
        },
        None => {
            assert(packets_of(before).add(Multiset::empty()) =~= packets_of(before));
        },
    }
}

/// Moving packets from one collection to another keeps what both hold.
proof fn lemma_moved(
    sent: Multiset<PacketView>,
    sent_after: Multiset<PacketView>,
    left: Multiset<PacketView>,
    left_after: Multiset<PacketView>,
    moved: Multiset<PacketView>,
)
    requires
        sent_after == sent.add(moved),
        left == left_after.add(moved),
    ensures
        sent_after.add(left_after) == sent.add(left),
{
    assert(sent_after.add(left_after) =~= sent.add(left));
}

/// Changing an entry changes what it calls for, and nothing else.
proof fn lemma_entry_changed(
    addrs: Seq<IpCidr>,
    entries: Seq<GroupEntry>,
    i: int,
    entry: GroupEntry,
)
    requires
        0 <= i < entries.len(),
    ensures
        pending_packets(addrs, entries.update(i, entry)).add(
            alone(pending_packet(addrs, entries[i])),
        ) == pending_packets(addrs, entries).add(alone(pending_packet(addrs, entry))),
    decreases entries.len(),
{
    let after = entries.update(i, entry);
    let was = alone(pending_packet(addrs, entries[i]));
    let is = alone(pending_packet(addrs, entry));
    if i == entries.len() - 1 {
        assert(after.drop_last() =~= entries.drop_last());
        let rest = pending_packets(addrs, entries.drop_last());
        assert(rest.add(is).add(was) =~= rest.add(was).add(is));
    } else {
        lemma_entry_changed(addrs, entries.drop_last(), i, entry);
        assert(after.drop_last() =~= entries.drop_last().update(i, entry));
        let rest = pending_packets(addrs, entries.drop_last());
        let rest_after = pending_packets(addrs, after.drop_last());
        let last = alone(pending_packet(addrs, entries.last()));
        assert(rest_after.add(was) == rest.add(is));
        assert(rest_after.add(last).add(was) =~= rest_after.add(was).add(last));
        assert(rest.add(last).add(is) =~= rest.add(is).add(last));
    }
}

/// An entry that is joined calls for nothing any more.
proof fn lemma_pending_update(
    addrs: Seq<IpCidr>,
    entries: Seq<GroupEntry>,
    i: int,
    entry: GroupEntry,
)
    requires
        0 <= i < entries.len(),
        entry.1 == GroupState::Joined,
    ensures
        pending_packets(addrs, entries) == pending_packets(addrs, entries.update(i, entry)).add(
            alone(pending_packet(addrs, entries[i])),
        ),
{
    lemma_entry_changed(addrs, entries, i, entry);
    assert(pending_packets(addrs, entries).add(Multiset::empty()) =~= pending_packets(
        addrs,
        entries,
    ));
}

/// An entry that goes takes what it calls for with it.
proof fn lemma_pending_removed(addrs: Seq<IpCidr>, entries: Seq<GroupEntry>, i: int)
    requires
        0 <= i < entries.len(),
    ensures
        pending_packets(addrs, entries) == pending_packets(
            addrs,
            groups::swap_removed(entries, i),
        ).add(alone(pending_packet(addrs, entries[i]))),
{
    let after = groups::swap_removed(entries, i);
    let fewer = entries.drop_last();
    if i == entries.len() - 1 {
        assert(after =~= fewer);
    } else {
        assert(after =~= fewer.update(i, entries.last()));
        lemma_entry_changed(addrs, fewer, i, entries.last());
        assert(fewer[i] == entries[i]);
    }
}

/// Groups that are joined call for nothing.
proof fn lemma_joined_pend_nothing(addrs: Seq<IpCidr>, entries: Seq<GroupEntry>)
    requires
        !model::has_unsettled(entries),
    ensures
        pending_packets(addrs, entries) == Multiset::<PacketView>::empty(),
        forall|i: int|
            0 <= i < entries.len() ==> (#[trigger] entries[i]).1 == GroupState::Joined,
    decreases entries.len(),
{
    if entries.len() > 0 {
        let fewer = entries.drop_last();
        assert(!model::has_unsettled(fewer)) by {
            if model::has_unsettled(fewer) {
                let i = choose|i: int|
                    0 <= i < fewer.len() && (#[trigger] fewer[i]).1 != GroupState::Joined;
                assert(entries[i].1 != GroupState::Joined);
            }
        }
        lemma_joined_pend_nothing(addrs, fewer);
        assert(entries[entries.len() - 1].1 == GroupState::Joined);
        assert(Multiset::<PacketView>::empty().add(Multiset::empty())
            =~= Multiset::<PacketView>::empty());
    }
}

} // verus!
