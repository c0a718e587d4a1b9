//! What holds of multicast membership across operations.
use vstd::prelude::*;

use crate::config::IFACE_MAX_MULTICAST_GROUP_COUNT;
use crate::iface::groups::{self, GroupEntry, GroupState};
use crate::iface::lemmas;
use crate::iface::model::{self, EgressPhase, InterfaceView, MldReportState};
use crate::rand::Rand;
use crate::time::Instant;
use crate::wire::igmp::{self, IgmpRepr, IgmpVersion};
use crate::wire::ip::{IpAddress, IpCidr, Ipv4Address, Ipv6Address, IPV4_MULTICAST_ALL_SYSTEMS};
use crate::wire::mld;

verus! {

/// A group that was joined is listened to, and no other group is touched by the join.
pub proof fn law_join_adds_one_member(
    entries: Seq<GroupEntry>,
    addr: IpAddress,
    other: IpAddress,
)
    requires
        model::distinct(entries),
        model::joined(entries, addr) is Some,
    ensures
        model::distinct(model::joined(entries, addr)->0),
        model::is_member(model::joined(entries, addr)->0, addr),
        other != addr ==> model::is_member(model::joined(entries, addr)->0, other)
            == model::is_member(entries, other),
{
    let after = model::joined(entries, addr)->0;
    if groups::has_entry(entries, addr) {
        lemmas::lemma_entry_index(entries, addr);
        let i = model::entry_index(entries, addr);
        assert(after[i].0 == addr && after[i].1 != GroupState::Leaving);
        lemma_same_elsewhere(entries, after, i, other);
    } else {
        lemmas::lemma_push_distinct(entries, addr, GroupState::Joining);
        let last = entries.len() as int;
        assert(after[last] == (addr, GroupState::Joining));
        if other != addr && model::is_member(entries, other) {
            let k = choose|k: int|
                0 <= k < entries.len() && (#[trigger] entries[k]).0 == other && entries[k].1
                    != GroupState::Leaving;
            assert(after[k] == entries[k]);
        }
        if other != addr && model::is_member(after, other) {
            let k = choose|k: int|
                0 <= k < after.len() && (#[trigger] after[k]).0 == other && after[k].1
                    != GroupState::Leaving;
            assert(after[k] == entries[k]);
        }
    }
}

/// A group that was left is not listened to, and no other group is touched by the leave.
pub proof fn law_leave_drops_one_member(
    entries: Seq<GroupEntry>,
    addr: IpAddress,
    other: IpAddress,
)
    requires
        model::distinct(entries),
    ensures
        model::distinct(model::left(entries, addr)),
        !model::is_member(model::left(entries, addr), addr),
        other != addr ==> model::is_member(model::left(entries, addr), other) == model::is_member(
            entries,
            other,
        ),
{
    let after = model::left(entries, addr);
    if groups::has_entry(entries, addr) {
        lemmas::lemma_entry_index(entries, addr);
        let i = model::entry_index(entries, addr);
        if entries[i].1 == GroupState::Joining {
            lemmas::lemma_removed_distinct(entries, i);
            lemma_removed_members(entries, i, addr);
            lemma_removed_members(entries, i, other);
        } else {
            lemmas::lemma_update_distinct(entries, i, GroupState::Leaving);
            lemma_same_elsewhere(entries, after, i, other);
        }
    }
}

/// Joining a group twice is joining it once.
pub proof fn law_join_is_idempotent(entries: Seq<GroupEntry>, addr: IpAddress)
    requires
        model::distinct(entries),
        model::joined(entries, addr) is Some,
    ensures
        model::joined(model::joined(entries, addr)->0, addr) == model::joined(entries, addr),
{
    let after = model::joined(entries, addr)->0;
    if groups::has_entry(entries, addr) {
        lemmas::lemma_entry_index(entries, addr);
        let i = model::entry_index(entries, addr);
        lemmas::lemma_entry_unique(after, i);
    } else {
        lemmas::lemma_push_distinct(entries, addr, GroupState::Joining);
        lemmas::lemma_entry_unique(after, entries.len() as int);
    }
}

/// Leaving a group twice is leaving it once.
pub proof fn law_leave_is_idempotent(entries: Seq<GroupEntry>, addr: IpAddress)
    requires
        model::distinct(entries),
    ensures
        model::left(model::left(entries, addr), addr) == model::left(entries, addr),
{
    let after = model::left(entries, addr);
    if groups::has_entry(entries, addr) {
        lemmas::lemma_entry_index(entries, addr);
        let i = model::entry_index(entries, addr);
        if entries[i].1 == GroupState::Joining {
            lemma_removed_entry(entries, i);
        } else {
            lemmas::lemma_update_distinct(entries, i, GroupState::Leaving);
            lemmas::lemma_entry_unique(after, i);
            assert(after.update(i, (addr, GroupState::Leaving)) =~= after);
        }
    }
}

/// Leaving a group before its join was sent undoes the join: nothing is left to send.
pub proof fn law_leave_undoes_unsent_join(entries: Seq<GroupEntry>, addr: IpAddress)
    requires
        model::distinct(entries),
        !groups::has_entry(entries, addr),
        entries.len() < IFACE_MAX_MULTICAST_GROUP_COUNT,
    ensures
        model::left(model::joined(entries, addr)->0, addr) == entries,
{
    let after = model::joined(entries, addr)->0;
    let last = entries.len() as int;
    lemmas::lemma_push_distinct(entries, addr, GroupState::Joining);
    lemmas::lemma_entry_unique(after, last);
    assert(groups::swap_removed(after, last) =~= entries);
}

/// Joining a group again before its leave was sent undoes the leave: nothing is left to
/// send.
pub proof fn law_join_undoes_unsent_leave(entries: Seq<GroupEntry>, i: int)
    requires
        model::distinct(entries),
        0 <= i < entries.len(),
        entries[i].1 == GroupState::Joined,
    ensures
        model::joined(model::left(entries, entries[i].0), entries[i].0) == Some(entries),
{
    let addr = entries[i].0;
    lemmas::lemma_entry_unique(entries, i);
    let after = model::left(entries, addr);
    lemmas::lemma_update_distinct(entries, i, GroupState::Leaving);
    lemmas::lemma_entry_unique(after, i);
    assert(after.update(i, (addr, GroupState::Joined)) =~= entries);
}

/// A step of an egress pass changes no group's membership.
pub proof fn law_egress_step_keeps_members(
    v: InterfaceView,
    phase: EgressPhase,
    granted: bool,
    addr: IpAddress,
)
    requires
        v.wf(),
    ensures
        model::distinct(model::egress_next(v, phase, granted).0.multicast.groups),
        model::is_member(model::egress_next(v, phase, granted).0.multicast.groups, addr)
            == model::is_member(v.multicast.groups, addr),
{
    let entries = v.multicast.groups;
    let after = model::egress_next(v, phase, granted).0.multicast.groups;
    match phase {
        EgressPhase::Join => {
            if let Some(i) = model::pending_index(entries, GroupState::Joining) {
                assert(model::first_in_state(entries, GroupState::Joining, i));
                lemmas::lemma_update_distinct(entries, i, GroupState::Joined);
                if after != entries {
                    assert(after[i].0 == entries[i].0);
                    lemma_same_elsewhere(entries, after, i, addr);
                    if addr == entries[i].0 {
                        assert(after[i].1 != GroupState::Leaving);
                        assert(entries[i].1 != GroupState::Leaving);
                    }
                }
            }
        },
        EgressPhase::Leave => {
            if let Some(i) = model::pending_index(entries, GroupState::Leaving) {
                assert(model::first_in_state(entries, GroupState::Leaving, i));
                lemmas::lemma_removed_distinct(entries, i);
                lemma_removed_members(entries, i, addr);
                if addr == entries[i].0 && model::is_member(entries, addr) {
                    let k = choose|k: int|
                        0 <= k < entries.len() && (#[trigger] entries[k]).0 == addr && entries[k].1
                            != GroupState::Leaving;
                    assert(entries[k].0 != entries[i].0);
                }
            }
        },
        _ => {},
    }
}

/// An egress pass changes no group's membership, whatever the device answers.
pub proof fn law_egress_keeps_members(
    before: InterfaceView,
    after: InterfaceView,
    trace: Seq<(InterfaceView, EgressPhase)>,
    answers: Seq<bool>,
    addr: IpAddress,
)
    requires
        before.wf(),
        model::egress_pass(before, after, trace, answers),
    ensures
        model::is_member(after.multicast.groups, addr) == model::is_member(
            before.multicast.groups,
            addr,
        ),
{
    lemma_trace_keeps_members(trace, answers, answers.len() as int, addr);
}

/// An egress pass in which the device takes every packet leaves no join or leave unsent.
pub proof fn law_granted_egress_settles_groups(
    before: InterfaceView,
    after: InterfaceView,
    trace: Seq<(InterfaceView, EgressPhase)>,
    answers: Seq<bool>,
)
    requires
        before.wf(),
        model::egress_pass(before, after, trace, answers),
        forall|i: int|
            0 <= i < answers.len() && model::egress_request(trace[i].0, trace[i].1) is Some
                ==> #[trigger] answers[i],
    ensures
        !model::has_unsettled(after.multicast.groups),
{
    lemma_trace_settles(trace, answers, answers.len() as int);
}

/// A report that the device refuses stays due, and nothing else changes.
pub proof fn law_refused_report_stays_due(v: InterfaceView, phase: EgressPhase)
    requires
        phase == EgressPhase::IgmpReport || phase == EgressPhase::MldReport,
        model::egress_request(v, phase) is Some,
    ensures
        model::egress_next(v, phase, false).0 == v,
{
}

/// What a run of an egress pass has asked of a device that refuses everything, and the phases
/// that are still to come, are no more than the phases there are.
proof fn lemma_refused_log_is_short(
    trace: Seq<(InterfaceView, EgressPhase)>,
    answers: Seq<bool>,
    n: int,
)
    requires
        model::egress_trace(trace, answers),
        trace.first().1 == EgressPhase::Join,
        forall|i: int| 0 <= i < answers.len() ==> !#[trigger] answers[i],
        0 <= n <= answers.len(),
    ensures
        model::egress_log(trace, answers.take(n)).len() + lemmas::phase_rank(trace[n].1) <= 4,
    decreases n,
{
    if n > 0 {
        lemma_refused_log_is_short(trace, answers, n - 1);
        assert(answers.take(n).drop_last() =~= answers.take(n - 1));
        assert(!answers[n - 1]);
        let (v, phase) = trace[n - 1];
        if phase != EgressPhase::Done {
            lemmas::lemma_egress_progress(v, phase, false);
        }
    }
}

/// A device that refuses everything is asked at most once in each phase of an egress pass.
pub proof fn law_refused_egress_gives_up(
    before: InterfaceView,
    after: InterfaceView,
    trace: Seq<(InterfaceView, EgressPhase)>,
    answers: Seq<bool>,
)
    requires
        model::egress_pass(before, after, trace, answers),
        forall|i: int| 0 <= i < answers.len() ==> !#[trigger] answers[i],
    ensures
        model::egress_log(trace, answers).len() <= 4,
{
    lemma_refused_log_is_short(trace, answers, answers.len() as int);
    assert(answers.take(answers.len() as int) =~= answers);
}

/// An MLD report that was sent, or that is due with nothing to report, is not due again.
pub proof fn law_settled_mld_report_clears(v: InterfaceView, granted: bool)
    requires
        model::mld_timeout(v.multicast.mld) matches Some(timeout) && v.now.micros
            >= timeout.micros,
        model::egress_request(v, EgressPhase::MldReport) is None || granted,
    ensures
        model::egress_next(v, EgressPhase::MldReport, granted).0.multicast.mld
            == MldReportState::Inactive,
{
}

/// Asking for another report never puts off the one that was due, and the merged report
/// still answers for every group that either asked for.
pub proof fn law_reschedule_is_prompt(
    pending: MldReportState,
    group: Option<Ipv6Address>,
    timeout: Instant,
)
    ensures
        ({
            let merged = model::rescheduled(pending, group, timeout);
            &&& model::mld_timeout(merged) matches Some(at) && at.micros <= timeout.micros
            &&& model::mld_timeout(pending) matches Some(due) ==> model::mld_timeout(
                merged,
            )->0.micros <= due.micros
            &&& merged matches MldReportState::ToSpecificQuery { group: only, .. } ==> {
                &&& group == Some(only)
                &&& pending !is ToGeneralQuery
                &&& pending matches MldReportState::ToSpecificQuery { group: other, .. }
                    ==> other == only
            }
        }),
{
}

/// The random delay of a report is no longer than the query allows, and at least a
/// millisecond where it allows one.
pub proof fn law_report_delay_in_range(rand: Rand, code: u16)
    ensures
        model::report_delay(rand, code).micros <= mld::response_millis(code) * 1000,
        mld::response_millis(code) > 0 ==> model::report_delay(rand, code).micros >= 1000,
{
    lemma_response_millis_range(code);
    if mld::response_millis(code) != 0 {
        let drawn = crate::rand::output(crate::rand::next_state(rand.state)) as int;
        vstd::arithmetic::div_mod::lemma_mod_bound(drawn, mld::response_millis(code));
    }
}

/// The reports that answer a general version 2 query are spread over the response time: the
/// last of them is due before it is over.
pub proof fn law_general_reports_fit_response_time(
    v: InterfaceView,
    message: Seq<u8>,
    max_resp_time: crate::time::Duration,
)
    requires
        igmp::parsed(message) == Some(
            IgmpRepr::MembershipQuery {
                max_resp_time,
                group_addr: Ipv4Address { bits: 0 },
                version: IgmpVersion::Version2,
            },
        ),
        model::ipv4_groups(v.multicast.groups).len() > 0,
    ensures
        model::igmp_heard(
            v,
            Ipv4Address { bits: IPV4_MULTICAST_ALL_SYSTEMS },
            message,
        ).multicast.igmp matches model::IgmpReportState::ToGeneralQuery { interval, next_index, .. }
            && next_index == 0 && interval.micros * model::ipv4_groups(v.multicast.groups).len()
            <= max_resp_time.micros,
{
    let count = model::ipv4_groups(v.multicast.groups).len() as int;
    let total = max_resp_time.micros as int;
    let part = total / (count + 1);
    vstd::arithmetic::div_mod::lemma_fundamental_div_mod(total, count + 1);
    assert(0 <= part <= total && part * count <= total) by (nonlinear_arith)
        requires
            total == (count + 1) * part + total % (count + 1),
            0 <= total % (count + 1),
            count > 0,
            total >= 0,
            part == total / (count + 1),
    ;
}

/// Once the solicited-node groups follow the addresses, none that no address has is
/// listened to.
pub proof fn law_no_stale_solicited_groups(
    entries: Seq<GroupEntry>,
    addrs: Seq<IpCidr>,
    addr: IpAddress,
)
    requires
        model::distinct(entries),
        model::is_stale(addrs, addr),
    ensures
        !model::is_member(model::solicited_updated(entries, addrs), addr),
{
    let stale = model::stale_groups(entries, addrs);
    lemma_left_all_drops(entries, stale, addr);
    if groups::has_entry(entries, addr) {
        lemma_stale_listed(entries, addrs, addr);
    } else if model::is_member(entries, addr) {
        let k = choose|k: int|
            0 <= k < entries.len() && (#[trigger] entries[k]).0 == addr && entries[k].1
                != GroupState::Leaving;
        assert(groups::has_entry(entries, addr));
    }
    assert(addrs =~= addrs.take(addrs.len() as int));
    lemma_wanted_not_stale(model::left_all(entries, stale), addrs, addrs, addr);
}

/// Once the solicited-node groups follow the addresses, each group that an address wants is
/// listened to, unless the table is full.
pub proof fn law_wanted_groups_are_joined(entries: Seq<GroupEntry>, addrs: Seq<IpCidr>, i: int)
    requires
        model::distinct(entries),
        0 <= i < addrs.len(),
        model::wanted_group(addrs[i].address) is Some,
    ensures
        model::is_member(
            model::solicited_updated(entries, addrs),
            model::wanted_group(addrs[i].address)->0,
        ) || model::solicited_updated(entries, addrs).len() >= IFACE_MAX_MULTICAST_GROUP_COUNT,
{
    let stale = model::stale_groups(entries, addrs);
    lemma_left_all_distinct(entries, stale);
    lemma_wanted_joined(model::left_all(entries, stale), addrs, i);
}

/// Making the solicited-node groups follow the addresses a second time changes nothing.
pub proof fn law_solicited_update_is_idempotent(entries: Seq<GroupEntry>, addrs: Seq<IpCidr>)
    requires
        model::distinct(entries),
    ensures
        model::solicited_updated(model::solicited_updated(entries, addrs), addrs)
            == model::solicited_updated(entries, addrs),
{
    let stale = model::stale_groups(entries, addrs);
    let kept = model::left_all(entries, stale);
    let updated = model::solicited_updated(entries, addrs);
    lemma_left_all_distinct(entries, stale);
    lemma_joined_wanted_distinct(kept, addrs);
    let again = model::stale_groups(updated, addrs);
    assert forall|k: int| 0 <= k < again.len() implies !model::is_member(
        updated,
        IpAddress::Ipv6(#[trigger] again[k]),
    ) by {
        lemma_listed_is_stale(updated, addrs, k);
        law_no_stale_solicited_groups(entries, addrs, IpAddress::Ipv6(again[k]));
    }
    lemma_nothing_to_leave(updated, again);
    assert forall|i: int|
        0 <= i < addrs.len() && model::wanted_group(
            (#[trigger] addrs[i]).address,
        ) is Some implies wanted_settled(
        updated,
        model::wanted_group(addrs[i].address)->0,
    ) by {
        lemma_wanted_settled(kept, addrs, i);
    }
    lemma_nothing_to_join(updated, addrs);
}

/// Making the solicited-node groups follow the addresses touches no other group: one that is
/// not stale, and that no address wants, is in the table as it was, or not at all as it was.
pub proof fn law_solicited_update_keeps_other_groups(
    entries: Seq<GroupEntry>,
    addrs: Seq<IpCidr>,
    addr: IpAddress,
    state: GroupState,
)
    requires
        model::distinct(entries),
        !model::is_stale(addrs, addr),
        forall|i: int|
            0 <= i < addrs.len() ==> model::wanted_group((#[trigger] addrs[i]).address) != Some(
                addr,
            ),
    ensures
        model::solicited_updated(entries, addrs).contains((addr, state)) == entries.contains(
            (addr, state),
        ),
{
    let stale = model::stale_groups(entries, addrs);
    assert forall|k: int| 0 <= k < stale.len() implies IpAddress::Ipv6(#[trigger] stale[k])
        != addr by {
        lemma_listed_is_stale(entries, addrs, k);
    }
    lemma_left_all_elsewhere(entries, stale, addr, state);
    lemma_left_all_distinct(entries, stale);
    lemma_joined_wanted_elsewhere(model::left_all(entries, stale), addrs, addr, state);
}

/// Whether joining `group` changes nothing: it is listened to, or it has no entry and the table
/// is full.
spec fn wanted_settled(entries: Seq<GroupEntry>, group: IpAddress) -> bool {
    ||| model::is_member(entries, group)
    ||| !groups::has_entry(entries, group) && entries.len() >= IFACE_MAX_MULTICAST_GROUP_COUNT
}

/// What is listed as stale is stale.
proof fn lemma_listed_is_stale(entries: Seq<GroupEntry>, addrs: Seq<IpCidr>, k: int)
    requires
        0 <= k < model::stale_groups(entries, addrs).len(),
    ensures
        model::is_stale(addrs, IpAddress::Ipv6(model::stale_groups(entries, addrs)[k])),
    decreases entries.len(),
{
    if entries.len() > 0 {
        let rest = model::stale_groups(entries.drop_last(), addrs);
        if k < rest.len() {
            lemma_listed_is_stale(entries.drop_last(), addrs, k);
        }
    }
}

/// Leaving groups that are not listened to changes nothing.
proof fn lemma_nothing_to_leave(entries: Seq<GroupEntry>, removals: Seq<Ipv6Address>)
    requires
        model::distinct(entries),
        forall|k: int|
            0 <= k < removals.len() ==> !model::is_member(
                entries,
                IpAddress::Ipv6(#[trigger] removals[k]),
            ),
    ensures
        model::left_all(entries, removals) == entries,
    decreases removals.len(),
{
    if removals.len() > 0 {
        let rest = removals.drop_last();
        assert forall|k: int| 0 <= k < rest.len() implies !model::is_member(
            entries,
            IpAddress::Ipv6(#[trigger] rest[k]),
        ) by {
            assert(rest[k] == removals[k]);
        }
        lemma_nothing_to_leave(entries, rest);
        let addr = IpAddress::Ipv6(removals[removals.len() - 1]);
        if groups::has_entry(entries, addr) {
            lemmas::lemma_entry_index(entries, addr);
            let i = model::entry_index(entries, addr);
            assert(entries[i].1 == GroupState::Leaving);
            assert(entries.update(i, (addr, GroupState::Leaving)) =~= entries);
        }
    }
}

/// Joining groups whose joins change nothing changes nothing.
proof fn lemma_nothing_to_join(entries: Seq<GroupEntry>, addrs: Seq<IpCidr>)
    requires
        model::distinct(entries),
        forall|i: int|
            0 <= i < addrs.len() && model::wanted_group((#[trigger] addrs[i]).address) is Some
                ==> wanted_settled(entries, model::wanted_group(addrs[i].address)->0),
    ensures
        model::joined_wanted(entries, addrs) == entries,
    decreases addrs.len(),
{
    if addrs.len() > 0 {
        let rest = addrs.drop_last();
        assert forall|i: int|
            0 <= i < rest.len() && model::wanted_group(
                (#[trigger] rest[i]).address,
            ) is Some implies wanted_settled(
            entries,
            model::wanted_group(rest[i].address)->0,
        ) by {
            assert(rest[i] == addrs[i]);
        }
        lemma_nothing_to_join(entries, rest);
        let last = addrs[addrs.len() - 1];
        if let Some(group) = model::wanted_group(last.address) {
            if model::is_member(entries, group) {
                let i = choose|i: int|
                    0 <= i < entries.len() && (#[trigger] entries[i]).0 == group && entries[i].1
                        != GroupState::Leaving;
                lemmas::lemma_entry_unique(entries, i);
            }
        }
    }
}

/// After the groups that addresses want were joined, joining any of them again changes nothing.
proof fn lemma_wanted_settled(entries: Seq<GroupEntry>, addrs: Seq<IpCidr>, i: int)
    requires
        model::distinct(entries),
        0 <= i < addrs.len(),
        model::wanted_group(addrs[i].address) is Some,
    ensures
        wanted_settled(
            model::joined_wanted(entries, addrs),
            model::wanted_group(addrs[i].address)->0,
        ),
    decreases addrs.len(),
{
    let rest = addrs.drop_last();
    let before = model::joined_wanted(entries, rest);
    let after = model::joined_wanted(entries, addrs);
    lemma_joined_wanted_distinct(entries, rest);
    let wanted = model::wanted_group(addrs[i].address)->0;
    if i < addrs.len() - 1 {
        assert(rest[i] == addrs[i]);
        lemma_wanted_settled(entries, rest, i);
        if let Some(group) = model::wanted_group(addrs.last().address) {
            if model::joined(before, group) is Some {
                law_join_adds_one_member(before, group, wanted);
                if group != wanted && !groups::has_entry(before, wanted) {
                    assert forall|k: int| 0 <= k < after.len() implies (#[trigger] after[k]).0
                        != wanted by {
                        if groups::has_entry(before, group) {
                            lemmas::lemma_entry_index(before, group);
                        }
                        if k < before.len() {
                            assert(before[k].0 != wanted);
                        }
                    }
                }
                if groups::has_entry(before, group) {
                    lemmas::lemma_entry_index(before, group);
                }
            }
        }
    } else if model::joined(before, wanted) is Some {
        law_join_adds_one_member(before, wanted, wanted);
    }
}

/// Leaving groups leaves the entries of others as they were.
proof fn lemma_left_all_elsewhere(
    entries: Seq<GroupEntry>,
    removals: Seq<Ipv6Address>,
    addr: IpAddress,
    state: GroupState,
)
    requires
        model::distinct(entries),
        forall|k: int|
            0 <= k < removals.len() ==> IpAddress::Ipv6(#[trigger] removals[k]) != addr,
    ensures
        model::left_all(entries, removals).contains((addr, state)) == entries.contains(
            (addr, state),
        ),
    decreases removals.len(),
{
    if removals.len() > 0 {
        let rest = removals.drop_last();
        assert forall|k: int| 0 <= k < rest.len() implies IpAddress::Ipv6(#[trigger] rest[k])
            != addr by {
            assert(rest[k] == removals[k]);
        }
        lemma_left_all_elsewhere(entries, rest, addr, state);
        lemma_left_all_distinct(entries, rest);
        let before = model::left_all(entries, rest);
        let gone = IpAddress::Ipv6(removals[removals.len() - 1]);
        if groups::has_entry(before, gone) {
            lemmas::lemma_entry_index(before, gone);
            let i = model::entry_index(before, gone);
            if before[i].1 == GroupState::Joining {
                lemma_removed_elsewhere(before, i, (addr, state));
            } else {
                lemma_updated_elsewhere(before, i, (gone, GroupState::Leaving), (addr, state));
            }
        }
    }
}

/// Joining the groups that addresses want leaves the entries of others as they were.
proof fn lemma_joined_wanted_elsewhere(
    entries: Seq<GroupEntry>,
    addrs: Seq<IpCidr>,
    addr: IpAddress,
    state: GroupState,
)
    requires
        model::distinct(entries),
        forall|i: int|
            0 <= i < addrs.len() ==> model::wanted_group((#[trigger] addrs[i]).address) != Some(
                addr,
            ),
    ensures
        model::joined_wanted(entries, addrs).contains((addr, state)) == entries.contains(
            (addr, state),
        ),
    decreases addrs.len(),
{
    if addrs.len() > 0 {
        let rest = addrs.drop_last();
        assert forall|i: int| 0 <= i < rest.len() implies model::wanted_group(
            (#[trigger] rest[i]).address,
        ) != Some(addr) by {
            assert(rest[i] == addrs[i]);
        }
        lemma_joined_wanted_elsewhere(entries, rest, addr, state);
        lemma_joined_wanted_distinct(entries, rest);
        let before = model::joined_wanted(entries, rest);
        let last = addrs[addrs.len() - 1];
        if let Some(group) = model::wanted_group(last.address) {
            if groups::has_entry(before, group) {
                lemmas::lemma_entry_index(before, group);
                let i = model::entry_index(before, group);
                lemma_updated_elsewhere(before, i, (group, GroupState::Joined), (addr, state));
            } else {
                let longer = before.push((group, GroupState::Joining));
                if before.contains((addr, state)) {
                    let k = choose|k: int| 0 <= k < before.len() && before[k] == (addr, state);
                    assert(longer[k] == (addr, state));
                }
                if longer.contains((addr, state)) {
                    let k = choose|k: int| 0 <= k < longer.len() && longer[k] == (addr, state);
                    assert(before[k] == (addr, state));
                }
            }
        }
    }
}

/// Changing the entry of one address leaves those of others as they were.
pub proof fn lemma_updated_elsewhere(
    entries: Seq<GroupEntry>,
    i: int,
    entry: GroupEntry,
    other: GroupEntry,
)
    requires
        0 <= i < entries.len(),
        entries[i].0 == entry.0,
        entry.0 != other.0,
    ensures
        entries.update(i, entry).contains(other) == entries.contains(other),
{
    let after = entries.update(i, entry);
    if entries.contains(other) {
        let k = choose|k: int| 0 <= k < entries.len() && entries[k] == other;
        assert(after[k] == other);
    }
    if after.contains(other) {
        let k = choose|k: int| 0 <= k < after.len() && after[k] == other;
        assert(entries[k] == other);
    }
}

/// Taking an entry out leaves those of other addresses as they were.
pub proof fn lemma_removed_elsewhere(entries: Seq<GroupEntry>, i: int, other: GroupEntry)
    requires
        0 <= i < entries.len(),
        entries[i].0 != other.0,
    ensures
        groups::swap_removed(entries, i).contains(other) == entries.contains(other),
{
    let after = groups::swap_removed(entries, i);
    let last = entries.len() - 1;
    if entries.contains(other) {
        let k = choose|k: int| 0 <= k < entries.len() && entries[k] == other;
        if k == last {
            assert(after[i] == other);
        } else {
            assert(after[k] == other);
        }
    }
    if after.contains(other) {
        let k = choose|k: int| 0 <= k < after.len() && after[k] == other;
        if k == i {
            assert(entries[last] == other);
        } else {
            assert(entries[k] == other);
        }
    }
}

/// The members among the other addresses are the same where only one entry differs.
proof fn lemma_same_elsewhere(
    entries: Seq<GroupEntry>,
    after: Seq<GroupEntry>,
    i: int,
    other: IpAddress,
)
    requires
        0 <= i < entries.len() == after.len(),
        after[i].0 == entries[i].0,
        forall|j: int| 0 <= j < entries.len() && j != i ==> #[trigger] after[j] == entries[j],
    ensures
        other != entries[i].0 ==> model::is_member(after, other) == model::is_member(
            entries,
            other,
        ),
{
    if other != entries[i].0 {
        if model::is_member(entries, other) {
            let k = choose|k: int|
                0 <= k < entries.len() && (#[trigger] entries[k]).0 == other && entries[k].1
                    != GroupState::Leaving;
            assert(after[k] == entries[k]);
        }
        if model::is_member(after, other) {
            let k = choose|k: int|
                0 <= k < after.len() && (#[trigger] after[k]).0 == other && after[k].1
                    != GroupState::Leaving;
            assert(after[k] == entries[k]);
        }
    }
}

/// Taking the entry at `i` out leaves the other addresses' membership as it was, and ends
/// that of its own address.
proof fn lemma_removed_members(entries: Seq<GroupEntry>, i: int, other: IpAddress)
    requires
        model::distinct(entries),
        0 <= i < entries.len(),
    ensures
        model::is_member(groups::swap_removed(entries, i), other) == (other != entries[i].0
            && model::is_member(entries, other)),
{
    let after = groups::swap_removed(entries, i);
    let last = entries.len() - 1;
    if other != entries[i].0 && model::is_member(entries, other) {
        let k = choose|k: int|
            0 <= k < entries.len() && (#[trigger] entries[k]).0 == other && entries[k].1
                != GroupState::Leaving;
        if k == last {
            assert(after[i] == entries[last]);
        } else {
            assert(after[k] == entries[k]);
        }
    }
    if model::is_member(after, other) {
        let k = choose|k: int|
            0 <= k < after.len() && (#[trigger] after[k]).0 == other && after[k].1
                != GroupState::Leaving;
        if k == i {
            assert(after[k] == entries[last]);
            assert(entries[i].0 != entries[last].0);
        } else {
            assert(after[k] == entries[k]);
            assert(entries[i].0 != entries[k].0);
        }
    }
}

/// Taking the entry at `i` out leaves its address without an entry.
pub proof fn lemma_removed_entry(entries: Seq<GroupEntry>, i: int)
    requires
        model::distinct(entries),
        0 <= i < entries.len(),
    ensures
        !groups::has_entry(groups::swap_removed(entries, i), entries[i].0),
{
    let after = groups::swap_removed(entries, i);
    let last = entries.len() - 1;
    assert forall|k: int| 0 <= k < after.len() implies (#[trigger] after[k]).0
        != entries[i].0 by {
        if k == i {
            assert(after[k] == entries[last]);
            assert(entries[i].0 != entries[last].0);
        } else {
            assert(after[k] == entries[k]);
            assert(entries[i].0 != entries[k].0);
        }
    }
}

/// Membership is the same up to any point of an egress pass.
proof fn lemma_trace_keeps_members(
    trace: Seq<(InterfaceView, EgressPhase)>,
    answers: Seq<bool>,
    n: int,
    addr: IpAddress,
)
    requires
        model::egress_trace(trace, answers),
        0 <= n <= answers.len(),
        model::distinct(trace.first().0.multicast.groups),
        trace.first().0.wf(),
    ensures
        trace[n].0.wf(),
        model::is_member(trace[n].0.multicast.groups, addr) == model::is_member(
            trace.first().0.multicast.groups,
            addr,
        ),
    decreases n,
{
    if n > 0 {
        lemma_trace_keeps_members(trace, answers, n - 1, addr);
        let (v, phase) = trace[n - 1];
        law_egress_step_keeps_members(v, phase, answers[n - 1], addr);
    }
}

/// In a pass in which nothing is refused, what each phase settles stays settled.
proof fn lemma_trace_settles(
    trace: Seq<(InterfaceView, EgressPhase)>,
    answers: Seq<bool>,
    n: int,
)
    requires
        model::egress_trace(trace, answers),
        0 <= n <= answers.len(),
        trace.first().1 == EgressPhase::Join,
        forall|i: int|
            0 <= i < answers.len() && model::egress_request(trace[i].0, trace[i].1) is Some
                ==> #[trigger] answers[i],
    ensures
        trace[n].1 != EgressPhase::Join ==> forall|k: int|
            0 <= k < trace[n].0.multicast.groups.len() ==> (
            #[trigger] trace[n].0.multicast.groups[k]).1 != GroupState::Joining,
        trace[n].1 != EgressPhase::Join && trace[n].1 != EgressPhase::Leave ==> forall|k: int|
            0 <= k < trace[n].0.multicast.groups.len() ==> (
            #[trigger] trace[n].0.multicast.groups[k]).1 == GroupState::Joined,
    decreases n,
{
    if n > 0 {
        lemma_trace_settles(trace, answers, n - 1);
        let (v, phase) = trace[n - 1];
        let granted = answers[n - 1];
        let entries = v.multicast.groups;
        let after = trace[n].0.multicast.groups;
        assert(trace[n - 1 + 1] == model::egress_next(v, phase, granted));
        match phase {
            EgressPhase::Join => {
                if model::pending_index(entries, GroupState::Joining) is None {
                    lemmas::lemma_none_pending(entries, GroupState::Joining);
                }
            },
            EgressPhase::Leave => {
                match model::pending_index(entries, GroupState::Leaving) {
                    None => lemmas::lemma_none_pending(entries, GroupState::Leaving),
                    Some(i) => {
                        assert(model::first_in_state(entries, GroupState::Leaving, i));
                        assert forall|k: int| 0 <= k < after.len() implies (#[trigger] after[k]).1
                            != GroupState::Joining by {
                            if k == i {
                                assert(after[k] == entries[entries.len() - 1]);
                            } else {
                                assert(after[k] == entries[k]);
                            }
                        }
                    },
                }
            },
            _ => {},
        }
    }
}

/// A response code stands for a delay between zero and the longest one.
proof fn lemma_response_millis_range(code: u16)
    ensures
        0 <= mld::response_millis(code) <= mld::MLD_MAX_RESPONSE_MILLIS,
{
    vstd::arithmetic::power2::lemma2_to64();
    if code >= 0x8000 {
        let mantissa = 0x1000 + code % 0x1000;
        let exponent = (code / 0x1000 % 8 + 3) as nat;
        let scale = vstd::arithmetic::power2::pow2(exponent) as int;
        assert(8 <= scale <= 1024) by {
            assert(3 <= exponent <= 10);
            if exponent > 3 {
                vstd::arithmetic::power2::lemma_pow2_strictly_increases(3, exponent);
            }
            if exponent < 10 {
                vstd::arithmetic::power2::lemma_pow2_strictly_increases(exponent, 10);
            }
        }
        assert(0 <= mantissa * scale <= 8191 * 1024) by (nonlinear_arith)
            requires
                0 <= mantissa <= 8191,
                8 <= scale <= 1024,
        ;
    }
}

/// Leaving groups keeps the addresses apart.
proof fn lemma_left_all_distinct(entries: Seq<GroupEntry>, removals: Seq<Ipv6Address>)
    requires
        model::distinct(entries),
    ensures
        model::distinct(model::left_all(entries, removals)),
    decreases removals.len(),
{
    if removals.len() > 0 {
        lemma_left_all_distinct(entries, removals.drop_last());
        let addr = IpAddress::Ipv6(removals.last());
        law_leave_drops_one_member(model::left_all(entries, removals.drop_last()), addr, addr);
    }
}

/// Leaving groups ends the membership of each, and adds no member.
proof fn lemma_left_all_drops(
    entries: Seq<GroupEntry>,
    removals: Seq<Ipv6Address>,
    addr: IpAddress,
)
    requires
        model::distinct(entries),
    ensures
        model::distinct(model::left_all(entries, removals)),
        model::is_member(model::left_all(entries, removals), addr) ==> model::is_member(
            entries,
            addr,
        ) && forall|k: int|
            0 <= k < removals.len() ==> IpAddress::Ipv6(#[trigger] removals[k]) != addr,
    decreases removals.len(),
{
    if removals.len() > 0 {
        let rest = removals.drop_last();
        lemma_left_all_drops(entries, rest, addr);
        let last = IpAddress::Ipv6(removals.last());
        law_leave_drops_one_member(model::left_all(entries, rest), last, addr);
        law_leave_drops_one_member(model::left_all(entries, rest), last, last);
        assert forall|k: int|
            model::is_member(model::left_all(entries, removals), addr) && 0 <= k
                < removals.len() implies IpAddress::Ipv6(#[trigger] removals[k]) != addr by {
            if k < rest.len() {
                assert(rest[k] == removals[k]);
            }
        }
    }
}

/// A stale group that has an entry is among those to be left.
proof fn lemma_stale_listed(entries: Seq<GroupEntry>, addrs: Seq<IpCidr>, addr: IpAddress)
    requires
        model::is_stale(addrs, addr),
        groups::has_entry(entries, addr),
    ensures
        exists|k: int|
            0 <= k < model::stale_groups(entries, addrs).len() && IpAddress::Ipv6(
                #[trigger] model::stale_groups(entries, addrs)[k],
            ) == addr,
    decreases entries.len(),
{
    let i = choose|i: int| 0 <= i < entries.len() && (#[trigger] entries[i]).0 == addr;
    let rest = model::stale_groups(entries.drop_last(), addrs);
    let all = model::stale_groups(entries, addrs);
    if entries.last().0 == addr {
        assert(IpAddress::Ipv6(all[rest.len() as int]) == addr);
    } else {
        assert(entries.drop_last()[i].0 == addr);
        lemma_stale_listed(entries.drop_last(), addrs, addr);
        let k = choose|k: int|
            0 <= k < rest.len() && IpAddress::Ipv6(#[trigger] rest[k]) == addr;
        assert(all[k] == rest[k]);
    }
}

/// Joining the groups that addresses want makes no stale group a member.
proof fn lemma_wanted_not_stale(
    entries: Seq<GroupEntry>,
    some: Seq<IpCidr>,
    addrs: Seq<IpCidr>,
    addr: IpAddress,
)
    requires
        model::distinct(entries),
        model::is_stale(addrs, addr),
        !model::is_member(entries, addr),
        some.len() <= addrs.len(),
        some == addrs.take(some.len() as int),
    ensures
        model::distinct(model::joined_wanted(entries, some)),
        !model::is_member(model::joined_wanted(entries, some), addr),
    decreases some.len(),
{
    if some.len() > 0 {
        let rest = some.drop_last();
        assert(rest =~= addrs.take(rest.len() as int));
        lemma_wanted_not_stale(entries, rest, addrs, addr);
        let before = model::joined_wanted(entries, rest);
        let i = some.len() - 1;
        assert(some.last() == addrs[i]);
        if let Some(group) = model::wanted_group(addrs[i].address) {
            if model::joined(before, group) is Some {
                law_join_adds_one_member(before, group, addr);
            }
            if group == addr {
                assert(model::solicited_group(addrs[i].address) == Some(group->Ipv6_0));
                assert(model::solicits(addrs, group->Ipv6_0));
            }
        }
    }
}

/// Joining the groups that addresses want joins each, unless the table fills up.
proof fn lemma_wanted_joined(entries: Seq<GroupEntry>, addrs: Seq<IpCidr>, i: int)
    requires
        model::distinct(entries),
        0 <= i < addrs.len(),
        model::wanted_group(addrs[i].address) is Some,
    ensures
        model::distinct(model::joined_wanted(entries, addrs)),
        model::is_member(
            model::joined_wanted(entries, addrs),
            model::wanted_group(addrs[i].address)->0,
        ) || model::joined_wanted(entries, addrs).len() >= IFACE_MAX_MULTICAST_GROUP_COUNT,
    decreases addrs.len(),
{
    let rest = addrs.drop_last();
    let before = model::joined_wanted(entries, rest);
    lemma_joined_wanted_distinct(entries, rest);
    lemma_joined_wanted_distinct(entries, addrs);
    let wanted = model::wanted_group(addrs[i].address)->0;
    if i < addrs.len() - 1 {
        assert(rest[i] == addrs[i]);
        lemma_wanted_joined(entries, rest, i);
        if let Some(group) = model::wanted_group(addrs.last().address) {
            if model::joined(before, group) is Some {
                law_join_adds_one_member(before, group, wanted);
            }
            if groups::has_entry(before, group) {
                lemmas::lemma_entry_index(before, group);
            }
        }
    } else if model::joined(before, wanted) is Some {
        law_join_adds_one_member(before, wanted, wanted);
    }
}

/// Joining the groups that addresses want keeps the addresses apart.
proof fn lemma_joined_wanted_distinct(entries: Seq<GroupEntry>, addrs: Seq<IpCidr>)
    requires
        model::distinct(entries),
    ensures
        model::distinct(model::joined_wanted(entries, addrs)),
    decreases addrs.len(),
{
    if addrs.len() > 0 {
        lemma_joined_wanted_distinct(entries, addrs.drop_last());
        let before = model::joined_wanted(entries, addrs.drop_last());
        if let Some(group) = model::wanted_group(addrs.last().address) {
            if model::joined(before, group) is Some {
                law_join_adds_one_member(before, group, group);
            }
        }
    }
}

/// There are no more IPv4 groups than groups.
pub proof fn lemma_ipv4_groups_len(entries: Seq<GroupEntry>)
    ensures
        model::ipv4_groups(entries).len() <= entries.len(),
    decreases entries.len(),
{
    if entries.len() > 0 {
        lemma_ipv4_groups_len(entries.drop_last());
    }
}

} // verus!
