//! Facts about the group table that the operations on it rest on.
use vstd::prelude::*;

use crate::iface::groups::{self, GroupEntry, GroupState};
use crate::iface::model::{self, EgressPhase, InterfaceView, Transmission};
use crate::wire::ip::IpAddress;

verus! {

/// The first entry for an address is the one that `entry_index` names.
pub proof fn lemma_first_entry(entries: Seq<GroupEntry>, addr: IpAddress, i: int)
    requires
        groups::first_entry(entries, addr, i),
    ensures
        groups::has_entry(entries, addr),
        model::entry_index(entries, addr) == i,
{
    let k = model::entry_index(entries, addr);
    assert(groups::first_entry(entries, addr, k));
    if k < i {
        assert(entries[k].0 != addr);
    }
    if i < k {
        assert(entries[i].0 != addr);
    }
}

/// Where no address has two entries, every entry is the first one for its address.
pub proof fn lemma_entry_unique(entries: Seq<GroupEntry>, i: int)
    requires
        model::distinct(entries),
        0 <= i < entries.len(),
    ensures
        groups::first_entry(entries, entries[i].0, i),
        groups::has_entry(entries, entries[i].0),
        model::entry_index(entries, entries[i].0) == i,
{
    assert(groups::first_entry(entries, entries[i].0, i));
    lemma_first_entry(entries, entries[i].0, i);
}

/// An address that has an entry has it at `entry_index`.
pub proof fn lemma_entry_index(entries: Seq<GroupEntry>, addr: IpAddress)
    requires
        model::distinct(entries),
        groups::has_entry(entries, addr),
    ensures
        groups::first_entry(entries, addr, model::entry_index(entries, addr)),
{
    let i = choose|i: int| 0 <= i < entries.len() && (#[trigger] entries[i]).0 == addr;
    lemma_entry_unique(entries, i);
}

/// The first entry in a state is the one that `pending_index` names.
pub proof fn lemma_pending(entries: Seq<GroupEntry>, state: GroupState, i: int)
    requires
        model::first_in_state(entries, state, i),
    ensures
        model::pending_index(entries, state) == Some(i),
{
    let k = choose|k: int| model::first_in_state(entries, state, k);
    assert(model::first_in_state(entries, state, k));
    if k < i {
        assert(entries[k].1 != state);
    }
    if i < k {
        assert(entries[i].1 != state);
    }
}

/// Where no entry is the first in a state, no entry is in it.
pub proof fn lemma_none_pending(entries: Seq<GroupEntry>, state: GroupState)
    requires
        model::pending_index(entries, state) is None,
    ensures
        forall|k: int| 0 <= k < entries.len() ==> (#[trigger] entries[k]).1 != state,
{
    assert forall|k: int| 0 <= k < entries.len() implies (#[trigger] entries[k]).1 != state by {
        if entries[k].1 == state {
            lemma_first_in_state_exists(entries, state, k);
        }
    }
}

/// Where an entry is in a state, some entry is the first in it.
proof fn lemma_first_in_state_exists(entries: Seq<GroupEntry>, state: GroupState, k: int)
    requires
        0 <= k < entries.len(),
        entries[k].1 == state,
    ensures
        exists|i: int| model::first_in_state(entries, state, i),
    decreases k,
{
    if forall|j: int| 0 <= j < k ==> (#[trigger] entries[j]).1 != state {
        assert(model::first_in_state(entries, state, k));
    } else {
        let j = choose|j: int| 0 <= j < k && (#[trigger] entries[j]).1 == state;
        lemma_first_in_state_exists(entries, state, j);
    }
}

/// Changing the state of an entry keeps the addresses apart.
pub proof fn lemma_update_distinct(entries: Seq<GroupEntry>, i: int, state: GroupState)
    requires
        model::distinct(entries),
        0 <= i < entries.len(),
    ensures
        model::distinct(entries.update(i, (entries[i].0, state))),
{
}

/// Appending an address that had no entry keeps the addresses apart.
pub proof fn lemma_push_distinct(entries: Seq<GroupEntry>, addr: IpAddress, state: GroupState)
    requires
        model::distinct(entries),
        !groups::has_entry(entries, addr),
    ensures
        model::distinct(entries.push((addr, state))),
{
    let after = entries.push((addr, state));
    assert forall|i: int, j: int| 0 <= i < j < after.len() implies (#[trigger] after[i]).0 != (
    #[trigger] after[j]).0 by {
        assert(after[i] == entries[i]);
        if j < entries.len() {
            assert(after[j] == entries[j]);
        }
    }
}

/// Taking an entry out keeps the addresses apart.
pub proof fn lemma_removed_distinct(entries: Seq<GroupEntry>, i: int)
    requires
        model::distinct(entries),
        0 <= i < entries.len(),
    ensures
        model::distinct(groups::swap_removed(entries, i)),
{
    let after = groups::swap_removed(entries, i);
    assert forall|a: int, b: int| 0 <= a < b < after.len() implies (#[trigger] after[a]).0 != (
    #[trigger] after[b]).0 by {
        let last = entries.len() - 1;
        assert(after[a] == if a == i {
            entries[last]
        } else {
            entries[a]
        });
        assert(after[b] == if b == i {
            entries[last]
        } else {
            entries[b]
        });
    }
}

/// How many entries are in the state `state`.
pub open spec fn count_in_state(entries: Seq<GroupEntry>, state: GroupState) -> nat
    decreases entries.len(),
{
    if entries.len() == 0 {
        0
    } else {
        count_in_state(entries.drop_last(), state) + if entries.last().1 == state {
            1nat
        } else {
            0nat
        }
    }
}

/// How many phases of an egress pass are still to come.
pub open spec fn phase_rank(phase: EgressPhase) -> nat {
    match phase {
        EgressPhase::Join => 4,
        EgressPhase::Leave => 3,
        EgressPhase::IgmpReport => 2,
        EgressPhase::MldReport => 1,
        EgressPhase::Done => 0,
    }
}

/// How many steps a phase of an egress pass can still take.
pub open spec fn phase_work(v: InterfaceView, phase: EgressPhase) -> nat {
    match phase {
        EgressPhase::Join => count_in_state(v.multicast.groups, GroupState::Joining),
        EgressPhase::Leave => v.multicast.groups.len(),
        _ => 0,
    }
}

/// Moving an entry out of a state leaves one entry fewer in it.
pub proof fn lemma_count_update(
    entries: Seq<GroupEntry>,
    i: int,
    state: GroupState,
    entry: GroupEntry,
)
    requires
        0 <= i < entries.len(),
        entries[i].1 == state,
        entry.1 != state,
    ensures
        count_in_state(entries.update(i, entry), state) + 1 == count_in_state(entries, state),
    decreases entries.len(),
{
    let after = entries.update(i, entry);
    if i == entries.len() - 1 {
        assert(after.drop_last() =~= entries.drop_last());
    } else {
        lemma_count_update(entries.drop_last(), i, state, entry);
        assert(after.drop_last() =~= entries.drop_last().update(i, entry));
    }
}

/// Each step of an egress pass ends its phase, or leaves the phase with less to do.
pub proof fn lemma_egress_progress(v: InterfaceView, phase: EgressPhase, granted: bool)
    requires
        phase != EgressPhase::Done,
    ensures
        ({
            let (after, next) = model::egress_next(v, phase, granted);
            ||| phase_rank(next) < phase_rank(phase)
            ||| next == phase && phase_work(after, next) < phase_work(v, phase)
        }),
{
    let entries = v.multicast.groups;
    match phase {
        EgressPhase::Join => {
            if let Some(i) = model::pending_index(entries, GroupState::Joining) {
                assert(model::first_in_state(entries, GroupState::Joining, i));
                lemma_count_update(
                    entries,
                    i,
                    GroupState::Joining,
                    (entries[i].0, GroupState::Joined),
                );
            }
        },
        EgressPhase::Leave => {
            if let Some(i) = model::pending_index(entries, GroupState::Leaving) {
                assert(model::first_in_state(entries, GroupState::Leaving, i));
            }
        },
        _ => {},
    }
}

/// A run of an egress pass that takes one more step is a run.
pub proof fn lemma_trace_extends(
    trace: Seq<(InterfaceView, EgressPhase)>,
    answers: Seq<bool>,
    granted: bool,
)
    requires
        model::egress_trace(trace, answers),
    ensures
        model::egress_trace(
            trace.push(model::egress_next(trace.last().0, trace.last().1, granted)),
            answers.push(granted),
        ),
{
    let longer = trace.push(model::egress_next(trace.last().0, trace.last().1, granted));
    let more = answers.push(granted);
    assert forall|i: int| 0 <= i < more.len() implies longer[i + 1] == model::egress_next(
        longer[i].0,
        longer[i].1,
        #[trigger] more[i],
    ) by {
        if i < answers.len() {
            assert(more[i] == answers[i]);
            assert(longer[i + 1] == trace[i + 1]);
            assert(longer[i] == trace[i]);
        }
    }
}

/// What a run of an egress pass asks for does not depend on where it goes from its last
/// configuration.
pub proof fn lemma_log_prefix(
    trace: Seq<(InterfaceView, EgressPhase)>,
    answers: Seq<bool>,
    next: (InterfaceView, EgressPhase),
)
    requires
        answers.len() <= trace.len(),
    ensures
        model::egress_log(trace.push(next), answers) == model::egress_log(trace, answers),
    decreases answers.len(),
{
    if answers.len() > 0 {
        lemma_log_prefix(trace, answers.drop_last(), next);
        assert(trace.push(next)[answers.len() - 1] == trace[answers.len() - 1]);
    }
}

/// A run of an egress pass that takes one more step asks for what it asked for, and then for
/// what the step asks for.
pub proof fn lemma_log_extends(
    trace: Seq<(InterfaceView, EgressPhase)>,
    answers: Seq<bool>,
    next: (InterfaceView, EgressPhase),
    granted: bool,
)
    requires
        trace.len() == answers.len() + 1,
    ensures
        model::egress_log(trace.push(next), answers.push(granted)) == match model::egress_request(
            trace.last().0,
            trace.last().1,
        ) {
            Some(packet) => model::egress_log(trace, answers).push(
                Transmission { timestamp: trace.last().0.now, packet, taken: granted },
            ),
            None => model::egress_log(trace, answers),
        },
{
    lemma_log_prefix(trace, answers, next);
    assert(answers.push(granted).drop_last() =~= answers);
    assert(trace.push(next)[answers.len() as int] == trace.last());
}

} // verus!
