//! What the operations of a socket ask of its pool, and what that makes of the pool's books.
use vstd::prelude::*;

use crate::storage::ring_buffer::{self, BufferView};
use crate::tcp::dynbuf::{self, DynamicBufferState};
use crate::tcp::pool::{PoolLedger, PoolStep};

verus! {

/// The books once the pool took `steps`, one after the other, and nobody else used it.
pub open spec fn taken(ledger: PoolLedger, steps: Seq<PoolStep>) -> PoolLedger
    decreases steps.len(),
{
    if steps.len() == 0 {
        ledger
    } else {
        taken(ledger, steps.drop_last()).after(steps.last())
    }
}

/// What was asked of the pool between two states of a socket.
pub open spec fn asked_between(
    before: DynamicBufferState,
    after: DynamicBufferState,
) -> Seq<PoolStep> {
    after.steps().skip(before.steps().len() as int)
}

/// Whether the books moved with the socket: what was asked of the pool from `before` on makes of
/// the books, which were `ledger`, such as show more by as much as the socket has charged more.
/// The socket keeps its policy and its pool, and the pool its budget.
pub open spec fn accounted(
    before: DynamicBufferState,
    ledger: PoolLedger,
    after: DynamicBufferState,
) -> bool {
    let books = taken(ledger, asked_between(before, after));
    &&& before.steps() == after.steps().take(before.steps().len() as int)
    &&& before.steps().len() <= after.steps().len()
    &&& books.used - ledger.used == after.charged - before.charged
    &&& books.budget == ledger.budget
    &&& books.pressure_threshold == ledger.pressure_threshold
    &&& after.alike(DynamicBufferState { charged: after.charged, ..before })
}

/// What the steps do to the books: a charge that fits the budget adds as much and any other
/// nothing, a refund takes as much off, or all, and a growth step adds what it adds to the
/// buffer, or nothing. Nothing else changes, and what is used and what is left make up the budget.
pub proof fn law_steps_move_the_books(
    ledger: PoolLedger,
    bytes: usize,
    chunk: u32,
    current: usize,
    max: usize,
)
    requires
        ledger.wf(),
    ensures
        ({
            let charged = ledger.after(PoolStep::Charge(bytes));
            let refunded = ledger.after(PoolStep::Refund(bytes));
            let grown = ledger.after(PoolStep::Grow { chunk, current, max });
            &&& ledger.used + bytes <= ledger.budget ==> charged.used == ledger.used + bytes
            &&& ledger.used + bytes > ledger.budget ==> charged == ledger
            &&& bytes <= ledger.used ==> refunded.used == ledger.used - bytes
            &&& bytes > ledger.used ==> refunded.used == 0
            &&& current >= max ==> grown == ledger
            &&& grown.used > ledger.used ==> grown.used - ledger.used <= max - current
            &&& grown.used >= ledger.used
            &&& charged.wf() && charged.budget == ledger.budget
            &&& refunded.wf() && refunded.budget == ledger.budget
            &&& grown.wf() && grown.budget == ledger.budget
            &&& ledger.used + ledger.unused() == ledger.budget
        }),
{
}

/// What is left of a budget is what is not used of it: nothing, where more is used than it is.
pub proof fn law_nothing_is_left_past_the_budget(ledger: PoolLedger)
    ensures
        ledger.unused() >= 0,
        ledger.used <= ledger.budget ==> ledger.used + ledger.unused() == ledger.budget,
        ledger.used >= ledger.budget ==> ledger.unused() == 0,
{
}

/// The next growth step of a buffer takes it to its maximum, or doubles it, or adds a chunk. It
/// adds a chunk at least and doubles at least, unless the maximum is nearer; once three quarters
/// of the budget are used, it adds a chunk at most. A buffer at its maximum has none.
pub proof fn law_growth_goes_by_chunk_or_doubling(
    ledger: PoolLedger,
    chunk: u32,
    current: usize,
    max: usize,
)
    requires
        ledger.wf(),
        chunk >= 1,
    ensures
        current >= max ==> dynbuf::growth(Some(ledger), chunk, current as int, max as int) is None
            && dynbuf::growth(None, chunk, current as int, max as int) is None,
        current < max ==> (dynbuf::growth(
            Some(ledger),
            chunk,
            current as int,
            max as int,
        ) matches Some(need) && {
            &&& need == max - current || need == chunk || need == current
            &&& 0 < need <= max - current
            &&& need >= chunk || need == max - current
            &&& need <= chunk || need <= current
            &&& ledger.used < ledger.budget / 4 * 3 ==> need >= current || need == max - current
            &&& ledger.used >= ledger.budget / 4 * 3 ==> need <= chunk
        }),
        current < max ==> (dynbuf::growth(None, chunk, current as int, max as int) matches Some(
            need,
        ) && {
            &&& need == max - current || need == chunk || need == current
            &&& 0 < need <= max - current
            &&& need >= chunk || need == max - current
            &&& need >= current || need == max - current
            &&& need <= chunk || need <= current
        }),
{
}

/// The transmit buffer can grow exactly where it is below its maximum and what its next step adds
/// still fits the budget.
pub proof fn law_transmit_growth_needs_room(
    ledger: PoolLedger,
    state: DynamicBufferState,
    current: usize,
)
    requires
        ledger.wf(),
        state.wf(),
    ensures
        dynbuf::tx_growable(None, state, current as int) == (current < state.tx_max),
        dynbuf::tx_growable(Some(ledger), state, current as int) ==> current < state.tx_max
            && ledger.used < ledger.budget,
        current < state.tx_max && ledger.used + (state.tx_max - current) <= ledger.budget
            ==> dynbuf::tx_growable(Some(ledger), state, current as int),
        dynbuf::tx_growable(Some(ledger), state, current as int) <==> ledger.after(
            state.growth_request(current as nat, state.tx_max as int),
        ).used > ledger.used,
{
}

/// A charge that was asked for, and stands exactly where it fits the budget, moves the books with
/// the socket.
pub proof fn law_charge_is_accounted_for(
    before: DynamicBufferState,
    ledger: PoolLedger,
    bytes: usize,
)
    requires
        before.pool is Some,
        ledger.wf(),
        before.charged <= ledger.used,
    ensures
        ({
            let asked = before.having_asked(PoolStep::Charge(bytes));
            &&& dynbuf::admits(Some(ledger), bytes) == (ledger.used + bytes <= ledger.budget)
            &&& ledger.used + bytes <= ledger.budget ==> accounted(
                before,
                ledger,
                asked.charged_more(bytes),
            ) && asked.charged_more(bytes).charged == before.charged + bytes
            &&& ledger.used + bytes > ledger.budget ==> accounted(before, ledger, asked)
        }),
{
    dynbuf::law_asking_changes_only_the_account(before, PoolStep::Charge(bytes));
    lemma_one_step(before.steps(), PoolStep::Charge(bytes), ledger);
}

/// Giving back asks the pool for one refund at most. The socket is charged less by what it gave
/// back, or nothing where it had charged less, and the books move with it.
pub proof fn law_giving_back_is_accounted_for(
    before: DynamicBufferState,
    ledger: PoolLedger,
    bytes: usize,
)
    requires
        before.pool is Some,
        ledger.wf(),
        before.charged <= ledger.used,
    ensures
        ({
            let after = before.given_back(bytes);
            &&& accounted(before, ledger, after)
            &&& asked_between(before, after).len() <= 1
            &&& bytes <= before.charged ==> after.charged == before.charged - bytes
            &&& bytes > before.charged ==> after.charged == 0
        }),
{
    let given = before.refundable(bytes);
    dynbuf::law_asking_changes_only_the_account(before, PoolStep::Refund(given));
    lemma_one_step(before.steps(), PoolStep::Refund(given), ledger);
    lemma_no_step(before.steps(), ledger);
}

/// The initial allocation asks the pool to charge both capacities together, and, where it was
/// charged and the storage could not be had, to give as much back: nothing else. So the books
/// show more by both capacities where both were allocated, and are what they were where the
/// charge was refused or neither was allocated.
pub proof fn law_initial_allocation_is_accounted_for<F: Fn(usize) -> Option<Vec<u8>>>(
    before: DynamicBufferState,
    ledger: PoolLedger,
    allocate: F,
    allocated: bool,
    storage: (Vec<u8>, Vec<u8>),
    after: DynamicBufferState,
)
    requires
        before.wf(),
        before.pool is Some,
        ledger.wf(),
        before.charged <= ledger.used,
        dynbuf::initial_step(before, Some(ledger), allocate, allocated, storage, after),
    ensures
        ({
            let initial = before.rx_initial + before.tx_initial;
            let steps = asked_between(before, after);
            let books = taken(ledger, steps);
            &&& accounted(before, ledger, after)
            &&& steps.len() >= 1 && steps[0] == PoolStep::Charge(initial as usize)
            &&& allocated ==> {
                &&& ledger.used + initial <= ledger.budget
                &&& steps.len() == 1
                &&& books.used == ledger.used + initial
                &&& after.charged == before.charged + initial
                &&& call_ensures(allocate, (before.rx_initial as usize,), Some(storage.0))
                &&& call_ensures(allocate, (before.tx_initial as usize,), Some(storage.1))
            }
            &&& !allocated ==> {
                &&& books == ledger
                &&& after.alike(before)
                &&& storage.0@.len() == 0 && storage.1@.len() == 0
            }
            &&& ledger.used + initial > ledger.budget ==> !allocated && steps.len() == 1
            &&& ledger.used + initial <= ledger.budget && !allocated ==> {
                &&& initial > 0 ==> steps == seq![
                    PoolStep::Charge(initial as usize),
                    PoolStep::Refund(initial as usize),
                ]
                &&& initial == 0 ==> steps.len() == 1
                &&& call_ensures(allocate, (before.rx_initial as usize,), None) || call_ensures(
                    allocate,
                    (before.tx_initial as usize,),
                    None,
                )
            }
        }),
{
    let charge = before.initial_charge() as usize;
    lemma_settled_accounts(before, ledger, before.initial_request(), charge, allocated);
    lemma_asked_only(before, ledger, before.initial_request());
}

/// The buffers that are allocated at first are as long as they should be, and all zero.
pub proof fn law_initial_storage_is_zeroed(
    before: DynamicBufferState,
    ledger: Option<PoolLedger>,
    allocated: bool,
    storage: (Vec<u8>, Vec<u8>),
    after: DynamicBufferState,
)
    requires
        dynbuf::initial_step(
            before,
            ledger,
            ring_buffer::try_zeroed_socket_storage,
            allocated,
            storage,
            after,
        ),
    ensures
        allocated ==> storage.0@.len() == before.rx_initial && storage.1@.len()
            == before.tx_initial,
        !allocated ==> storage.0@.len() == 0 && storage.1@.len() == 0,
        forall|i: int| 0 <= i < storage.0@.len() ==> #[trigger] storage.0@[i] == 0,
        forall|i: int| 0 <= i < storage.1@.len() ==> #[trigger] storage.1@[i] == 0,
        dynbuf::zeroed_or_empty(storage, before.rx_initial, before.tx_initial) ==> storage.0@.len()
            == storage.1@.len() == 0 || storage.0@.len() == before.rx_initial && storage.1@.len()
            == before.tx_initial,
{
}

/// A growth step asks the pool for it, and, where it was charged and the storage could not grow,
/// to give as much back: nothing else. So the books show more by what the buffer has grown, and
/// are what they were where it has not.
pub proof fn law_growth_is_accounted_for(
    before: DynamicBufferState,
    ledger: PoolLedger,
    buffer: BufferView,
    max: usize,
    grown: bool,
    after: DynamicBufferState,
    buffer_after: BufferView,
)
    requires
        before.wf(),
        before.pool is Some,
        ledger.wf(),
        before.charged <= ledger.used,
        buffer.capacity <= usize::MAX,
        dynbuf::grow_step(
            before,
            Some(ledger),
            buffer,
            max as int,
            grown,
            after,
            buffer_after,
        ),
    ensures
        ({
            let steps = asked_between(before, after);
            let books = taken(ledger, steps);
            &&& accounted(before, ledger, after)
            &&& steps.len() >= 1 && steps[0] == (PoolStep::Grow {
                chunk: before.grow_chunk,
                current: buffer.capacity as usize,
                max,
            })
            &&& grown ==> {
                &&& steps.len() == 1
                &&& buffer.owned
                &&& buffer.capacity < buffer_after.capacity <= max
                &&& books.used - ledger.used == buffer_after.capacity - buffer.capacity
            }
            &&& !grown ==> books == ledger && after.alike(before) && buffer_after.capacity
                == buffer.capacity
            &&& !grown && ledger.after(steps[0]) != ledger ==> steps.len() == 2 && steps[1]
                == PoolStep::Refund((ledger.after(steps[0]).used - ledger.used) as usize)
            &&& ledger.after(steps[0]) == ledger ==> !grown && steps.len() == 1
            &&& !grown && ledger.after(steps[0]) != ledger && buffer.owned
                ==> ring_buffer::refused_by_allocator(
                (buffer.capacity + ledger.after(steps[0]).used - ledger.used) as usize,
            )
            &&& buffer_after.contents == buffer.contents
            &&& buffer_after.owned == buffer.owned
        }),
{
    let request = before.growth_request(buffer.capacity, max as int);
    let need = dynbuf::growth_reserved(Some(ledger), before, buffer.capacity as int, max as int);
    if let Some(need) = need {
        lemma_settled_accounts(before, ledger, request, need, grown);
    }
    lemma_asked_only(before, ledger, request);
}

/// A restoration of the initial capacities asks the pool to charge both together, where there is
/// anything to charge, and, where it was charged and the buffers could not grow, to give as much
/// back: nothing else. So the books show more by both capacities where both were restored, and
/// are what they were where they were not.
pub proof fn law_restoration_is_accounted_for(
    before: DynamicBufferState,
    ledger: PoolLedger,
    rx: BufferView,
    tx: BufferView,
    restored: bool,
    after: DynamicBufferState,
    rx_after: BufferView,
    tx_after: BufferView,
)
    requires
        before.wf(),
        before.pool is Some,
        ledger.wf(),
        before.charged <= ledger.used,
        dynbuf::restore_step(
            before,
            Some(ledger),
            rx,
            tx,
            restored,
            after,
            rx_after,
            tx_after,
        ),
    ensures
        ({
            let initial = before.rx_initial + before.tx_initial;
            let steps = asked_between(before, after);
            let books = taken(ledger, steps);
            &&& accounted(before, ledger, after)
            &&& initial == 0 ==> !restored && after == before && rx_after == rx && tx_after == tx
            &&& initial > 0 ==> steps.len() >= 1 && steps[0] == PoolStep::Charge(initial as usize)
            &&& restored ==> {
                &&& steps.len() == 1
                &&& books.used == ledger.used + initial
                &&& before.rx_initial > 0 ==> rx_after.capacity == before.rx_initial
                &&& before.tx_initial > 0 ==> tx_after.capacity == before.tx_initial
                &&& before.rx_initial == 0 ==> rx_after == rx
                &&& before.tx_initial == 0 ==> tx_after == tx
                &&& rx_after.contents == rx.contents
                &&& tx_after.contents == tx.contents
            }
            &&& !restored ==> books == ledger && after.alike(before)
            &&& ledger.used + initial > ledger.budget ==> {
                &&& !restored
                &&& steps.len() == 1
                &&& rx_after == rx
                &&& tx_after == tx
            }
            &&& initial > 0 && ledger.used + initial <= ledger.budget && !restored ==> {
                &&& steps == seq![
                    PoolStep::Charge(initial as usize),
                    PoolStep::Refund(initial as usize),
                ]
                &&& rx.owned ==> rx_after.capacity == 0
                &&& tx.owned ==> tx_after.capacity == 0
                &&& !rx.owned ==> rx_after == rx
                &&& !tx.owned ==> tx_after == tx
                &&& rx.owned && tx.owned && rx.capacity == 0 && tx.capacity == 0 ==> {
                    ||| before.rx_initial > 0 && ring_buffer::refused_by_allocator(
                        before.rx_initial as usize,
                    )
                    ||| before.tx_initial > 0 && ring_buffer::refused_by_allocator(
                        before.tx_initial as usize,
                    )
                }
            }
        }),
{
    let charge = before.initial_charge() as usize;
    lemma_settled_accounts(before, ledger, before.initial_request(), charge, restored);
    lemma_asked_only(before, ledger, before.initial_request());
    lemma_no_step(before.steps(), ledger);
}

/// Nothing was asked for.
proof fn lemma_no_step(steps: Seq<PoolStep>, ledger: PoolLedger)
    ensures
        steps.skip(steps.len() as int) == Seq::<PoolStep>::empty(),
        taken(ledger, Seq::empty()) == ledger,
        steps.take(steps.len() as int) == steps,
{
    assert(steps.skip(steps.len() as int) =~= Seq::empty());
    assert(steps.take(steps.len() as int) =~= steps);
}

/// One step was asked for.
proof fn lemma_one_step(steps: Seq<PoolStep>, step: PoolStep, ledger: PoolLedger)
    ensures
        steps.push(step).skip(steps.len() as int) == seq![step],
        steps.push(step).take(steps.len() as int) == steps,
        taken(ledger, seq![step]) == ledger.after(step),
{
    assert(steps.push(step).skip(steps.len() as int) =~= seq![step]);
    assert(steps.push(step).take(steps.len() as int) =~= steps);
    assert(seq![step].drop_last() =~= Seq::empty());
    assert(taken(ledger, Seq::empty()) == ledger);
}

/// Two steps were asked for.
proof fn lemma_two_steps(
    steps: Seq<PoolStep>,
    first: PoolStep,
    second: PoolStep,
    ledger: PoolLedger,
)
    ensures
        steps.push(first).push(second).skip(steps.len() as int) == seq![first, second],
        steps.push(first).push(second).take(steps.len() as int) == steps,
        taken(ledger, seq![first, second]) == ledger.after(first).after(second),
{
    assert(steps.push(first).push(second).skip(steps.len() as int) =~= seq![first, second]);
    assert(steps.push(first).push(second).take(steps.len() as int) =~= steps);
    assert(seq![first, second].drop_last() =~= seq![first]);
    lemma_one_step(steps, first, ledger);
}

/// What is asked for by a socket that asks for one step.
proof fn lemma_asked_only(before: DynamicBufferState, ledger: PoolLedger, request: PoolStep)
    requires
        before.pool is Some,
    ensures
        asked_between(before, before.having_asked(request)) == seq![request],
        taken(ledger, seq![request]) == ledger.after(request),
        before.having_asked(request).alike(before),
        before.steps() == before.having_asked(request).steps().take(before.steps().len() as int),
        before.having_asked(request).steps().len() == before.steps().len() + 1,
{
    dynbuf::law_asking_changes_only_the_account(before, request);
    lemma_one_step(before.steps(), request, ledger);
}

/// What is asked for by a socket that charges and settles.
proof fn lemma_settled_accounts(
    before: DynamicBufferState,
    ledger: PoolLedger,
    request: PoolStep,
    bytes: usize,
    allocated: bool,
)
    requires
        before.pool is Some,
        ledger.wf(),
        before.charged <= ledger.used,
    ensures
        ledger.used + bytes <= ledger.budget && ledger.after(request) == ledger.charged(bytes)
            ==> {
            let after = dynbuf::settled(before, request, bytes, allocated);
            let steps = asked_between(before, after);
            &&& accounted(before, ledger, after)
            &&& allocated ==> after.alike(before.charged_more(bytes))
            &&& !allocated ==> after.alike(before) && taken(ledger, steps) == ledger
            &&& steps == if allocated || bytes == 0 {
                seq![request]
            } else {
                seq![request, PoolStep::Refund(bytes)]
            }
        },
{
    if ledger.used + bytes <= ledger.budget && ledger.after(request) == ledger.charged(bytes) {
        dynbuf::law_settling_asks_for_no_more(before, request, bytes, allocated);
        lemma_one_step(before.steps(), request, ledger);
        lemma_two_steps(before.steps(), request, PoolStep::Refund(bytes), ledger);
    }
}

} // verus!
