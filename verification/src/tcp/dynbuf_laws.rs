//! What holds of pool accounting and buffer growth across operations and sockets.
use vstd::prelude::*;

use crate::storage::ring_buffer::{self, BufferView};
use crate::tcp::dynbuf::{self, DynamicBufferState};
use crate::tcp::pool::{MemoryPool, PoolLedger, PoolStep};

verus! {

/// What the sockets have charged, taken together.
pub open spec fn total_charged(sockets: Seq<DynamicBufferState>) -> int
    decreases sockets.len(),
{
    if sockets.len() == 0 {
        0
    } else {
        total_charged(sockets.drop_last()) + sockets.last().charged
    }
}

/// Whether the books of a pool agree with the sockets that share it: they show what the
/// sockets have charged, and that is within the budget.
pub open spec fn reconciled(ledger: PoolLedger, sockets: Seq<DynamicBufferState>) -> bool {
    &&& ledger.used == total_charged(sockets)
    &&& ledger.used <= ledger.budget
}

/// Whether a socket is charged for exactly the capacity of its buffers.
pub open spec fn charged_for(state: DynamicBufferState, rx: BufferView, tx: BufferView) -> bool {
    state.charged == rx.capacity + tx.capacity
}

/// No step takes a pool past its budget, or changes the budget.
pub proof fn law_steps_stay_within_budget(ledger: PoolLedger, step: PoolStep)
    requires
        ledger.wf(),
    ensures
        ledger.after(step).wf(),
        ledger.after(step).used <= ledger.after(step).budget,
        ledger.after(step).budget == ledger.budget,
{
}

/// What a socket makes of a copy of its pool's books is what the pool makes of them when it is
/// asked for the same.
pub proof fn law_pool_takes_the_same_steps(
    ledger: PoolLedger,
    state: DynamicBufferState,
    bytes: usize,
    current: usize,
    max: usize,
)
    ensures
        Some(ledger.after(PoolStep::Charge(bytes))) == if dynbuf::admits(Some(ledger), bytes) {
            dynbuf::books_charged(Some(ledger), bytes)
        } else {
            Some(ledger)
        },
        Some(ledger.after(PoolStep::Refund(bytes))) == dynbuf::books_refunded(
            Some(ledger),
            bytes,
        ),
        Some(ledger.after(state.growth_request(current as nat, max as int)))
            == match dynbuf::growth_reserved(Some(ledger), state, current as int, max as int) {
            Some(need) => dynbuf::books_charged(Some(ledger), need),
            None => Some(ledger),
        },
{
}

/// A charge that the books admit keeps them in agreement with the sockets.
pub proof fn law_charge_keeps_books(
    ledger: PoolLedger,
    sockets: Seq<DynamicBufferState>,
    i: int,
    bytes: usize,
)
    requires
        reconciled(ledger, sockets),
        0 <= i < sockets.len(),
        ledger.admits(bytes),
    ensures
        reconciled(ledger.charged(bytes), sockets.update(i, sockets[i].charged_more(bytes))),
        sockets[i].charged_more(bytes).charged == sockets[i].charged + bytes,
{
    lemma_one_of_total(sockets, i);
    lemma_total_update(sockets, i, sockets[i].charged_more(bytes));
}

/// A refund keeps the books in agreement with the sockets.
pub proof fn law_refund_keeps_books(
    ledger: PoolLedger,
    sockets: Seq<DynamicBufferState>,
    i: int,
    bytes: usize,
)
    requires
        reconciled(ledger, sockets),
        0 <= i < sockets.len(),
    ensures
        reconciled(
            ledger.refunded(sockets[i].refundable(bytes)),
            sockets.update(i, sockets[i].charged_less(bytes)),
        ),
{
    lemma_one_of_total(sockets, i);
    lemma_total_update(sockets, i, sockets[i].charged_less(bytes));
}

/// A charge that is given back leaves the socket and the books as they were.
pub proof fn law_refund_undoes_charge(
    ledger: PoolLedger,
    sockets: Seq<DynamicBufferState>,
    i: int,
    bytes: usize,
)
    requires
        reconciled(ledger, sockets),
        0 <= i < sockets.len(),
        ledger.admits(bytes),
    ensures
        sockets[i].charged_more(bytes).charged_less(bytes) == sockets[i],
        ledger.charged(bytes).refunded(sockets[i].charged_more(bytes).refundable(bytes)) == ledger,
{
    lemma_one_of_total(sockets, i);
}

/// A socket that shares a pool: its policy and charge, and its buffers.
#[verifier::ext_equal]
pub struct Account {
    pub state: DynamicBufferState,
    pub rx: BufferView,
    pub tx: BufferView,
}

impl Account {
    /// The socket owns its buffers, and is charged for exactly their capacity.
    pub open spec fn wf(self) -> bool {
        &&& self.state.wf()
        &&& self.rx.owned
        &&& self.tx.owned
        &&& charged_for(self.state, self.rx, self.tx)
    }

    /// Whether this is `other`, except for what was asked of the pool.
    pub open spec fn alike(self, other: Account) -> bool {
        self.state.alike(other.state) && self.rx == other.rx && self.tx == other.tx
    }

    /// The buffer of one direction, and the most that it can grow to.
    pub open spec fn side(self, receive: bool) -> (BufferView, int) {
        if receive {
            (self.rx, self.state.rx_max as int)
        } else {
            (self.tx, self.state.tx_max as int)
        }
    }

    /// The socket with another state, and another buffer in one direction.
    pub open spec fn with_side(
        self,
        receive: bool,
        state: DynamicBufferState,
        buffer: BufferView,
    ) -> Account {
        if receive {
            Account { state, rx: buffer, ..self }
        } else {
            Account { state, tx: buffer, ..self }
        }
    }
}

/// The states of sockets.
pub open spec fn states(accounts: Seq<Account>) -> Seq<DynamicBufferState> {
    accounts.map_values(|account: Account| account.state)
}

/// The capacity of the buffers of all sockets.
pub open spec fn total_capacity(accounts: Seq<Account>) -> int
    decreases accounts.len(),
{
    if accounts.len() == 0 {
        0
    } else {
        total_capacity(accounts.drop_last()) + accounts.last().rx.capacity
            + accounts.last().tx.capacity
    }
}

/// Whether a pool and the sockets that share it are in balance: the books show what the
/// sockets have charged, within the budget, and each is charged for its capacities.
pub open spec fn balanced(ledger: PoolLedger, accounts: Seq<Account>) -> bool {
    &&& reconciled(ledger, states(accounts))
    &&& forall|i: int| 0 <= i < accounts.len() ==> (#[trigger] accounts[i]).wf()
}

/// The books of a pool that a growth step of a buffer was asked of, as `try_grow_buffer` asks: the
/// step is charged, and given back where the buffer did not grow.
pub open spec fn books_grown(
    ledger: PoolLedger,
    state: DynamicBufferState,
    current: nat,
    max: int,
    grown: bool,
) -> PoolLedger {
    let charged = ledger.after(state.growth_request(current, max));
    match dynbuf::growth_reserved(Some(ledger), state, current as int, max) {
        Some(need) if !grown => charged.after(
            PoolStep::Refund(state.charged_more(need).refundable(need)),
        ),
        _ => charged,
    }
}

/// The books of a pool that both initial allocations were asked of, as `allocate_initial` and
/// `restore_initial` ask: they are charged together, and given back where they could not be had.
pub open spec fn books_initial(
    ledger: PoolLedger,
    state: DynamicBufferState,
    allocated: bool,
) -> PoolLedger {
    let charged = ledger.after(state.initial_request());
    match dynbuf::initial_reserved(Some(ledger), state) {
        Some(charge) if !allocated => charged.after(
            PoolStep::Refund(state.charged_more(charge).refundable(charge)),
        ),
        _ => charged,
    }
}

/// The books of a pool in balance show the capacity of all buffers that are charged to it, and
/// that is within the budget.
pub proof fn law_pool_covers_capacities(ledger: PoolLedger, accounts: Seq<Account>)
    requires
        balanced(ledger, accounts),
    ensures
        ledger.used == total_capacity(accounts),
        total_capacity(accounts) <= ledger.budget,
{
    lemma_charged_is_capacity(accounts);
}

/// A socket joins a pool in balance with nothing charged and no storage.
pub proof fn law_new_socket_keeps_balance(
    ledger: PoolLedger,
    accounts: Seq<Account>,
    account: Account,
)
    requires
        balanced(ledger, accounts),
        account.wf(),
        account.state.charged == 0,
    ensures
        balanced(ledger, accounts.push(account)),
{
    assert(states(accounts.push(account)).drop_last() =~= states(accounts));
}

/// However a growth step of either buffer ends, the pool stays in balance; where the buffer
/// did not grow, nothing has changed but that the pool was asked.
pub proof fn law_growth_keeps_balance(
    ledger: PoolLedger,
    accounts: Seq<Account>,
    i: int,
    receive: bool,
    grown: bool,
    after: DynamicBufferState,
    buffer_after: BufferView,
)
    requires
        balanced(ledger, accounts),
        0 <= i < accounts.len(),
        dynbuf::grow_step(
            accounts[i].state,
            Some(ledger),
            accounts[i].side(receive).0,
            accounts[i].side(receive).1,
            grown,
            after,
            buffer_after,
        ),
    ensures
        ({
            let (buffer, max) = accounts[i].side(receive);
            let books = books_grown(ledger, accounts[i].state, buffer.capacity, max, grown);
            let account = accounts[i].with_side(receive, after, buffer_after);
            &&& balanced(books, accounts.update(i, account))
            &&& !grown ==> books == ledger && account.alike(accounts[i])
        }),
{
    let (buffer, max) = accounts[i].side(receive);
    let account = accounts[i].with_side(receive, after, buffer_after);
    assert(accounts[i].wf());
    lemma_states_update(accounts, i, account);
    if let Some(need) = dynbuf::growth_reserved(
        Some(ledger),
        accounts[i].state,
        buffer.capacity as int,
        max,
    ) {
        law_charge_keeps_books(ledger, states(accounts), i, need);
        law_refund_undoes_charge(ledger, states(accounts), i, need);
        lemma_total_update(states(accounts), i, accounts[i].state.charged_more(need));
        lemma_one_of_total(states(accounts), i);
        dynbuf::law_settling_asks_for_no_more(
            accounts[i].state,
            accounts[i].state.growth_request(buffer.capacity, max),
            need,
            grown,
        );
    }
    dynbuf::law_asking_changes_only_the_account(
        accounts[i].state,
        accounts[i].state.growth_request(buffer.capacity, max),
    );
    lemma_total_update(states(accounts), i, after);
}

/// However the initial allocation of a socket that has no storage ends, the pool stays in
/// balance: both buffers are charged for, or there is neither.
pub proof fn law_initial_keeps_balance(
    ledger: PoolLedger,
    accounts: Seq<Account>,
    i: int,
    allocated: bool,
    storage: (Vec<u8>, Vec<u8>),
    after: DynamicBufferState,
)
    requires
        balanced(ledger, accounts),
        0 <= i < accounts.len(),
        accounts[i].state.charged == 0,
        dynbuf::initial_step(
            accounts[i].state,
            Some(ledger),
            ring_buffer::try_zeroed_socket_storage,
            allocated,
            storage,
            after,
        ),
    ensures
        ({
            let account = Account {
                state: after,
                rx: fresh_buffer(storage.0),
                tx: fresh_buffer(storage.1),
            };
            balanced(
                books_initial(ledger, accounts[i].state, allocated),
                accounts.update(i, account),
            )
        }),
{
    let account = Account {
        state: after,
        rx: fresh_buffer(storage.0),
        tx: fresh_buffer(storage.1),
    };
    assert(accounts[i].wf());
    lemma_states_update(accounts, i, account);
    lemma_initial_reserved(ledger, accounts, i);
    lemma_total_update(states(accounts), i, after);
}

/// However the restoration of the initial capacities of a socket that has no storage ends, the
/// pool stays in balance: both buffers are charged for, or there is neither.
pub proof fn law_restore_keeps_balance(
    ledger: PoolLedger,
    accounts: Seq<Account>,
    i: int,
    restored: bool,
    after: DynamicBufferState,
    rx_after: BufferView,
    tx_after: BufferView,
)
    requires
        balanced(ledger, accounts),
        0 <= i < accounts.len(),
        accounts[i].state.charged == 0,
        dynbuf::restore_step(
            accounts[i].state,
            Some(ledger),
            accounts[i].rx,
            accounts[i].tx,
            restored,
            after,
            rx_after,
            tx_after,
        ),
    ensures
        balanced(
            books_initial(ledger, accounts[i].state, restored),
            accounts.update(i, Account { state: after, rx: rx_after, tx: tx_after }),
        ),
{
    let account = Account { state: after, rx: rx_after, tx: tx_after };
    assert(accounts[i].wf());
    lemma_states_update(accounts, i, account);
    lemma_initial_reserved(ledger, accounts, i);
    lemma_total_update(states(accounts), i, after);
}

/// A release gives the pool back exactly what the socket had charged, and leaves it without
/// storage or charge, in balance with the others. Giving back once more, as a second release
/// does or the end of the socket, changes nothing.
pub proof fn law_release_keeps_balance(ledger: PoolLedger, accounts: Seq<Account>, i: int)
    requires
        balanced(ledger, accounts),
        0 <= i < accounts.len(),
    ensures
        ({
            let state = accounts[i].state;
            let books = ledger.after(PoolStep::Refund(state.charged));
            let released = released(accounts[i]);
            &&& balanced(books, accounts.update(i, released))
            &&& books.used == ledger.used - state.charged
            &&& released.state.charged == 0
            &&& released.rx.capacity == 0
            &&& released.tx.capacity == 0
            &&& released.state.charged_less(released.state.charged) == released.state
            &&& released.state.given_back(released.state.charged) == released.state
            &&& books.after(PoolStep::Refund(released.state.charged)) == books
            &&& ring_buffer::released(released.rx) == released.rx
            &&& ring_buffer::released(released.tx) == released.tx
        }),
{
    let state = accounts[i].state;
    let released = released(accounts[i]);
    assert(accounts[i].wf());
    lemma_states_update(accounts, i, released);
    lemma_one_of_total(states(accounts), i);
    law_refund_keeps_books(ledger, states(accounts), i, state.charged);
    lemma_total_update(states(accounts), i, state.charged_less(state.charged));
    lemma_total_update(states(accounts), i, released.state);
}

/// A release of the transmit buffer gives the pool back exactly its capacity, and leaves the
/// socket in balance with the others.
pub proof fn law_release_tx_keeps_balance(ledger: PoolLedger, accounts: Seq<Account>, i: int)
    requires
        balanced(ledger, accounts),
        0 <= i < accounts.len(),
    ensures
        ({
            let state = accounts[i].state;
            let capacity = accounts[i].tx.capacity as usize;
            let books = ledger.after(PoolStep::Refund(state.refundable(capacity)));
            let released = tx_released(accounts[i]);
            &&& balanced(books, accounts.update(i, released))
            &&& books.used == ledger.used - accounts[i].tx.capacity
            &&& released.tx.capacity == 0
        }),
{
    let state = accounts[i].state;
    let capacity = accounts[i].tx.capacity as usize;
    let released = tx_released(accounts[i]);
    assert(accounts[i].wf());
    lemma_states_update(accounts, i, released);
    lemma_one_of_total(states(accounts), i);
    law_refund_keeps_books(ledger, states(accounts), i, capacity);
    lemma_total_update(states(accounts), i, state.charged_less(capacity));
    lemma_total_update(states(accounts), i, released.state);
}

/// Once every socket that shares a pool has given all back, nothing is charged.
pub proof fn law_all_released_empties_pool(ledger: PoolLedger, accounts: Seq<Account>)
    requires
        balanced(ledger, accounts),
        forall|i: int| 0 <= i < accounts.len() ==> (#[trigger] accounts[i]).state.charged == 0,
    ensures
        ledger.used == 0,
        ledger.unused() == ledger.budget,
{
    assert forall|i: int| 0 <= i < states(accounts).len() implies (#[trigger] states(
        accounts,
    )[i]).charged == 0 by {
        assert(accounts[i].state.charged == 0);
    }
    lemma_total_of_zeros(states(accounts));
}

/// What a socket that shares a pool can do.
pub enum Operation {
    /// A socket comes into being, with nothing charged.
    Open(Account),
    /// Its buffers get their initial capacities, by `allocate_initial`.
    Allocate { i: int, allocated: bool, storage: (Vec<u8>, Vec<u8>), after: DynamicBufferState },
    /// Its buffers get their initial capacities again, by `restore_initial`.
    Restore {
        i: int,
        restored: bool,
        after: DynamicBufferState,
        rx_after: BufferView,
        tx_after: BufferView,
    },
    /// Its receive or transmit buffer grows, by `try_grow_rx` or `try_grow_tx`.
    Grow {
        i: int,
        receive: bool,
        grown: bool,
        after: DynamicBufferState,
        buffer_after: BufferView,
    },
    /// It gives both buffers back, by `release`.
    Release(int),
    /// It gives its transmit buffer back, by `release_tx`.
    ReleaseTx(int),
    /// It goes away, by `close`.
    Close(int),
}

/// The buffer that is made of new storage.
pub open spec fn fresh_buffer(storage: Vec<u8>) -> BufferView {
    BufferView { contents: Seq::empty(), capacity: storage@.len(), owned: true }
}

/// The socket once it gave both buffers back.
pub open spec fn released(account: Account) -> Account {
    Account {
        state: account.state.given_back(account.state.charged),
        rx: ring_buffer::released(account.rx),
        tx: ring_buffer::released(account.tx),
    }
}

/// The socket once it gave its transmit buffer back.
pub open spec fn tx_released(account: Account) -> Account {
    Account {
        state: account.state.given_back(account.tx.capacity as usize),
        tx: ring_buffer::released(account.tx),
        ..account
    }
}

impl Operation {
    /// Whether this can happen where the pool's books are `ledger` and the sockets `accounts`:
    /// the operation ends as its contract has it. Initial capacities are allocated and restored
    /// only where there are none.
    pub open spec fn can_happen(self, ledger: PoolLedger, accounts: Seq<Account>) -> bool {
        match self {
            Operation::Open(account) => account.wf() && account.state.charged == 0,
            Operation::Allocate { i, allocated, storage, after } => {
                &&& 0 <= i < accounts.len()
                &&& accounts[i].state.charged == 0
                &&& dynbuf::initial_step(
                    accounts[i].state,
                    Some(ledger),
                    ring_buffer::try_zeroed_socket_storage,
                    allocated,
                    storage,
                    after,
                )
            },
            Operation::Restore { i, restored, after, rx_after, tx_after } => {
                &&& 0 <= i < accounts.len()
                &&& accounts[i].state.charged == 0
                &&& dynbuf::restore_step(
                    accounts[i].state,
                    Some(ledger),
                    accounts[i].rx,
                    accounts[i].tx,
                    restored,
                    after,
                    rx_after,
                    tx_after,
                )
            },
            Operation::Grow { i, receive, grown, after, buffer_after } => {
                &&& 0 <= i < accounts.len()
                &&& dynbuf::grow_step(
                    accounts[i].state,
                    Some(ledger),
                    accounts[i].side(receive).0,
                    accounts[i].side(receive).1,
                    grown,
                    after,
                    buffer_after,
                )
            },
            Operation::Release(i) => 0 <= i < accounts.len(),
            Operation::ReleaseTx(i) => 0 <= i < accounts.len(),
            Operation::Close(i) => 0 <= i < accounts.len(),
        }
    }

    /// The books once the pool took the steps that the operation asks for.
    pub open spec fn books_after(self, ledger: PoolLedger, accounts: Seq<Account>) -> PoolLedger {
        match self {
            Operation::Open(_) => ledger,
            Operation::Allocate { i, allocated, .. } => books_initial(
                ledger,
                accounts[i].state,
                allocated,
            ),
            Operation::Restore { i, restored, .. } => books_initial(
                ledger,
                accounts[i].state,
                restored,
            ),
            Operation::Grow { i, receive, grown, .. } => books_grown(
                ledger,
                accounts[i].state,
                accounts[i].side(receive).0.capacity,
                accounts[i].side(receive).1,
                grown,
            ),
            Operation::Release(i) => ledger.after(PoolStep::Refund(accounts[i].state.charged)),
            Operation::ReleaseTx(i) => ledger.after(
                PoolStep::Refund(
                    accounts[i].state.refundable(accounts[i].tx.capacity as usize),
                ),
            ),
            Operation::Close(i) => ledger.after(PoolStep::Refund(accounts[i].state.charged)),
        }
    }

    /// The sockets after the operation: those that are still there.
    pub open spec fn accounts_after(self, accounts: Seq<Account>) -> Seq<Account> {
        match self {
            Operation::Open(account) => accounts.push(account),
            Operation::Allocate { i, storage, after, .. } => accounts.update(
                i,
                Account {
                    state: after,
                    rx: fresh_buffer(storage.0),
                    tx: fresh_buffer(storage.1),
                },
            ),
            Operation::Restore { i, after, rx_after, tx_after, .. } => accounts.update(
                i,
                Account { state: after, rx: rx_after, tx: tx_after },
            ),
            Operation::Grow { i, receive, after, buffer_after, .. } => accounts.update(
                i,
                accounts[i].with_side(receive, after, buffer_after),
            ),
            Operation::Release(i) => accounts.update(i, released(accounts[i])),
            Operation::ReleaseTx(i) => accounts.update(i, tx_released(accounts[i])),
            Operation::Close(i) => accounts.remove(i),
        }
    }
}

/// The sockets after `operations`, where there were none.
pub open spec fn live_accounts(operations: Seq<Operation>) -> Seq<Account>
    decreases operations.len(),
{
    if operations.len() == 0 {
        seq![]
    } else {
        operations.last().accounts_after(live_accounts(operations.drop_last()))
    }
}

/// The books of a new pool of this budget after `operations`, each of which finds what the one
/// before it left.
pub open spec fn final_books(budget: usize, operations: Seq<Operation>) -> PoolLedger
    decreases operations.len(),
{
    if operations.len() == 0 {
        PoolLedger { budget, pressure_threshold: (budget / 4 * 3) as usize, used: 0 }
    } else {
        let before = operations.drop_last();
        operations.last().books_after(final_books(budget, before), live_accounts(before))
    }
}

/// Whether `operations` can happen one after the other on a new pool of this budget.
pub open spec fn all_can_happen(budget: usize, operations: Seq<Operation>) -> bool
    decreases operations.len(),
{
    operations.len() > 0 ==> {
        let before = operations.drop_last();
        &&& all_can_happen(budget, before)
        &&& operations.last().can_happen(final_books(budget, before), live_accounts(before))
    }
}

/// Whatever a socket does, and however it ends, the pool stays in balance.
pub proof fn law_operations_keep_balance(
    ledger: PoolLedger,
    accounts: Seq<Account>,
    operation: Operation,
)
    requires
        balanced(ledger, accounts),
        operation.can_happen(ledger, accounts),
    ensures
        balanced(operation.books_after(ledger, accounts), operation.accounts_after(accounts)),
{
    match operation {
        Operation::Open(account) => law_new_socket_keeps_balance(ledger, accounts, account),
        Operation::Allocate { i, allocated, storage, after } => law_initial_keeps_balance(
            ledger,
            accounts,
            i,
            allocated,
            storage,
            after,
        ),
        Operation::Restore { i, restored, after, rx_after, tx_after } => {
            law_restore_keeps_balance(ledger, accounts, i, restored, after, rx_after, tx_after)
        },
        Operation::Grow { i, receive, grown, after, buffer_after } => law_growth_keeps_balance(
            ledger,
            accounts,
            i,
            receive,
            grown,
            after,
            buffer_after,
        ),
        Operation::Release(i) => law_release_keeps_balance(ledger, accounts, i),
        Operation::ReleaseTx(i) => law_release_tx_keeps_balance(ledger, accounts, i),
        Operation::Close(i) => law_close_keeps_balance(ledger, accounts, i),
    }
}

/// A socket that goes away takes its charge with it, and leaves the others in balance.
pub proof fn law_close_keeps_balance(ledger: PoolLedger, accounts: Seq<Account>, i: int)
    requires
        balanced(ledger, accounts),
        0 <= i < accounts.len(),
    ensures
        balanced(
            ledger.after(PoolStep::Refund(accounts[i].state.charged)),
            accounts.remove(i),
        ),
{
    let rest = accounts.remove(i);
    assert(states(rest) =~= states(accounts).remove(i));
    assert(states(accounts)[i] == accounts[i].state);
    lemma_one_of_total(states(accounts), i);
    lemma_total_remove(states(accounts), i);
    lemma_total_not_negative(states(rest));
    assert forall|k: int| 0 <= k < rest.len() implies (#[trigger] rest[k]).wf() by {
        assert(rest[k] == accounts[if k < i {
            k
        } else {
            k + 1
        }]);
    }
}

/// Sockets use a new pool, one after the other and in any order. What the pool then reports as
/// used is the capacity of the buffers of the sockets that are there, and within its budget; once
/// all are released, or gone, it is nothing. `ledger` is what the pool shows after the
/// operations: the books that the last of them left.
pub proof fn law_pool_reports_live_capacities(
    pool: MemoryPool,
    operations: Seq<Operation>,
    ledger: PoolLedger,
)
    requires
        pool.opened_with(final_books(pool.spec_budget(), seq![])),
        all_can_happen(pool.spec_budget(), operations),
        pool.shown(ledger),
        ledger == final_books(pool.spec_budget(), operations),
    ensures
        ledger.used == total_capacity(live_accounts(operations)),
        ledger.used <= pool.spec_budget(),
        (forall|i: int|
            0 <= i < live_accounts(operations).len() ==> (#[trigger] live_accounts(
                operations,
            )[i]).state.charged == 0) ==> ledger.used == 0,
{
    lemma_operations_balance(pool.spec_budget(), operations);
    law_pool_covers_capacities(ledger, live_accounts(operations));
    if forall|i: int|
        0 <= i < live_accounts(operations).len() ==> (#[trigger] live_accounts(
            operations,
        )[i]).state.charged == 0 {
        law_all_released_empties_pool(ledger, live_accounts(operations));
    }
}

/// What a pool shows right after a charge: more by the charge where the budget has room for it,
/// and the same where it has not. Giving the charge back leaves what was there. `before` is what
/// the charge found, and `ledger` what is shown after it.
pub proof fn law_pool_reports_charges(
    pool: MemoryPool,
    before: PoolLedger,
    bytes: usize,
    ledger: PoolLedger,
)
    requires
        pool.asked(PoolStep::Charge(bytes), before),
        pool.shown(ledger),
        ledger == before.after(PoolStep::Charge(bytes)),
    ensures
        before.admits(bytes) == (before.used + bytes <= pool.spec_budget()),
        ledger.used == if before.admits(bytes) {
            before.used + bytes
        } else {
            before.used as int
        },
        ledger.used <= pool.spec_budget(),
        before.admits(bytes) ==> ledger.after(PoolStep::Refund(bytes)) == before,
        ledger.pressure_threshold == pool.spec_budget() / 4 * 3,
{
}

/// After operations on a new pool, the pool is in balance with the sockets.
proof fn lemma_operations_balance(budget: usize, operations: Seq<Operation>)
    requires
        all_can_happen(budget, operations),
    ensures
        balanced(final_books(budget, operations), live_accounts(operations)),
        final_books(budget, operations).budget == budget,
    decreases operations.len(),
{
    if operations.len() > 0 {
        let before = operations.drop_last();
        lemma_operations_balance(budget, before);
        law_operations_keep_balance(
            final_books(budget, before),
            live_accounts(before),
            operations.last(),
        );
    }
}

/// What the sockets have charged without one of them.
proof fn lemma_total_remove(sockets: Seq<DynamicBufferState>, i: int)
    requires
        0 <= i < sockets.len(),
    ensures
        total_charged(sockets.remove(i)) == total_charged(sockets) - sockets[i].charged,
    decreases sockets.len(),
{
    let rest = sockets.remove(i);
    if i == sockets.len() - 1 {
        assert(rest =~= sockets.drop_last());
    } else {
        lemma_total_remove(sockets.drop_last(), i);
        assert(rest.drop_last() =~= sockets.drop_last().remove(i));
    }
}

/// The transmit buffer is said to be able to grow exactly where a growth step on the same books
/// is charged. Where it is not, the step changes nothing; where it is, the buffer grows unless
/// its own storage cannot.
pub proof fn law_growable_when_growth_is_charged(
    state: DynamicBufferState,
    books: Option<PoolLedger>,
    tx: BufferView,
    grown: bool,
    after: DynamicBufferState,
    tx_after: BufferView,
)
    requires
        dynbuf::grow_step(state, books, tx, state.tx_max as int, grown, after, tx_after),
    ensures
        ({
            let reserved = dynbuf::growth_reserved(
                books,
                state,
                tx.capacity as int,
                state.tx_max as int,
            );
            let growable = dynbuf::tx_growable(books, state, tx.capacity as int);
            &&& growable == reserved is Some
            &&& !growable ==> !grown && after.alike(state) && tx_after == tx
            &&& growable ==> grown || ring_buffer::growth_refused(
                tx,
                (tx.capacity + reserved->0) as usize,
            )
        }),
{
    dynbuf::law_asking_changes_only_the_account(
        state,
        state.growth_request(tx.capacity, state.tx_max as int),
    );
}

/// Growth never loses, reorders or adds buffered bytes, and never shrinks the storage.
pub proof fn law_growth_keeps_payload(
    before: DynamicBufferState,
    books: Option<PoolLedger>,
    buffer: BufferView,
    max: int,
    grown: bool,
    after: DynamicBufferState,
    buffer_after: BufferView,
)
    requires
        max <= usize::MAX,
        dynbuf::grow_step(before, books, buffer, max, grown, after, buffer_after),
    ensures
        buffer_after.contents == buffer.contents,
        buffer_after.capacity >= buffer.capacity,
        grown ==> buffer.capacity < buffer_after.capacity <= max,
{
}

/// A buffer below its maximum always has a next step, which stays within the maximum. The
/// step doubles the capacity, or adds a chunk where that is more; under pressure it adds no
/// more than a chunk.
pub proof fn law_growth_steps(
    books: Option<PoolLedger>,
    chunk: u32,
    current: int,
    max: int,
)
    requires
        chunk >= 1,
        0 <= current < max <= usize::MAX,
    ensures
        dynbuf::growth(books, chunk, current, max) matches Some(need) && {
            &&& 0 < need <= max - current
            &&& dynbuf::throttled(books) ==> need <= chunk
            &&& !dynbuf::throttled(books) ==> need >= current || current + need == max
            &&& need >= chunk || current + need == max
        },
{
}

/// What the sockets of a pool in balance have charged is the capacity of their buffers.
proof fn lemma_charged_is_capacity(accounts: Seq<Account>)
    requires
        forall|i: int| 0 <= i < accounts.len() ==> (#[trigger] accounts[i]).wf(),
    ensures
        total_charged(states(accounts)) == total_capacity(accounts),
    decreases accounts.len(),
{
    if accounts.len() > 0 {
        let rest = accounts.drop_last();
        assert forall|i: int| 0 <= i < rest.len() implies (#[trigger] rest[i]).wf() by {
            assert(accounts[i].wf());
        }
        lemma_charged_is_capacity(rest);
        assert(states(accounts).drop_last() =~= states(rest));
        assert(accounts[accounts.len() - 1].wf());
    }
}

/// Changing one socket changes one state.
proof fn lemma_states_update(accounts: Seq<Account>, i: int, account: Account)
    requires
        0 <= i < accounts.len(),
    ensures
        states(accounts.update(i, account)) == states(accounts).update(i, account.state),
        states(accounts).len() == accounts.len(),
        states(accounts)[i] == accounts[i].state,
{
    assert(states(accounts.update(i, account)) =~= states(accounts).update(i, account.state));
}

/// The initial charge that the books admit keeps them in agreement with the sockets, as does
/// giving it back, which leaves the socket and the books as they were.
proof fn lemma_initial_reserved(ledger: PoolLedger, accounts: Seq<Account>, i: int)
    requires
        balanced(ledger, accounts),
        0 <= i < accounts.len(),
    ensures
        dynbuf::initial_reserved(Some(ledger), accounts[i].state) matches Some(charge) ==> {
            let state = accounts[i].state;
            &&& charge == state.initial_charge()
            &&& reconciled(
                ledger.charged(charge),
                states(accounts).update(i, state.charged_more(charge)),
            )
            &&& state.charged_more(charge).charged == state.charged + charge
            &&& dynbuf::settled(state, state.initial_request(), charge, false).alike(state)
            &&& ledger.after(state.initial_request()) == ledger.charged(charge)
            &&& ledger.charged(charge).after(
                PoolStep::Refund(state.charged_more(charge).refundable(charge)),
            ) == ledger
        },
{
    let state = accounts[i].state;
    assert(accounts[i].wf());
    assert(states(accounts)[i] == state);
    if let Some(charge) = dynbuf::initial_reserved(Some(ledger), state) {
        law_charge_keeps_books(ledger, states(accounts), i, charge);
        law_refund_undoes_charge(ledger, states(accounts), i, charge);
        lemma_one_of_total(states(accounts), i);
        dynbuf::law_settling_asks_for_no_more(state, state.initial_request(), charge, false);
    }
}

/// What one socket has charged is part of the total.
proof fn lemma_one_of_total(sockets: Seq<DynamicBufferState>, i: int)
    requires
        0 <= i < sockets.len(),
    ensures
        0 <= sockets[i].charged <= total_charged(sockets),
    decreases sockets.len(),
{
    if i < sockets.len() - 1 {
        lemma_one_of_total(sockets.drop_last(), i);
    } else {
        lemma_total_not_negative(sockets.drop_last());
    }
}

/// The total is not negative.
proof fn lemma_total_not_negative(sockets: Seq<DynamicBufferState>)
    ensures
        total_charged(sockets) >= 0,
    decreases sockets.len(),
{
    if sockets.len() > 0 {
        lemma_total_not_negative(sockets.drop_last());
    }
}

/// Changing what one socket has charged changes the total by as much.
proof fn lemma_total_update(
    sockets: Seq<DynamicBufferState>,
    i: int,
    state: DynamicBufferState,
)
    requires
        0 <= i < sockets.len(),
    ensures
        total_charged(sockets.update(i, state)) == total_charged(sockets) - sockets[i].charged
            + state.charged,
    decreases sockets.len(),
{
    let after = sockets.update(i, state);
    if i == sockets.len() - 1 {
        assert(after.drop_last() =~= sockets.drop_last());
    } else {
        lemma_total_update(sockets.drop_last(), i, state);
        assert(after.drop_last() =~= sockets.drop_last().update(i, state));
    }
}

/// Sockets that have charged nothing have charged nothing in total.
proof fn lemma_total_of_zeros(sockets: Seq<DynamicBufferState>)
    requires
        forall|i: int| 0 <= i < sockets.len() ==> (#[trigger] sockets[i]).charged == 0,
    ensures
        total_charged(sockets) == 0,
    decreases sockets.len(),
{
    if sockets.len() > 0 {
        lemma_total_of_zeros(sockets.drop_last());
        assert(sockets[sockets.len() - 1].charged == 0);
    }
}

} // verus!
