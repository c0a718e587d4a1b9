//! Socket buffers that are allocated lazily and grow on demand, charged to a shared pool.
//!
//! What an operation does to the books of a pool is made of steps whose names end in `_on`: they
//! work on the books as a value, and say exactly what becomes of them. An operation asks the
//! socket's own pool to take the same steps, and says what it asked for, that it asked for nothing
//! else, and which books the pool had then. The pool holds its books only while it reads or changes them, never while storage
//! is allocated. A socket without a pool has no books: nothing limits it.
use vstd::prelude::*;

use crate::storage::ring_buffer::{self, try_zeroed_socket_storage, BufferView, SocketBuffer};
use crate::tcp::handle::{self, PoolHandle};
use crate::tcp::pool::{MemoryPool, PoolLedger, PoolStep};

verus! {

/// The most that a buffer can be configured to hold, in either direction.
pub const PER_DIRECTION_CAP: u32 = 1_073_741_824;

/// How the buffers of a socket are to be sized.
#[derive(Debug, Clone, Copy, PartialEq, Eq, Structural)]
pub struct DynamicBufferConfig {
    /// Initial receive-buffer capacity in bytes. May be 0.
    pub rx_initial: u32,
    /// Maximum receive-buffer capacity in bytes. Values above 2^30 count as 2^30.
    pub rx_max: u32,
    /// Initial transmit-buffer capacity in bytes. May be 0.
    pub tx_initial: u32,
    /// Maximum transmit-buffer capacity in bytes. Values above 2^30 count as 2^30.
    pub tx_max: u32,
    /// How much capacity a growth step adds at least. 0 counts as 1.
    pub grow_chunk: u32,
}

/// The capacity policy of a socket, and what it has charged to its pool.
pub struct DynamicBufferState {
    pub rx_initial: u32,
    pub tx_initial: u32,
    pub rx_max: u32,
    pub tx_max: u32,
    pub grow_chunk: u32,
    pub charged: usize,
    pub pool: Option<PoolHandle>,
}

/// The smaller of two numbers.
pub open spec fn lesser(a: int, b: int) -> int {
    if a <= b {
        a
    } else {
        b
    }
}

/// The larger of two numbers.
pub open spec fn greater(a: int, b: int) -> int {
    if a >= b {
        a
    } else {
        b
    }
}

/// Whether the books have room for `bytes`; where there are none, there always is.
pub open spec fn admits(books: Option<PoolLedger>, bytes: usize) -> bool {
    match books {
        Some(ledger) => ledger.admits(bytes),
        None => true,
    }
}

/// The books once `bytes` are charged.
pub open spec fn books_charged(books: Option<PoolLedger>, bytes: usize) -> Option<PoolLedger> {
    match books {
        Some(ledger) => Some(ledger.charged(bytes)),
        None => None,
    }
}

/// The books once `bytes` are given back.
pub open spec fn books_refunded(books: Option<PoolLedger>, bytes: usize) -> Option<PoolLedger> {
    match books {
        Some(ledger) => Some(ledger.refunded(bytes)),
        None => None,
    }
}

/// Whether growth is throttled: never where there are no books.
pub open spec fn throttled(books: Option<PoolLedger>) -> bool {
    books matches Some(ledger) && ledger.used >= ledger.pressure_threshold
}

/// The capacity that a buffer grows to next: by a chunk at least, to twice the size unless
/// growth is throttled, and no further than `max`.
pub open spec fn grown_capacity(current: int, chunk: int, max: int, pressure: bool) -> int {
    if current >= max {
        current
    } else if pressure {
        lesser(current + chunk, max)
    } else {
        lesser(greater(current + chunk, 2 * current), max)
    }
}

/// How much the next growth step adds, `None` where it adds nothing.
pub open spec fn growth(
    books: Option<PoolLedger>,
    chunk: u32,
    current: int,
    max: int,
) -> Option<usize> {
    let next = grown_capacity(current, chunk as int, max, throttled(books));
    if next > current {
        Some((next - current) as usize)
    } else {
        None
    }
}

/// Whether a pool, where there is one, was asked to take `step`, and its books were `books` when
/// it was.
pub open spec fn asked(
    pool: Option<PoolHandle>,
    step: PoolStep,
    books: Option<PoolLedger>,
) -> bool {
    match pool {
        Some(handle) => books matches Some(before) && handle.pool().asked(step, before),
        None => books is None,
    }
}

/// Whether a pool, where there is one, was asked for its books, and they were `books` when it was.
pub open spec fn shown(pool: Option<PoolHandle>, books: Option<PoolLedger>) -> bool {
    match pool {
        Some(handle) => books matches Some(ledger) && handle.pool().shown(ledger),
        None => books is None,
    }
}

/// Whether a pool, where there is one, was asked to give `bytes` back. Where there is nothing to
/// give back, it need not be asked.
pub open spec fn gave_back(pool: Option<PoolHandle>, bytes: usize) -> bool {
    bytes > 0 ==> exists|books: Option<PoolLedger>| #[trigger]
        asked(pool, PoolStep::Refund(bytes), books)
}

impl DynamicBufferState {
    /// The policy is within its limits.
    pub open spec fn wf(self) -> bool {
        &&& self.rx_initial <= self.rx_max <= PER_DIRECTION_CAP
        &&& self.tx_initial <= self.tx_max <= PER_DIRECTION_CAP
        &&& 1 <= self.grow_chunk <= PER_DIRECTION_CAP
    }

    /// The state once `bytes` more are charged.
    pub open spec fn charged_more(self, bytes: usize) -> DynamicBufferState {
        DynamicBufferState {
            charged: lesser(self.charged + bytes, usize::MAX as int) as usize,
            ..self
        }
    }

    /// The state once `bytes`, or all that is charged where that is less, are given back.
    pub open spec fn charged_less(self, bytes: usize) -> DynamicBufferState {
        DynamicBufferState { charged: (self.charged - self.refundable(bytes)) as usize, ..self }
    }

    /// How much of `bytes` can be given back: no more than is charged.
    pub open spec fn refundable(self, bytes: usize) -> usize {
        lesser(bytes as int, self.charged as int) as usize
    }

    /// The state once `step` was asked of the pool, where there is one.
    pub open spec fn having_asked(self, step: PoolStep) -> DynamicBufferState {
        DynamicBufferState {
            pool: match self.pool {
                Some(handle) => Some(handle.having_asked(step)),
                None => None,
            },
            ..self
        }
    }

    /// The state once `bytes`, or all that is charged where that is less, were given back: the
    /// pool was asked for that, unless there was nothing to give back.
    pub open spec fn given_back(self, bytes: usize) -> DynamicBufferState {
        if self.refundable(bytes) > 0 {
            self.having_asked(PoolStep::Refund(self.refundable(bytes))).charged_less(bytes)
        } else {
            self
        }
    }

    /// Everything that was asked of the pool, in order.
    pub open spec fn steps(self) -> Seq<PoolStep> {
        match self.pool {
            Some(handle) => handle.steps(),
            None => seq![],
        }
    }

    /// Whether this is `other`, except for what was asked of the pool.
    pub open spec fn alike(self, other: DynamicBufferState) -> bool {
        &&& self.rx_initial == other.rx_initial
        &&& self.tx_initial == other.tx_initial
        &&& self.rx_max == other.rx_max
        &&& self.tx_max == other.tx_max
        &&& self.grow_chunk == other.grow_chunk
        &&& self.charged == other.charged
        &&& match (self.pool, other.pool) {
            (Some(handle), Some(to_same)) => handle.pool() == to_same.pool(),
            (None, None) => true,
            _ => false,
        }
    }

    /// What both initial allocations charge together.
    pub open spec fn initial_charge(self) -> int {
        self.rx_initial + self.tx_initial
    }

    /// What a pool is asked for the next growth step of a buffer, now of capacity `current`.
    pub open spec fn growth_request(self, current: nat, max: int) -> PoolStep {
        PoolStep::Grow { chunk: self.grow_chunk, current: current as usize, max: max as usize }
    }

    /// What a pool is asked for both initial allocations.
    pub open spec fn initial_request(self) -> PoolStep {
        PoolStep::Charge(self.initial_charge() as usize)
    }
}

/// To ask a pool for a step changes nothing of the socket, and adds that step, and no other, to
/// what was asked of the pool.
pub proof fn law_asking_changes_only_the_account(state: DynamicBufferState, step: PoolStep)
    ensures
        state.having_asked(step).alike(state),
        state.having_asked(step).steps() == if state.pool is Some {
            state.steps().push(step)
        } else {
            state.steps()
        },
{
    if let Some(handle) = state.pool {
        handle::law_asking_is_accounted_for(handle, handle, step);
    }
}

/// What was given back to a pool through a handle was given back to it whatever was asked before.
proof fn lemma_gave_back_to_the_same(state: DynamicBufferState, step: PoolStep, bytes: usize)
    requires
        gave_back(state.having_asked(step).pool, bytes),
    ensures
        gave_back(state.pool, bytes),
{
    law_asking_changes_only_the_account(state, step);
    if bytes > 0 {
        let books = choose|books: Option<PoolLedger>| #[trigger]
            asked(state.having_asked(step).pool, PoolStep::Refund(bytes), books);
        assert(asked(state.pool, PoolStep::Refund(bytes), books));
    }
}

/// The largest of three numbers.
fn largest(a: usize, b: usize, c: usize) -> (r: usize)
    ensures
        r == greater(greater(a as int, b as int), c as int),
{
    let ab: usize = if a >= b {
        a
    } else {
        b
    };
    if ab >= c {
        ab
    } else {
        c
    }
}

/// The capacity that a buffer grows to next.
pub fn next_capacity(current: usize, chunk: usize, max: usize, pressure: bool) -> (next: usize)
    ensures
        next == grown_capacity(current as int, chunk as int, max as int, pressure),
{
    if current >= max {
        return current;
    }
    let by_chunk: usize = current.saturating_add(chunk);
    let doubled: usize = current.saturating_add(current);
    let target: usize = if pressure || by_chunk >= doubled {
        by_chunk
    } else {
        doubled
    };
    if target <= max {
        target
    } else {
        max
    }
}

/// What two initial allocations charge together, `None` where that cannot be counted.
pub fn combined_initial_capacity(rx_initial: usize, tx_initial: usize) -> (combined: Option<usize>)
    ensures
        combined == if rx_initial + tx_initial <= usize::MAX {
            Some((rx_initial + tx_initial) as usize)
        } else {
            None
        },
{
    rx_initial.checked_add(tx_initial)
}

impl Default for DynamicBufferConfig {
    /// Nothing up front, 64 KiB at most, 4 KiB at a time.
    fn default() -> (config: DynamicBufferConfig)
        ensures
            config == (DynamicBufferConfig {
                rx_initial: 0,
                rx_max: 65536,
                tx_initial: 0,
                tx_max: 65536,
                grow_chunk: 4096,
            }),
    {
        DynamicBufferConfig {
            rx_initial: 0,
            rx_max: 64 * 1024,
            tx_initial: 0,
            tx_max: 64 * 1024,
            grow_chunk: 4 * 1024,
        }
    }
}

impl DynamicBufferConfig {
    /// The same sizes in both directions.
    pub fn symmetric(initial: u32, max: u32, grow_chunk: u32) -> (config: DynamicBufferConfig)
        ensures
            config == (DynamicBufferConfig {
                rx_initial: initial,
                rx_max: max,
                tx_initial: initial,
                tx_max: max,
                grow_chunk,
            }),
    {
        DynamicBufferConfig {
            rx_initial: initial,
            rx_max: max,
            tx_initial: initial,
            tx_max: max,
            grow_chunk,
        }
    }
}

/// `value`, or `limit` where that is less.
fn capped(value: u32, limit: u32) -> (r: u32)
    ensures
        r == lesser(value as int, limit as int),
{
    if value <= limit {
        value
    } else {
        limit
    }
}

impl DynamicBufferState {
    /// The state of a socket that follows `config` and is charged to `pool`, with nothing
    /// charged yet.
    pub fn new(config: DynamicBufferConfig, pool: Option<MemoryPool>) -> (state: DynamicBufferState)
        ensures
            state.wf(),
            state.rx_max == lesser(config.rx_max as int, PER_DIRECTION_CAP as int),
            state.tx_max == lesser(config.tx_max as int, PER_DIRECTION_CAP as int),
            state.rx_initial == lesser(config.rx_initial as int, state.rx_max as int),
            state.tx_initial == lesser(config.tx_initial as int, state.tx_max as int),
            state.grow_chunk == greater(
                1,
                lesser(config.grow_chunk as int, PER_DIRECTION_CAP as int),
            ),
            state.charged == 0,
            match (state.pool, pool) {
                (Some(handle), Some(pool)) => handle.pool() == pool,
                (None, None) => true,
                _ => false,
            },
            state.steps().len() == 0,
    {
        let rx_max: u32 = capped(config.rx_max, PER_DIRECTION_CAP);
        let tx_max: u32 = capped(config.tx_max, PER_DIRECTION_CAP);
        let grow_chunk: u32 = capped(config.grow_chunk, PER_DIRECTION_CAP);
        DynamicBufferState {
            rx_initial: capped(config.rx_initial, rx_max),
            tx_initial: capped(config.tx_initial, tx_max),
            rx_max,
            tx_max,
            grow_chunk: if grow_chunk == 0 {
                1
            } else {
                grow_chunk
            },
            charged: 0,
            pool: match pool {
                Some(pool) => Some(PoolHandle::new(pool)),
                None => None,
            },
        }
    }

    /// The most that the receive buffer can grow to.
    pub fn rx_capacity_max(&self) -> (max: usize)
        ensures
            max == self.rx_max,
    {
        self.rx_max as usize
    }

    /// The most that the transmit buffer can grow to.
    pub fn tx_capacity_max(&self) -> (max: usize)
        ensures
            max == self.tx_max,
    {
        self.tx_max as usize
    }

    /// Whether a receive window of `window` bytes calls for growth: it is smaller than a
    /// chunk, a segment of the peer, or a step of the window scale.
    pub fn should_grow_rx(&self, window: usize, remote_mss: usize, scale_granule: usize) -> (grow:
        bool)
        ensures
            grow == (window < self.grow_chunk || window < remote_mss || window < scale_granule),
    {
        window < largest(self.grow_chunk as usize, remote_mss, scale_granule)
    }

    /// Whether a transmit window of `window` bytes calls for growth.
    pub fn should_grow_tx(&self, window: usize) -> (grow: bool)
        ensures
            grow == (window < self.grow_chunk),
    {
        window < self.grow_chunk as usize
    }

    /// How much the next growth step adds.
    pub fn growth_increment_on(
        &self,
        books: &Option<PoolLedger>,
        current: usize,
        max: usize,
    ) -> (increment: Option<usize>)
        ensures
            increment == growth(*books, self.grow_chunk, current as int, max as int),
            increment matches Some(n) ==> 0 < n && current + n <= max,
    {
        let pressure = match books {
            Some(ledger) => ledger.under_pressure(),
            None => false,
        };
        let next: usize = next_capacity(current, self.grow_chunk as usize, max, pressure);
        if next > current {
            Some(next - current)
        } else {
            None
        }
    }

    /// Whether the transmit buffer, now of `current_capacity`, has a next growth step that
    /// the books have room for.
    pub fn can_grow_tx_on(&self, books: &Option<PoolLedger>, current_capacity: usize) -> (can: bool)
        ensures
            can == tx_growable(*books, *self, current_capacity as int),
    {
        match self.growth_increment_on(books, current_capacity, self.tx_capacity_max()) {
            Some(need) => match books {
                Some(ledger) => ledger.available() >= need,
                None => true,
            },
            None => false,
        }
    }

    /// Charges `bytes`, if the books have room. The result says whether they had.
    pub fn charge_on(&mut self, books: &mut Option<PoolLedger>, bytes: usize) -> (charged: bool)
        ensures
            charged == admits(*old(books), bytes),
            charged ==> *final(self) == old(self).charged_more(bytes) && *final(books)
                == books_charged(*old(books), bytes),
            !charged ==> *final(self) == *old(self) && *final(books) == *old(books),
    {
        if bytes == 0 {
            proof {
                assert(books_charged(*old(books), bytes) == *old(books));
            }
            return true;
        }
        if let Some(ledger) = *books {
            let mut ledger = ledger;
            if !ledger.try_charge(bytes) {
                return false;
            }
            *books = Some(ledger);
        }
        self.charged = self.charged.saturating_add(bytes);
        true
    }

    /// Gives `bytes`, or all that is charged where that is less, back.
    pub fn refund_on(&mut self, books: &mut Option<PoolLedger>, bytes: usize)
        ensures
            *final(self) == old(self).charged_less(bytes),
            *final(books) == books_refunded(*old(books), old(self).refundable(bytes)),
    {
        let bytes: usize = if bytes <= self.charged {
            bytes
        } else {
            self.charged
        };
        if let Some(ledger) = *books {
            let mut ledger = ledger;
            ledger.refund(bytes);
            *books = Some(ledger);
        }
        self.charged = self.charged - bytes;
    }

    /// Charges the next growth step of a buffer, now of capacity `current`, if there is one
    /// and the books have room for it. The result is the step that was charged.
    pub fn reserve_growth_on(
        &mut self,
        books: &mut Option<PoolLedger>,
        current: usize,
        max: usize,
    ) -> (need: Option<usize>)
        ensures
            need == growth_reserved(*old(books), *old(self), current as int, max as int),
            need matches Some(n) ==> 0 < n && current + n <= max && *final(self) == old(
                self,
            ).charged_more(n) && *final(books) == books_charged(*old(books), n),
            need is None ==> *final(self) == *old(self) && *final(books) == *old(books),
    {
        match self.growth_increment_on(books, current, max) {
            Some(need) => {
                if self.charge_on(books, need) {
                    Some(need)
                } else {
                    None
                }
            },
            None => None,
        }
    }

    /// Charges both initial allocations together, if the books have room. The result is the
    /// charge.
    pub fn reserve_initial_on(&mut self, books: &mut Option<PoolLedger>) -> (charge: Option<usize>)
        requires
            old(self).wf(),
        ensures
            charge == initial_reserved(*old(books), *old(self)),
            charge matches Some(n) ==> *final(self) == old(self).charged_more(n) && *final(books)
                == books_charged(*old(books), n),
            charge is None ==> *final(self) == *old(self) && *final(books) == *old(books),
    {
        match combined_initial_capacity(self.rx_initial as usize, self.tx_initial as usize) {
            Some(charge) => {
                if self.charge_on(books, charge) {
                    Some(charge)
                } else {
                    None
                }
            },
            None => None,
        }
    }
}

/// Allocates two buffers with `allocate`, or neither. The result says whether both could be
/// had; the second is not asked for where the first could not.
fn allocate_both<F: Fn(usize) -> Option<Vec<u8>>>(rx: usize, tx: usize, allocate: F) -> (result: (
    bool,
    (Vec<u8>, Vec<u8>),
))
    requires
        forall|capacity: usize| call_requires(allocate, (capacity,)),
    ensures
        both_allocated(rx, tx, allocate, result.0, result.1),
{
    if let Some(rx_storage) = allocate(rx) {
        if let Some(tx_storage) = allocate(tx) {
            return (true, (rx_storage, tx_storage));
        }
    }
    (false, (Vec::new(), Vec::new()))
}

/// Grows both buffers to their initial capacities, where those are not zero, or, where either
/// cannot grow, gives the storage of both back. The result says which.
fn restore_both(
    rx_initial: usize,
    tx_initial: usize,
    rx_buffer: &mut SocketBuffer,
    tx_buffer: &mut SocketBuffer,
) -> (restored: bool)
    requires
        old(rx_buffer).wf(),
        old(tx_buffer).wf(),
    ensures
        final(rx_buffer).wf(),
        final(tx_buffer).wf(),
        both_restored(
            rx_initial,
            tx_initial,
            old(rx_buffer)@,
            old(tx_buffer)@,
            restored,
            final(rx_buffer)@,
            final(tx_buffer)@,
        ),
{
    let restored = (rx_initial == 0 || rx_buffer.try_grow(rx_initial)) && (tx_initial == 0
        || tx_buffer.try_grow(tx_initial));
    if !restored {
        rx_buffer.release_owned();
        tx_buffer.release_owned();
    }
    restored
}

/// Whether the transmit buffer, now of capacity `current`, has a next growth step that what is
/// left of the budget covers.
pub open spec fn tx_growable(
    books: Option<PoolLedger>,
    state: DynamicBufferState,
    current: int,
) -> bool {
    match growth(books, state.grow_chunk, current, state.tx_max as int) {
        Some(need) => match books {
            Some(ledger) => ledger.unused() >= need,
            None => true,
        },
        None => false,
    }
}

/// The growth step that can be charged: the next one, where the books have room for it.
pub open spec fn growth_reserved(
    books: Option<PoolLedger>,
    state: DynamicBufferState,
    current: int,
    max: int,
) -> Option<usize> {
    match growth(books, state.grow_chunk, current, max) {
        Some(need) if admits(books, need) => Some(need),
        _ => None,
    }
}

/// The initial charge, where the books have room for it.
pub open spec fn initial_reserved(
    books: Option<PoolLedger>,
    state: DynamicBufferState,
) -> Option<usize> {
    if admits(books, state.initial_charge() as usize) {
        Some(state.initial_charge() as usize)
    } else {
        None
    }
}

/// The state once a charge of `bytes`, for which `request` was asked, was settled: it stands, or
/// it was given back.
pub open spec fn settled(
    before: DynamicBufferState,
    request: PoolStep,
    bytes: usize,
    allocated: bool,
) -> DynamicBufferState {
    let reserved = before.having_asked(request).charged_more(bytes);
    if allocated {
        reserved
    } else {
        reserved.given_back(bytes)
    }
}

/// A charge that was given back leaves the socket as it was but for what was asked of the pool:
/// the charge, and then the refund of as much. One that stands is all that was asked for.
pub proof fn law_settling_asks_for_no_more(
    before: DynamicBufferState,
    request: PoolStep,
    bytes: usize,
    allocated: bool,
)
    requires
        before.charged + bytes <= usize::MAX,
    ensures
        ({
            let after = settled(before, request, bytes, allocated);
            let standing = if allocated {
                before.charged_more(bytes)
            } else {
                before
            };
            &&& after.alike(standing)
            &&& before.pool is Some ==> after.steps() == if allocated || bytes == 0 {
                before.steps().push(request)
            } else {
                before.steps().push(request).push(PoolStep::Refund(bytes))
            }
        }),
{
    let reserved = before.having_asked(request).charged_more(bytes);
    law_asking_changes_only_the_account(before, request);
    law_asking_changes_only_the_account(reserved, PoolStep::Refund(bytes));
}

/// Whether a growth step of a buffer can end like this, when `books` are what it is charged
/// to: nothing happens where there is no step to take or no room for it, though the pool was
/// asked; otherwise the step is charged and the capacity added, or, where the storage cannot grow,
/// the charge is taken back and the buffer is as it was.
pub open spec fn grow_step(
    before: DynamicBufferState,
    books: Option<PoolLedger>,
    buffer: BufferView,
    max: int,
    grown: bool,
    after: DynamicBufferState,
    buffer_after: BufferView,
) -> bool {
    match growth_reserved(books, before, buffer.capacity as int, max) {
        Some(need) => {
            &&& after == settled(before, before.growth_request(buffer.capacity, max), need, grown)
            &&& grown ==> buffer.owned && buffer_after == (BufferView {
                capacity: buffer.capacity + need as nat,
                ..buffer
            })
            &&& !grown ==> {
                &&& buffer_after == buffer
                &&& ring_buffer::growth_refused(buffer, (buffer.capacity + need) as usize)
                &&& gave_back(before.pool, before.charged_more(need).refundable(need))
            }
        },
        None => {
            &&& !grown
            &&& after == before.having_asked(before.growth_request(buffer.capacity, max))
            &&& buffer_after == buffer
        },
    }
}

/// Whether `allocate` can have given `storage`: what it gave for the receive and for the transmit
/// buffer, or, where it failed for the receive buffer, or gave that and then failed for the
/// transmit buffer, both empty.
pub open spec fn both_allocated<F: Fn(usize) -> Option<Vec<u8>>>(
    rx: usize,
    tx: usize,
    allocate: F,
    allocated: bool,
    storage: (Vec<u8>, Vec<u8>),
) -> bool {
    if allocated {
        &&& call_ensures(allocate, (rx,), Some(storage.0))
        &&& call_ensures(allocate, (tx,), Some(storage.1))
    } else {
        &&& call_ensures(allocate, (rx,), None) || exists|had: Vec<u8>| #[trigger]
            call_ensures(allocate, (rx,), Some(had)) && call_ensures(allocate, (tx,), None)
        &&& storage.0@.len() == 0
        &&& storage.1@.len() == 0
    }
}

/// Whether the initial allocation can end like this, when `books` are what it is charged to:
/// with both buffers and their charge, or with neither.
pub open spec fn initial_step<F: Fn(usize) -> Option<Vec<u8>>>(
    before: DynamicBufferState,
    books: Option<PoolLedger>,
    allocate: F,
    allocated: bool,
    storage: (Vec<u8>, Vec<u8>),
    after: DynamicBufferState,
) -> bool {
    match initial_reserved(books, before) {
        Some(charge) => {
            &&& both_allocated(
                before.rx_initial as usize,
                before.tx_initial as usize,
                allocate,
                allocated,
                storage,
            )
            &&& after == settled(before, before.initial_request(), charge, allocated)
            &&& !allocated ==> gave_back(
                before.pool,
                before.charged_more(charge).refundable(charge),
            )
        },
        None => {
            &&& !allocated
            &&& storage.0@.len() == 0
            &&& storage.1@.len() == 0
            &&& after == before.having_asked(before.initial_request())
        },
    }
}

/// Whether both of `storage` are zeroed and as long as asked for, or both are empty.
pub open spec fn zeroed_or_empty(storage: (Vec<u8>, Vec<u8>), rx: u32, tx: u32) -> bool {
    ||| storage.0@.len() == 0 && storage.1@.len() == 0
    ||| {
        &&& storage.0@ == Seq::new(rx as nat, |i: int| 0u8)
        &&& storage.1@ == Seq::new(tx as nat, |i: int| 0u8)
    }
}

/// Whether `after` is `buffer` grown to the initial capacity `initial`, where there is one.
pub open spec fn restored_to(buffer: BufferView, initial: usize, after: BufferView) -> bool {
    if initial == 0 {
        after == buffer
    } else {
        &&& buffer.owned
        &&& buffer.capacity < initial
        &&& after == (BufferView { capacity: initial as nat, ..buffer })
    }
}

/// Whether `buffer` cannot be grown to the initial capacity `initial`: there is one, and its
/// storage is lent, or as large already, or there is none to be had.
pub open spec fn cannot_restore(buffer: BufferView, initial: usize) -> bool {
    initial > 0 && ring_buffer::growth_refused(buffer, initial)
}

/// Whether both buffers were grown to their initial capacities, or, where either cannot be,
/// both gave their storage back.
pub open spec fn both_restored(
    rx_initial: usize,
    tx_initial: usize,
    rx: BufferView,
    tx: BufferView,
    restored: bool,
    rx_after: BufferView,
    tx_after: BufferView,
) -> bool {
    if restored {
        &&& restored_to(rx, rx_initial, rx_after)
        &&& restored_to(tx, tx_initial, tx_after)
    } else {
        &&& cannot_restore(rx, rx_initial) || cannot_restore(tx, tx_initial)
        &&& rx_after == ring_buffer::released(rx)
        &&& tx_after == ring_buffer::released(tx)
    }
}

/// Whether a restoration of the initial capacities can end like this, when `books` are what it
/// is charged to: nothing happens where there is nothing to restore or no room for it, though in
/// the latter case the pool was asked; otherwise both buffers have their initial capacity and are charged for it, or neither has
/// storage and the charge is taken back.
pub open spec fn restore_step(
    before: DynamicBufferState,
    books: Option<PoolLedger>,
    rx: BufferView,
    tx: BufferView,
    restored: bool,
    after: DynamicBufferState,
    rx_after: BufferView,
    tx_after: BufferView,
) -> bool {
    match initial_reserved(books, before) {
        Some(charge) if charge > 0 => {
            &&& both_restored(
                before.rx_initial as usize,
                before.tx_initial as usize,
                rx,
                tx,
                restored,
                rx_after,
                tx_after,
            )
            &&& after == settled(before, before.initial_request(), charge, restored)
            &&& !restored ==> gave_back(before.pool, before.charged_more(charge).refundable(charge))
        },
        _ => {
            &&& !restored
            &&& after == if before.initial_charge() > 0 {
                before.having_asked(before.initial_request())
            } else {
                before
            }
            &&& rx_after == rx
            &&& tx_after == tx
        },
    }
}

impl DynamicBufferState {
    /// A copy of the books of the socket's pool, as they stand.
    fn books(&self) -> (books: Option<PoolLedger>)
        ensures
            shown(self.pool, books),
    {
        match &self.pool {
            Some(handle) => Some(handle.ledger()),
            None => None,
        }
    }

    /// Asks the socket's pool, where there is one, to take a step. The result is the books as
    /// they were before it.
    fn ask(&mut self, step: PoolStep) -> (books: Option<PoolLedger>)
        ensures
            asked(old(self).pool, step, books),
            *final(self) == old(self).having_asked(step),
    {
        match &mut self.pool {
            Some(handle) => Some(handle.ask(step)),
            None => None,
        }
    }

    /// How much the next growth step adds.
    pub fn growth_increment(&self, current: usize, max: usize) -> (increment: Option<usize>)
        ensures
            exists|books: Option<PoolLedger>| #[trigger]
                shown(self.pool, books) && increment == growth(
                    books,
                    self.grow_chunk,
                    current as int,
                    max as int,
                ),
    {
        let books = self.books();
        self.growth_increment_on(&books, current, max)
    }

    /// Whether the transmit buffer, now of `current_capacity`, has a next growth step that
    /// the pool has room for.
    pub fn can_grow_tx(&self, current_capacity: usize) -> (can: bool)
        ensures
            exists|books: Option<PoolLedger>| #[trigger]
                shown(self.pool, books) && can == tx_growable(
                    books,
                    *self,
                    current_capacity as int,
                ),
    {
        let books = self.books();
        self.can_grow_tx_on(&books, current_capacity)
    }

    /// Charges `bytes`, if the pool has room. The result says whether it had.
    pub fn charge(&mut self, bytes: usize) -> (charged: bool)
        ensures
            exists|books: Option<PoolLedger>| #[trigger]
                asked(old(self).pool, PoolStep::Charge(bytes), books) && charged == admits(
                    books,
                    bytes,
                ),
            *final(self) == if charged {
                old(self).having_asked(PoolStep::Charge(bytes)).charged_more(bytes)
            } else {
                old(self).having_asked(PoolStep::Charge(bytes))
            },
    {
        let mut books = self.ask(PoolStep::Charge(bytes));
        assert(asked(old(self).pool, PoolStep::Charge(bytes), books));
        self.charge_on(&mut books, bytes)
    }

    /// Gives `bytes`, or all that is charged where that is less, back.
    pub fn refund(&mut self, bytes: usize)
        ensures
            *final(self) == old(self).given_back(bytes),
            final(self).charged == old(self).charged - old(self).refundable(bytes),
            gave_back(old(self).pool, old(self).refundable(bytes)),
    {
        let bytes: usize = if bytes <= self.charged {
            bytes
        } else {
            self.charged
        };
        if bytes > 0 {
            let mut books = self.ask(PoolStep::Refund(bytes));
            assert(asked(old(self).pool, PoolStep::Refund(bytes), books));
            self.refund_on(&mut books, bytes);
        }
    }

    /// Charges the next growth step of a buffer, now of capacity `current`, if there is one
    /// and the pool has room for it. The result is the step that was charged.
    fn reserve_growth(&mut self, current: usize, max: usize) -> (need: Option<usize>)
        ensures
            exists|books: Option<PoolLedger>| #[trigger]
                asked(old(self).pool, old(self).growth_request(current as nat, max as int), books)
                    && need == growth_reserved(books, *old(self), current as int, max as int),
            need matches Some(n) ==> 0 < n && current + n <= max,
            ({
                let asked = old(self).having_asked(
                    old(self).growth_request(current as nat, max as int),
                );
                *final(self) == match need {
                    Some(n) => asked.charged_more(n),
                    None => asked,
                }
            }),
    {
        let mut books = self.ask(PoolStep::Grow { chunk: self.grow_chunk, current, max });
        assert(asked(old(self).pool, old(self).growth_request(current as nat, max as int), books));
        self.reserve_growth_on(&mut books, current, max)
    }

    /// Charges both initial allocations together, if the pool has room. The result is the
    /// charge.
    fn reserve_initial(&mut self) -> (charge: Option<usize>)
        requires
            old(self).wf(),
        ensures
            exists|books: Option<PoolLedger>| #[trigger]
                asked(old(self).pool, old(self).initial_request(), books) && charge
                    == initial_reserved(books, *old(self)),
            ({
                let asked = old(self).having_asked(old(self).initial_request());
                *final(self) == match charge {
                    Some(n) => asked.charged_more(n),
                    None => asked,
                }
            }),
    {
        match combined_initial_capacity(self.rx_initial as usize, self.tx_initial as usize) {
            Some(charge) => {
                let mut books = self.ask(PoolStep::Charge(charge));
                assert(asked(old(self).pool, old(self).initial_request(), books));
                self.reserve_initial_on(&mut books)
            },
            None => None,
        }
    }

    /// Settles a charge of `bytes`: where the storage for it was not allocated, the charge is
    /// given back.
    fn settle(&mut self, bytes: usize, allocated: bool)
        ensures
            *final(self) == if allocated {
                *old(self)
            } else {
                old(self).given_back(bytes)
            },
            !allocated ==> gave_back(old(self).pool, old(self).refundable(bytes)),
    {
        if !allocated {
            self.refund(bytes);
        }
    }

    /// Grows a buffer by one step, no further than `max`. The result says whether it grew.
    pub fn try_grow_buffer(&mut self, buffer: &mut SocketBuffer, max: usize) -> (grown: bool)
        requires
            old(buffer).wf(),
        ensures
            final(buffer).wf(),
            exists|books: Option<PoolLedger>|
                asked(
                    old(self).pool,
                    old(self).growth_request(old(buffer)@.capacity, max as int),
                    books,
                ) && #[trigger] grow_step(
                    *old(self),
                    books,
                    old(buffer)@,
                    max as int,
                    grown,
                    *final(self),
                    final(buffer)@,
                ),
    {
        let current: usize = buffer.capacity();
        let reserved = self.reserve_growth(current, max);
        let ghost books = choose|books: Option<PoolLedger>| #[trigger]
            asked(old(self).pool, old(self).growth_request(current as nat, max as int), books)
                && reserved == growth_reserved(
                books,
                *old(self),
                current as int,
                max as int,
            );
        let grown = match reserved {
            Some(need) => {
                let grown = buffer.try_grow(current + need);
                self.settle(need, grown);
                proof {
                    if !grown {
                        lemma_gave_back_to_the_same(
                            *old(self),
                            old(self).growth_request(current as nat, max as int),
                            old(self).charged_more(need).refundable(need),
                        );
                    }
                }
                grown
            },
            None => false,
        };
        assert(grow_step(
            *old(self),
            books,
            old(buffer)@,
            max as int,
            grown,
            *self,
            buffer@,
        ));
        grown
    }

    /// Grows the receive buffer by one step. The result says whether it grew.
    pub fn try_grow_rx(&mut self, buffer: &mut SocketBuffer) -> (grown: bool)
        requires
            old(buffer).wf(),
        ensures
            final(buffer).wf(),
            exists|books: Option<PoolLedger>|
                asked(
                    old(self).pool,
                    old(self).growth_request(old(buffer)@.capacity, old(self).rx_max as int),
                    books,
                ) && #[trigger] grow_step(
                    *old(self),
                    books,
                    old(buffer)@,
                    old(self).rx_max as int,
                    grown,
                    *final(self),
                    final(buffer)@,
                ),
    {
        let max: usize = self.rx_capacity_max();
        self.try_grow_buffer(buffer, max)
    }

    /// Grows the transmit buffer by one step. The result says whether it grew.
    pub fn try_grow_tx(&mut self, buffer: &mut SocketBuffer) -> (grown: bool)
        requires
            old(buffer).wf(),
        ensures
            final(buffer).wf(),
            exists|books: Option<PoolLedger>|
                asked(
                    old(self).pool,
                    old(self).growth_request(old(buffer)@.capacity, old(self).tx_max as int),
                    books,
                ) && #[trigger] grow_step(
                    *old(self),
                    books,
                    old(buffer)@,
                    old(self).tx_max as int,
                    grown,
                    *final(self),
                    final(buffer)@,
                ),
    {
        let max: usize = self.tx_capacity_max();
        self.try_grow_buffer(buffer, max)
    }

    /// Allocates both initial buffers with `allocate`, or neither.
    pub fn allocate_initial_with<F: Fn(usize) -> Option<Vec<u8>>>(&mut self, allocate: F) -> (
    storage: (Vec<u8>, Vec<u8>))
        requires
            forall|capacity: usize| call_requires(allocate, (capacity,)),
            old(self).wf(),
        ensures
            exists|books: Option<PoolLedger>, allocated: bool|
                asked(old(self).pool, old(self).initial_request(), books)
                    && #[trigger] initial_step(
                    *old(self),
                    books,
                    allocate,
                    allocated,
                    storage,
                    *final(self),
                ),
            old(self).pool is Some ==> {
                let charge = old(self).initial_charge() as usize;
                let charged = old(self).steps().push(PoolStep::Charge(charge));
                ||| final(self).steps() == charged
                ||| final(self).steps() == charged.push(PoolStep::Refund(charge))
            },
    {
        let reserved = self.reserve_initial();
        let ghost books = choose|books: Option<PoolLedger>| #[trigger]
            asked(old(self).pool, old(self).initial_request(), books) && reserved
                == initial_reserved(books, *old(self));
        let (allocated, storage) = match reserved {
            Some(charge) => {
                let (allocated, storage) = allocate_both(
                    self.rx_initial as usize,
                    self.tx_initial as usize,
                    allocate,
                );
                self.settle(charge, allocated);
                proof {
                    if !allocated {
                        lemma_gave_back_to_the_same(
                            *old(self),
                            old(self).initial_request(),
                            old(self).charged_more(charge).refundable(charge),
                        );
                    }
                }
                (allocated, storage)
            },
            None => (false, (Vec::new(), Vec::new())),
        };
        assert(initial_step(*old(self), books, allocate, allocated, storage, *self));
        proof {
            let asked = old(self).having_asked(old(self).initial_request());
            let charge = old(self).initial_charge() as usize;
            law_asking_changes_only_the_account(*old(self), old(self).initial_request());
            law_asking_changes_only_the_account(
                asked.charged_more(charge),
                PoolStep::Refund(charge),
            );
        }
        storage
    }

    /// Allocates both initial buffers, zeroed, or neither.
    pub fn allocate_initial(&mut self) -> (storage: (Vec<u8>, Vec<u8>))
        requires
            old(self).wf(),
        ensures
            exists|books: Option<PoolLedger>, allocated: bool|
                asked(old(self).pool, old(self).initial_request(), books)
                    && #[trigger] initial_step(
                    *old(self),
                    books,
                    try_zeroed_socket_storage,
                    allocated,
                    storage,
                    *final(self),
                ),
            zeroed_or_empty(storage, old(self).rx_initial, old(self).tx_initial),
            old(self).pool is Some ==> {
                let charge = old(self).initial_charge() as usize;
                let charged = old(self).steps().push(PoolStep::Charge(charge));
                ||| final(self).steps() == charged
                ||| final(self).steps() == charged.push(PoolStep::Refund(charge))
            },
    {
        self.allocate_initial_with(try_zeroed_socket_storage)
    }

    /// Gives both buffers, which have no storage, their initial capacity again, or neither.
    pub fn restore_initial(&mut self, rx_buffer: &mut SocketBuffer, tx_buffer: &mut SocketBuffer)
        requires
            old(self).wf(),
            old(rx_buffer).wf(),
            old(tx_buffer).wf(),
        ensures
            final(rx_buffer).wf(),
            final(tx_buffer).wf(),
            exists|books: Option<PoolLedger>, restored: bool|
                (old(self).initial_charge() > 0 ==> asked(
                    old(self).pool,
                    old(self).initial_request(),
                    books,
                )) && #[trigger] restore_step(
                    *old(self),
                    books,
                    old(rx_buffer)@,
                    old(tx_buffer)@,
                    restored,
                    *final(self),
                    final(rx_buffer)@,
                    final(tx_buffer)@,
                ),
    {
        let ghost mut books: Option<PoolLedger> = None;
        let mut restored = false;
        if self.rx_initial != 0 || self.tx_initial != 0 {
            let reserved = self.reserve_initial();
            proof {
                books =
                choose|books: Option<PoolLedger>| #[trigger]
                    asked(old(self).pool, old(self).initial_request(), books) && reserved
                        == initial_reserved(books, *old(self));
            }
            if let Some(charge) = reserved {
                restored =
                restore_both(
                    self.rx_initial as usize,
                    self.tx_initial as usize,
                    rx_buffer,
                    tx_buffer,
                );
                self.settle(charge, restored);
                proof {
                    if !restored {
                        lemma_gave_back_to_the_same(
                            *old(self),
                            old(self).initial_request(),
                            old(self).charged_more(charge).refundable(charge),
                        );
                    }
                }
            }
        }
        assert(restore_step(
            *old(self),
            books,
            old(rx_buffer)@,
            old(tx_buffer)@,
            restored,
            *self,
            rx_buffer@,
            tx_buffer@,
        ));
    }

    /// Gives the storage of both buffers back, and with it all that is charged.
    pub fn release(&mut self, rx_buffer: &mut SocketBuffer, tx_buffer: &mut SocketBuffer)
        requires
            old(rx_buffer).wf(),
            old(tx_buffer).wf(),
        ensures
            final(rx_buffer).wf(),
            final(tx_buffer).wf(),
            final(rx_buffer)@ == ring_buffer::released(old(rx_buffer)@),
            final(tx_buffer)@ == ring_buffer::released(old(tx_buffer)@),
            *final(self) == old(self).given_back(old(self).charged),
            final(self).charged == 0,
            final(self).alike((DynamicBufferState { charged: 0, ..*old(self) })),
            gave_back(old(self).pool, old(self).charged),
    {
        rx_buffer.release_owned();
        tx_buffer.release_owned();
        let charged: usize = self.charged;
        self.refund(charged);
        proof {
            law_asking_changes_only_the_account(*old(self), PoolStep::Refund(charged));
        }
    }

    /// Gives the storage of the transmit buffer back, and its capacity with it.
    pub fn release_tx(&mut self, tx_buffer: &mut SocketBuffer)
        requires
            old(tx_buffer).wf(),
        ensures
            final(tx_buffer).wf(),
            final(tx_buffer)@ == ring_buffer::released(old(tx_buffer)@),
            *final(self) == old(self).given_back(old(tx_buffer)@.capacity as usize),
            final(self).alike(old(self).charged_less(old(tx_buffer)@.capacity as usize)),
            gave_back(old(self).pool, old(self).refundable(old(tx_buffer)@.capacity as usize)),
    {
        let capacity: usize = tx_buffer.capacity();
        tx_buffer.release_owned();
        self.refund(capacity);
        proof {
            let bytes = old(self).refundable(capacity);
            law_asking_changes_only_the_account(*old(self), PoolStep::Refund(bytes));
        }
    }

    /// Gives all that is charged back. A socket that goes away without a release does this
    /// last.
    pub fn close(&mut self)
        ensures
            *final(self) == old(self).given_back(old(self).charged),
            final(self).charged == 0,
            final(self).alike((DynamicBufferState { charged: 0, ..*old(self) })),
            gave_back(old(self).pool, old(self).charged),
    {
        let charged: usize = self.charged;
        self.refund(charged);
        proof {
            law_asking_changes_only_the_account(*old(self), PoolStep::Refund(charged));
        }
    }
}

} // verus!
