//! A memory budget that sockets share.
use std::sync::Arc;

use vstd::prelude::*;
use vstd::rwlock::{ReadHandle, RwLock, RwLockPredicate, WriteHandle};

use crate::tcp::dynbuf::{self, next_capacity};

verus! {

/// What a pool can be asked to do to its books.
#[derive(Debug, Clone, Copy, PartialEq, Eq, Structural)]
pub enum PoolStep {
    /// Charge so many bytes, if the budget has room.
    Charge(usize),
    /// Give so many bytes, or all that is charged where that is less, back.
    Refund(usize),
    /// Charge the next growth step, if there is one and the budget has room, of a buffer that
    /// is now of capacity `current`.
    Grow { chunk: u32, current: usize, max: usize },
}

/// The books of a pool: how much may be charged in all, from where on growth is throttled,
/// and how much is charged.
#[derive(Debug, Clone, Copy, PartialEq, Eq, Structural)]
pub struct PoolLedger {
    pub budget: usize,
    pub pressure_threshold: usize,
    pub used: usize,
}

impl PoolLedger {
    /// The throttle threshold is three quarters of the budget, and no more is charged than the
    /// budget.
    pub open spec fn wf(self) -> bool {
        &&& self.pressure_threshold == self.budget / 4 * 3
        &&& self.used <= self.budget
    }

    /// Whether `bytes` can be charged: nothing always can.
    pub open spec fn admits(self, bytes: usize) -> bool {
        bytes == 0 || self.used + bytes <= self.budget
    }

    /// The books once `bytes` are charged.
    pub open spec fn charged(self, bytes: usize) -> PoolLedger {
        PoolLedger { used: (self.used + bytes) as usize, ..self }
    }

    /// The books once `bytes`, or all that is charged where that is less, are given back.
    pub open spec fn refunded(self, bytes: usize) -> PoolLedger {
        PoolLedger {
            used: if bytes <= self.used {
                (self.used - bytes) as usize
            } else {
                0
            },
            ..self
        }
    }

    /// The books once `step` was taken.
    pub open spec fn after(self, step: PoolStep) -> PoolLedger {
        match step {
            PoolStep::Charge(bytes) => if self.admits(bytes) {
                self.charged(bytes)
            } else {
                self
            },
            PoolStep::Refund(bytes) => self.refunded(bytes),
            PoolStep::Grow { chunk, current, max } => {
                match dynbuf::growth(Some(self), chunk, current as int, max as int) {
                    Some(need) if self.admits(need) => self.charged(need),
                    _ => self,
                }
            },
        }
    }

    /// How much of the budget is left.
    pub open spec fn unused(self) -> int {
        if self.used <= self.budget {
            self.budget - self.used
        } else {
            0
        }
    }

    /// Empty books for a budget.
    pub fn new(budget: usize) -> (ledger: PoolLedger)
        ensures
            ledger.wf(),
            ledger.budget == budget,
            ledger.used == 0,
    {
        PoolLedger { budget, pressure_threshold: budget / 4 * 3, used: 0 }
    }

    /// How much of the budget is left.
    pub fn available(&self) -> (bytes: usize)
        ensures
            bytes == self.unused(),
    {
        self.budget.saturating_sub(self.used)
    }

    /// Charges `bytes`, if the budget has room. The result says whether it had.
    pub fn try_charge(&mut self, bytes: usize) -> (charged: bool)
        ensures
            charged == old(self).admits(bytes),
            *final(self) == if charged {
                old(self).charged(bytes)
            } else {
                *old(self)
            },
    {
        if bytes == 0 {
            return true;
        }
        match self.used.checked_add(bytes) {
            Some(next) => {
                if next <= self.budget {
                    self.used = next;
                    true
                } else {
                    false
                }
            },
            None => false,
        }
    }

    /// Gives `bytes`, or all that is charged where that is less, back.
    pub fn refund(&mut self, bytes: usize)
        ensures
            *final(self) == old(self).refunded(bytes),
    {
        self.used = self.used.saturating_sub(bytes);
    }

    /// Whether growth is throttled.
    pub fn under_pressure(&self) -> (pressed: bool)
        ensures
            pressed == (self.used >= self.pressure_threshold),
    {
        self.used >= self.pressure_threshold
    }

    /// Takes a step.
    pub fn take(&mut self, step: PoolStep)
        ensures
            *final(self) == old(self).after(step),
    {
        match step {
            PoolStep::Charge(bytes) => {
                let _ = self.try_charge(bytes);
            },
            PoolStep::Refund(bytes) => self.refund(bytes),
            PoolStep::Grow { chunk, current, max } => {
                let next: usize = next_capacity(
                    current,
                    chunk as usize,
                    max,
                    self.under_pressure(),
                );
                if next > current {
                    let _ = self.try_charge(next - current);
                }
            },
        }
    }
}

/// What every state of a pool's books has in common.
pub struct PoolInvariant {
    pub budget: usize,
}

impl RwLockPredicate<PoolLedger> for PoolInvariant {
    open spec fn inv(self, ledger: PoolLedger) -> bool {
        ledger.wf() && ledger.budget == self.budget
    }
}

/// A shared, bounded memory budget for socket buffers. All clones keep the same books.
pub struct MemoryPool {
    inner: Arc<RwLock<PoolLedger, PoolInvariant>>,
}

/// Another handle to the same books, by `Arc::clone`: what it points to is what the first
/// handle points to.
#[verifier::external_body]
fn share(inner: &Arc<RwLock<PoolLedger, PoolInvariant>>) -> (other: Arc<
    RwLock<PoolLedger, PoolInvariant>,
>)
    ensures
        other == *inner,
{
    Arc::clone(inner)
}

impl Clone for MemoryPool {
    fn clone(&self) -> (other: MemoryPool)
        ensures
            other == *self,
    {
        MemoryPool { inner: share(&self.inner) }
    }
}

impl MemoryPool {
    /// The budget of the pool.
    pub closed spec fn spec_budget(&self) -> usize {
        self.inner.pred().budget
    }

    /// Whether `ledger` is a state that the books of this pool can be in.
    pub open spec fn keeps(&self, ledger: PoolLedger) -> bool {
        ledger.wf() && ledger.budget == self.spec_budget()
    }

    /// A pool of which nothing is charged.
    ///
    /// `budget` is the most that the receive and transmit capacities of all sockets that
    /// share the pool can add up to.
    pub fn new(budget: usize) -> (pool: MemoryPool)
        ensures
            pool.spec_budget() == budget,
            pool.opened_with(
                PoolLedger { budget, pressure_threshold: (budget / 4 * 3) as usize, used: 0 },
            ),
    {
        let ledger = PoolLedger::new(budget);
        MemoryPool { inner: Arc::new(RwLock::new(ledger, Ghost(PoolInvariant { budget }))) }
    }

    /// Whether `ledger` is what the books of this pool were when it was made: its lock was made
    /// over them.
    pub closed spec fn opened_with(&self, ledger: PoolLedger) -> bool {
        call_ensures(
            RwLock::<PoolLedger, PoolInvariant>::new,
            (ledger, Ghost(PoolInvariant { budget: ledger.budget })),
            *self.inner,
        )
    }

    /// Whether `ledger` is what the pool's lock gave when it was taken to read the books, with
    /// `handle`.
    pub closed spec fn read_by(
        &self,
        handle: ReadHandle<'_, PoolLedger, PoolInvariant>,
        ledger: PoolLedger,
    ) -> bool {
        &&& handle.view() == ledger
        &&& call_ensures(
            RwLock::<PoolLedger, PoolInvariant>::acquire_read,
            (&*self.inner,),
            handle,
        )
    }

    /// Whether `before` is what the pool's lock gave when it was taken to change the books, with
    /// `handle`, and `after` is what was put back.
    pub closed spec fn wrote_by(
        &self,
        handle: WriteHandle<'_, PoolLedger, PoolInvariant>,
        before: PoolLedger,
        after: PoolLedger,
    ) -> bool {
        &&& handle.rwlock() == *self.inner
        &&& call_ensures(
            RwLock::<PoolLedger, PoolInvariant>::acquire_write,
            (&*self.inner,),
            (before, handle),
        )
        &&& call_ensures(
            WriteHandle::<PoolLedger, PoolInvariant>::release_write,
            (handle, after),
            (),
        )
    }

    /// A copy of the books as they stand: what the lock gives to read.
    pub fn ledger(&self) -> (ledger: PoolLedger)
        ensures
            self.keeps(ledger),
            exists|handle: ReadHandle<'_, PoolLedger, PoolInvariant>| #[trigger]
                self.read_by(handle, ledger),
    {
        let handle = self.inner.acquire_read();
        let ghost given = handle;
        let ledger = *handle.borrow();
        handle.release_read();
        assert(self.read_by(given, ledger));
        ledger
    }

    /// Whether the pool was asked for its books, and they were `ledger` when it was.
    pub open spec fn shown(self, ledger: PoolLedger) -> bool {
        &&& self.keeps(ledger)
        &&& call_ensures(MemoryPool::ledger, (&self,), ledger)
    }

    /// Takes a step on the books, which nobody else reads or changes meanwhile: what the lock
    /// gives is put back with the step taken. The result is the books as they were before it.
    pub fn apply(&self, step: PoolStep) -> (before: PoolLedger)
        ensures
            self.keeps(before),
            exists|handle: WriteHandle<'_, PoolLedger, PoolInvariant>| #[trigger]
                self.wrote_by(handle, before, before.after(step)),
    {
        let (before, handle) = self.inner.acquire_write();
        let ghost given = handle;
        let mut ledger = before;
        ledger.take(step);
        handle.release_write(ledger);
        assert(self.wrote_by(given, before, before.after(step)));
        before
    }

    /// Whether the pool was asked to take `step`, and its books were `before` when it was.
    pub open spec fn asked(self, step: PoolStep, before: PoolLedger) -> bool {
        &&& self.keeps(before)
        &&& call_ensures(MemoryPool::apply, (&self, step), before)
    }

    /// The budget of the pool.
    pub fn budget(&self) -> (budget: usize)
        ensures
            budget == self.spec_budget(),
    {
        self.ledger().budget
    }

    /// How much is charged by all sockets: never more than the budget.
    pub fn used(&self) -> (used: usize)
        ensures
            used <= self.spec_budget(),
            exists|ledger: PoolLedger| #[trigger] self.shown(ledger) && used == ledger.used,
    {
        let ledger = self.ledger();
        assert(self.shown(ledger));
        ledger.used
    }

    /// How much of the budget is left.
    pub fn available(&self) -> (bytes: usize)
        ensures
            bytes <= self.spec_budget(),
            exists|ledger: PoolLedger| #[trigger]
                self.shown(ledger) && bytes == ledger.budget - ledger.used,
    {
        let ledger = self.ledger();
        assert(self.shown(ledger));
        ledger.available()
    }

    /// Charges `bytes`, if the budget has room. The result says whether it had.
    pub fn try_charge(&self, bytes: usize) -> (charged: bool)
        ensures
            exists|before: PoolLedger| #[trigger]
                self.asked(PoolStep::Charge(bytes), before) && charged == before.admits(bytes),
    {
        let mut ledger = self.apply(PoolStep::Charge(bytes));
        assert(self.asked(PoolStep::Charge(bytes), ledger));
        ledger.try_charge(bytes)
    }

    /// Gives `bytes`, or all that is charged where that is less, back.
    pub fn refund(&self, bytes: usize)
        ensures
            exists|before: PoolLedger| #[trigger] self.asked(PoolStep::Refund(bytes), before),
    {
        let before = self.apply(PoolStep::Refund(bytes));
        assert(self.asked(PoolStep::Refund(bytes), before));
    }

    /// Whether growth is throttled.
    pub fn under_pressure(&self) -> (pressed: bool)
        ensures
            exists|ledger: PoolLedger| #[trigger]
                self.shown(ledger) && pressed == (ledger.used >= ledger.pressure_threshold),
    {
        let ledger = self.ledger();
        assert(self.shown(ledger));
        ledger.under_pressure()
    }
}

} // verus!
