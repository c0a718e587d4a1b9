//! A socket's handle to its memory pool, which keeps account of what was asked through it.
use vstd::prelude::*;

use crate::tcp::pool::{MemoryPool, PoolLedger, PoolStep};

verus! {

/// A handle to a pool. The pool cannot be reached through it but by asking for a step, of which
/// the handle keeps account, or by reading the books.
pub struct PoolHandle {
    pool: MemoryPool,
    log: Ghost<Seq<PoolStep>>,
}

impl PoolHandle {
    /// The pool.
    pub closed spec fn pool(self) -> MemoryPool {
        self.pool
    }

    /// Every step that was asked for through the handle, in order.
    pub closed spec fn steps(self) -> Seq<PoolStep> {
        self.log@
    }

    /// The handle once `step` was asked for through it.
    pub closed spec fn having_asked(self, step: PoolStep) -> PoolHandle {
        PoolHandle { log: Ghost(self.log@.push(step)), ..self }
    }

    /// A handle to `pool`, through which nothing was asked for.
    pub fn new(pool: MemoryPool) -> (handle: PoolHandle)
        ensures
            handle.pool() == pool,
            handle.steps() == Seq::<PoolStep>::empty(),
    {
        PoolHandle { pool, log: Ghost(Seq::empty()) }
    }

    /// Asks the pool to take a step. The result is the books as they were before it.
    pub fn ask(&mut self, step: PoolStep) -> (before: PoolLedger)
        ensures
            old(self).pool().asked(step, before),
            *final(self) == old(self).having_asked(step),
            final(self).pool() == old(self).pool(),
            final(self).steps() == old(self).steps().push(step),
    {
        let before = self.pool.apply(step);
        self.log = Ghost(self.log@.push(step));
        before
    }

    /// A copy of the pool's books, as they stand.
    pub fn ledger(&self) -> (ledger: PoolLedger)
        ensures
            self.pool().shown(ledger),
    {
        self.pool.ledger()
    }
}

/// Asking for a step adds that step to the account, and leaves the pool and the rest of the
/// account as they were. Handles differ by nothing else.
pub proof fn law_asking_is_accounted_for(handle: PoolHandle, other: PoolHandle, step: PoolStep)
    ensures
        handle.having_asked(step).pool() == handle.pool(),
        handle.having_asked(step).steps() == handle.steps().push(step),
        handle.pool() == other.pool() && handle.steps() == other.steps() ==> handle == other,
{
}

} // verus!
