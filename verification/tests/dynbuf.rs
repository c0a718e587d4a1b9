use std::cell::Cell;

use smolnet::storage::ring_buffer::{try_zeroed_socket_storage, zeroed, SocketBuffer};
use smolnet::tcp::dynbuf::{
    combined_initial_capacity, next_capacity, DynamicBufferConfig, DynamicBufferState,
};
use smolnet::tcp::pool::{MemoryPool, PoolLedger, PoolStep};

fn config(initial: u32, max: u32, grow_chunk: u32) -> DynamicBufferConfig {
    DynamicBufferConfig::symmetric(initial, max, grow_chunk)
}

/// The buffers of a socket, which close their account when they go away.
struct Socket {
    rx_buffer: SocketBuffer,
    tx_buffer: SocketBuffer,
    state: DynamicBufferState,
}

impl Socket {
    fn new_dynamic(cfg: DynamicBufferConfig, pool: Option<MemoryPool>) -> Socket {
        let mut state = DynamicBufferState::new(cfg, pool);
        let (rx_storage, tx_storage) = state.allocate_initial();
        Socket {
            rx_buffer: SocketBuffer::new(rx_storage),
            tx_buffer: SocketBuffer::new(tx_storage),
            state,
        }
    }

    fn try_grow_rx(&mut self) -> bool {
        self.state.try_grow_rx(&mut self.rx_buffer)
    }

    fn try_grow_tx(&mut self) -> bool {
        self.state.try_grow_tx(&mut self.tx_buffer)
    }

    fn release(&mut self) {
        self.state.release(&mut self.rx_buffer, &mut self.tx_buffer)
    }

    fn recv_capacity(&self) -> usize {
        self.rx_buffer.capacity()
    }

    fn send_capacity(&self) -> usize {
        self.tx_buffer.capacity()
    }

    fn can_send(&self) -> bool {
        !self.tx_buffer.is_full() || self.state.can_grow_tx(self.tx_buffer.capacity())
    }

    fn send_slice(&mut self, data: &[u8]) -> usize {
        if self.state.should_grow_tx(self.tx_buffer.window()) && self.tx_buffer.window() < data.len()
        {
            self.try_grow_tx();
        }
        self.tx_buffer.enqueue_slice(data)
    }
}

impl Drop for Socket {
    fn drop(&mut self) {
        self.state.close();
    }
}

fn dynamic_charge(socket: &Socket) -> usize {
    socket.recv_capacity() + socket.send_capacity()
}

#[test]
fn state_normalizes_configuration() {
    let state = DynamicBufferState::new(
        DynamicBufferConfig {
            rx_initial: 8192,
            rx_max: 4096,
            tx_initial: u32::MAX,
            tx_max: u32::MAX,
            grow_chunk: 0,
        },
        None,
    );

    assert_eq!(state.rx_initial, 4096);
    assert_eq!(state.rx_capacity_max(), 4096);
    assert_eq!(state.tx_initial, 1 << 30);
    assert_eq!(state.tx_capacity_max(), 1 << 30);
    assert_eq!(state.grow_chunk, 1);
}

#[test]
fn initial_first_allocation_failure_short_circuits() {
    let pool = MemoryPool::new(6144);
    let mut state = DynamicBufferState::new(
        DynamicBufferConfig {
            rx_initial: 4096,
            rx_max: 8192,
            tx_initial: 2048,
            tx_max: 4096,
            grow_chunk: 4096,
        },
        Some(pool.clone()),
    );
    let calls = Cell::new(0);

    let (rx_storage, tx_storage) = state.allocate_initial_with(|_| {
        calls.set(calls.get() + 1);
        None
    });

    assert_eq!(calls.get(), 1);
    assert!(rx_storage.is_empty());
    assert!(tx_storage.is_empty());
    assert_eq!(state.charged, 0);
    assert_eq!(pool.used(), 0);
}

#[test]
fn initial_second_allocation_failure_rolls_back_reservation() {
    let pool = MemoryPool::new(6144);
    let mut state = DynamicBufferState::new(
        DynamicBufferConfig {
            rx_initial: 4096,
            rx_max: 8192,
            tx_initial: 2048,
            tx_max: 4096,
            grow_chunk: 4096,
        },
        Some(pool.clone()),
    );
    let calls = Cell::new(0);

    let (rx_storage, tx_storage) = state.allocate_initial_with(|capacity| {
        calls.set(calls.get() + 1);
        if calls.get() == 1 {
            Some(vec![0; capacity])
        } else {
            None
        }
    });

    assert_eq!(calls.get(), 2);
    assert!(rx_storage.is_empty());
    assert!(tx_storage.is_empty());
    assert_eq!(state.charged, 0);
    assert_eq!(pool.used(), 0);
}

#[test]
fn restoration_failure_rolls_back_reservation() {
    let pool = MemoryPool::new(6144);
    let mut state = DynamicBufferState::new(
        DynamicBufferConfig {
            rx_initial: 4096,
            rx_max: 8192,
            tx_initial: 2048,
            tx_max: 4096,
            grow_chunk: 4096,
        },
        Some(pool.clone()),
    );
    let mut rx_buffer = SocketBuffer::new(Vec::<u8>::new());
    let mut tx_buffer = SocketBuffer::lent(Vec::new());

    state.restore_initial(&mut rx_buffer, &mut tx_buffer);

    assert_eq!(rx_buffer.capacity(), 0);
    assert_eq!(tx_buffer.capacity(), 0);
    assert_eq!(state.charged, 0);
    assert_eq!(pool.used(), 0);
}

#[test]
fn growth_failure_rolls_back_increment() {
    let pool = MemoryPool::new(4096);
    let mut state = DynamicBufferState::new(config(0, 4096, 4096), Some(pool.clone()));
    let mut buffer = SocketBuffer::lent(Vec::new());

    assert!(!state.try_grow_rx(&mut buffer));
    assert_eq!(buffer.capacity(), 0);
    assert_eq!(state.charged, 0);
    assert_eq!(pool.used(), 0);
}

#[test]
fn dynbuf_next_capacity_math() {
    assert_eq!(next_capacity(0, 4096, 65536, false), 4096);
    assert_eq!(next_capacity(4096, 4096, 65536, false), 8192);
    assert_eq!(next_capacity(8192, 4096, 65536, false), 16384);
    assert_eq!(next_capacity(32768, 4096, 65536, false), 65536);
    assert_eq!(next_capacity(65536, 4096, 65536, false), 65536);
    assert_eq!(next_capacity(8192, 4096, 65536, true), 12288);
    assert_eq!(next_capacity(32768, 4096, 65536, true), 36864);
    assert_eq!(next_capacity(60000, 4096, 65536, true), 64096);
}

#[test]
fn impossible_initial_allocation_is_fallible() {
    assert!(try_zeroed_socket_storage(usize::MAX).is_none());
}

#[test]
fn accounting_supports_combined_direction_capacity() {
    let pool = MemoryPool::new(2 * 1024 * 1024 * 1024);
    let mut state = DynamicBufferState::new(config(0, 1 << 30, 8192), Some(pool.clone()));
    let charge = 2 * 768 * 1024 * 1024;

    assert!(state.charge(charge));
    assert_eq!(state.charged, charge);
    assert_eq!(pool.used(), charge);

    state.refund(charge);
    assert_eq!(state.charged, 0);
    assert_eq!(pool.used(), 0);
}

#[test]
fn combined_initial_capacity_overflow_is_rejected() {
    assert_eq!(combined_initial_capacity(usize::MAX, 1), None);
}

#[test]
fn pool_charge_and_refund() {
    let pool = MemoryPool::new(1024);
    assert_eq!(pool.budget(), 1024);
    assert_eq!(pool.used(), 0);
    assert_eq!(pool.available(), 1024);

    assert!(pool.try_charge(512));
    assert_eq!(pool.used(), 512);
    assert!(pool.try_charge(256));
    assert_eq!(pool.used(), 768);
    assert!(!pool.try_charge(512), "should refuse exceeding budget");
    assert_eq!(pool.used(), 768);
    pool.refund(256);
    assert_eq!(pool.used(), 512);
    pool.refund(512);
    assert_eq!(pool.used(), 0);
}

#[test]
fn pool_clone_shares_state() {
    let pool = MemoryPool::new(100);
    let other = pool.clone();
    assert!(pool.try_charge(50));
    assert_eq!(other.used(), 50);
    other.refund(50);
    assert_eq!(pool.used(), 0);
}

#[test]
fn pool_zero_charge_is_noop() {
    let pool = MemoryPool::new(0);
    assert!(pool.try_charge(0));
    assert_eq!(pool.used(), 0);
}

#[test]
fn pool_used_matches_sum_of_dynamic_socket_capacities() {
    let pool = MemoryPool::new(64 * 1024);
    let cfg = DynamicBufferConfig::symmetric(0, 16 * 1024, 4 * 1024);
    let mut a = Socket::new_dynamic(cfg, Some(pool.clone()));
    let mut b = Socket::new_dynamic(cfg, Some(pool.clone()));

    assert_eq!(pool.used(), 0);
    assert!(a.try_grow_rx());
    assert!(a.try_grow_tx());
    assert!(b.try_grow_rx());
    assert_eq!(pool.used(), dynamic_charge(&a) + dynamic_charge(&b));

    a.release();
    assert_eq!(pool.used(), dynamic_charge(&a) + dynamic_charge(&b));
    assert_eq!(pool.used(), dynamic_charge(&b));

    b.release();
    assert_eq!(pool.used(), 0);
}

#[test]
fn full_dynamic_tx_is_writable_only_when_growth_can_succeed() {
    let cfg = DynamicBufferConfig {
        rx_initial: 0,
        rx_max: 0,
        tx_initial: 4 * 1024,
        tx_max: 8 * 1024,
        grow_chunk: 4 * 1024,
    };

    let mut growable = Socket::new_dynamic(cfg, Some(MemoryPool::new(8 * 1024)));
    let payload = vec![b'x'; 4 * 1024];
    assert_eq!(growable.send_slice(&payload), payload.len());
    assert!(growable.tx_buffer.is_full());
    assert!(growable.can_send());
    assert_eq!(growable.send_slice(b"y"), 1);
    assert_eq!(growable.send_capacity(), 8 * 1024);

    let mut exhausted = Socket::new_dynamic(cfg, Some(MemoryPool::new(4 * 1024)));
    assert_eq!(exhausted.send_slice(&payload), payload.len());
    assert!(exhausted.tx_buffer.is_full());
    assert!(!exhausted.can_send());
    assert_eq!(exhausted.send_slice(b"y"), 0);
    assert_eq!(exhausted.send_capacity(), 4 * 1024);
}

#[test]
fn idle_socket_with_pool_no_charge() {
    // 1 MiB budget, 100 idle sockets at zero-initial → pool used == 0.
    let pool = MemoryPool::new(1024 * 1024);
    let cfg = DynamicBufferConfig::symmetric(0, 32 * 1024, 4 * 1024);
    let mut sockets = Vec::new();
    for _ in 0..100 {
        sockets.push(Socket::new_dynamic(cfg, Some(pool.clone())));
    }
    assert_eq!(pool.used(), 0);
    // Dropping all sockets keeps pool clean.
    drop(sockets);
    assert_eq!(pool.used(), 0);
}

#[test]
fn nonzero_initial_charges_pool() {
    let pool = MemoryPool::new(64 * 1024);
    let cfg = DynamicBufferConfig::symmetric(4 * 1024, 32 * 1024, 4 * 1024);
    let s = Socket::new_dynamic(cfg, Some(pool.clone()));
    assert_eq!(s.rx_buffer.capacity(), 4 * 1024);
    assert_eq!(s.tx_buffer.capacity(), 4 * 1024);
    assert_eq!(pool.used(), 8 * 1024);
    drop(s);
    assert_eq!(pool.used(), 0);
}

#[test]
fn pool_overcommit_falls_back_to_zero() {
    // Pool budget too small for the requested initial → constructor
    // refuses the reservation and the socket comes up with zero
    // capacity, not a partial allocation.
    let pool = MemoryPool::new(1024);
    let cfg = DynamicBufferConfig::symmetric(8 * 1024, 32 * 1024, 4 * 1024);
    let s = Socket::new_dynamic(cfg, Some(pool.clone()));
    assert_eq!(s.rx_buffer.capacity(), 0);
    assert_eq!(s.tx_buffer.capacity(), 0);
    assert_eq!(pool.used(), 0);
}

#[test]
fn pool_exhaustion_collapses_window() {
    // Budget = 4 KiB only. First socket takes it; second cannot
    // grow at all. Second socket's advertised window stays 0.
    let pool = MemoryPool::new(4 * 1024);
    let cfg = DynamicBufferConfig::symmetric(0, 32 * 1024, 4 * 1024);
    let _winner = {
        // Force the winner to actually grow.
        let mut s = Socket::new_dynamic(cfg, Some(pool.clone()));
        let grew = s.try_grow_rx();
        assert!(grew);
        assert!(s.rx_buffer.capacity() >= 4 * 1024);
        s
    };
    // Budget should now be fully consumed.
    assert_eq!(pool.available(), 0);

    // A second dynamic socket on the same pool can't grow at all.
    let mut loser = Socket::new_dynamic(cfg, Some(pool.clone()));
    assert!(!loser.try_grow_rx());
    assert_eq!(loser.rx_buffer.capacity(), 0);

    // And the window must therefore be 0 — backpressure.
    assert_eq!(loser.rx_buffer.window(), 0);
}

#[test]
fn pool_refunded_on_close() {
    let pool = MemoryPool::new(64 * 1024);
    let cfg = DynamicBufferConfig::symmetric(4 * 1024, 32 * 1024, 4 * 1024);
    {
        let mut s = Socket::new_dynamic(cfg, Some(pool.clone()));
        // Force more growth so we have something nontrivial to refund.
        while s.try_grow_rx() {}
        while s.try_grow_tx() {}
        assert!(pool.used() > 8 * 1024);
        s.release();
        assert_eq!(pool.used(), 0);
    }
    assert_eq!(pool.used(), 0);
}

#[test]
fn pool_refunded_on_drop() {
    let pool = MemoryPool::new(64 * 1024);
    let cfg = DynamicBufferConfig::symmetric(4 * 1024, 32 * 1024, 4 * 1024);
    {
        let _s = Socket::new_dynamic(cfg, Some(pool.clone()));
        assert_eq!(pool.used(), 8 * 1024);
    } // Drop fires here.
    assert_eq!(pool.used(), 0);
}

#[test]
fn zero_initial_tx_can_send_when_growth_possible() {
    let cfg = DynamicBufferConfig::symmetric(0, 32 * 1024, 4 * 1024);
    let s = Socket::new_dynamic(cfg, None);

    assert!(s.tx_buffer.is_full());
    assert!(s.can_send());
}

#[test]
fn send_data_survives_until_ack_with_dynamic_tx() {
    // Standard correctness: pre-ACK tx data is not freed by growth.
    let cfg = DynamicBufferConfig::symmetric(4 * 1024, 32 * 1024, 4 * 1024);
    let mut s = Socket::new_dynamic(cfg, None);
    assert_eq!(s.send_slice(b"hello"), 5);
    assert_eq!(s.tx_buffer.len(), 5);
    // Force a growth (we have plenty of headroom in tx_max).
    s.try_grow_tx();
    // Data must still be present.
    assert_eq!(s.tx_buffer.len(), 5);
    let buf = s.tx_buffer.read_allocated(0, 5);
    assert_eq!(buf.len(), 5);
    assert_eq!(&buf, b"hello");
}

#[test]
fn growth_preserves_buffered_payload_ordering() {
    // Critical correctness: try_grow must preserve logical byte order
    // even when the contents are wrapped.
    let mut ring: SocketBuffer = SocketBuffer::new(vec![0u8; 8]);
    // Fill, then wrap by dequeuing 4 + enqueuing 4.
    assert_eq!(ring.enqueue_slice(b"abcdefgh"), 8);
    assert_eq!(ring.dequeue_many(4), b"abcd");
    assert_eq!(ring.enqueue_slice(b"ijkl"), 4);
    // Logical contents now "efghijkl".
    assert!(ring.try_grow(16));
    assert_eq!(ring.capacity(), 16);
    let out = ring.read_allocated(0, 8);
    assert_eq!(out.len(), 8);
    assert_eq!(&out, b"efghijkl");
}

#[test]
fn pool_capacity_floor_300_sockets_24mib_budget() {
    // The target: ~300 sockets with 24 MiB total budget.
    // With rx_initial = tx_initial = 0 and a 24 MiB pool, all
    // sockets fit idle, and a subset can grow to a per-flow max.
    let pool = MemoryPool::new(24 * 1024 * 1024);
    let cfg = DynamicBufferConfig::symmetric(0, 64 * 1024, 8 * 1024);
    let mut sockets = Vec::new();
    for _ in 0..300 {
        sockets.push(Socket::new_dynamic(cfg, Some(pool.clone())));
    }
    assert_eq!(
        pool.used(),
        0,
        "idle sockets should not reserve any pool memory"
    );

    // Now grow the first 50 to full rx_max + tx_max = 128 KiB each.
    // 50 * 128 KiB = 6.4 MiB, well within 24 MiB budget.
    for s in &mut sockets[..50] {
        while s.try_grow_rx() {}
        while s.try_grow_tx() {}
        assert_eq!(s.recv_capacity(), 64 * 1024);
        assert_eq!(s.send_capacity(), 64 * 1024);
    }
    assert_eq!(pool.used(), 50 * 128 * 1024);

    // Drop everything; pool should be fully refunded.
    drop(sockets);
    assert_eq!(pool.used(), 0);
}

#[test]
fn growth_is_geometric() {
    // Without pool pressure, each grow at minimum doubles, so a
    // buffer goes 0 → chunk → 2·chunk → 4·chunk → ... → rx_max in
    // O(log) steps.
    let cfg = DynamicBufferConfig::symmetric(0, 64 * 1024, 4 * 1024);
    let mut s = Socket::new_dynamic(cfg, None);
    let mut caps = Vec::new();
    while s.try_grow_rx() {
        caps.push(s.rx_buffer.capacity());
        if caps.len() > 32 {
            panic!("grow loop did not converge: {caps:?}");
        }
    }
    // Expected geometric progression: 4K, 8K, 16K, 32K, 64K.
    assert_eq!(
        caps,
        vec![4 * 1024, 8 * 1024, 16 * 1024, 32 * 1024, 64 * 1024]
    );
}

#[test]
fn growth_throttles_under_pool_pressure() {
    // When the pool is past 75% used, sockets fall back to linear
    // `+chunk` growth so a single greedy socket can't drain the
    // budget.
    let pool = MemoryPool::new(64 * 1024);
    // Pre-charge to 75% to put the pool immediately under pressure.
    assert!(pool.try_charge(48 * 1024));
    assert!(pool.under_pressure());

    let cfg = DynamicBufferConfig::symmetric(0, 32 * 1024, 4 * 1024);
    let mut s = Socket::new_dynamic(cfg, Some(pool.clone()));
    // First grow: 0 → 4K (single chunk, geometric or linear same).
    assert!(s.try_grow_rx());
    assert_eq!(s.rx_buffer.capacity(), 4 * 1024);
    // Second grow: 4K → 8K either way.
    assert!(s.try_grow_rx());
    assert_eq!(s.rx_buffer.capacity(), 8 * 1024);
    // Third: under pressure → +4K → 12K (NOT doubled to 16K).
    assert!(s.try_grow_rx());
    assert_eq!(
        s.rx_buffer.capacity(),
        12 * 1024,
        "pressure should force linear growth, not geometric"
    );
}

#[test]
fn dyn_buf_next_capacity_math() {
    // Geometric, no pressure.
    assert_eq!(next_capacity(0, 4096, 65536, false), 4096);
    assert_eq!(next_capacity(4096, 4096, 65536, false), 8192);
    assert_eq!(next_capacity(8192, 4096, 65536, false), 16384);
    assert_eq!(next_capacity(32768, 4096, 65536, false), 65536);
    // At max → no grow.
    assert_eq!(next_capacity(65536, 4096, 65536, false), 65536);
    // Pressure throttle → linear.
    assert_eq!(next_capacity(8192, 4096, 65536, true), 12288);
    assert_eq!(next_capacity(32768, 4096, 65536, true), 36864);
    // Clamp at max even with linear.
    assert_eq!(next_capacity(60000, 4096, 65536, true), 64096);
}

#[test]
fn release_is_idempotent() {
    // Defensive: calling release twice must not double-refund the pool.
    let pool = MemoryPool::new(64 * 1024);
    let cfg = DynamicBufferConfig::symmetric(4 * 1024, 32 * 1024, 4 * 1024);
    let mut s = Socket::new_dynamic(cfg, Some(pool.clone()));
    assert_eq!(pool.used(), 8 * 1024);
    // Force more growth.
    while s.try_grow_rx() {}
    let charged = pool.used();
    assert!(charged > 8 * 1024);
    s.release();
    assert_eq!(pool.used(), 0);
    s.release();
    assert_eq!(pool.used(), 0);
    // And Drop.
    drop(s);
    assert_eq!(pool.used(), 0);
}

#[test]
fn pool_accounting_survives_u32_max_caps() {
    let cfg = DynamicBufferConfig {
        rx_initial: 0,
        rx_max: u32::MAX, // larger than the 2^30 cap; should clamp.
        tx_initial: 0,
        tx_max: u32::MAX, // ditto.
        grow_chunk: 4 * 1024,
    };
    let s = Socket::new_dynamic(cfg, None);
    assert_eq!(s.state.rx_capacity_max(), 1 << 30);
    assert_eq!(s.state.tx_capacity_max(), 1 << 30);
}

#[test]
fn pool_accounting_no_truncation_on_initial_charge() {
    // Exercise the accounting layer directly instead of allocating
    // 1.5 GiB of Vec backing storage. The invariant is arithmetic,
    // not allocator behavior.
    let pool = MemoryPool::new(2 * 1024 * 1024 * 1024);
    let cfg = DynamicBufferConfig {
        rx_initial: 0,
        rx_max: 1 << 30,
        tx_initial: 0,
        tx_max: 1 << 30,
        grow_chunk: 8 * 1024,
    };
    let mut state = DynamicBufferState::new(cfg, Some(pool.clone()));
    let charge = 2 * 768 * 1024 * 1024;

    assert!(state.charge(charge));
    assert_eq!(state.charged, charge);
    assert_eq!(pool.used(), charge);

    state.refund(charge);
    assert_eq!(pool.used(), 0);
    assert_eq!(state.charged, 0);
}

#[test]
fn syn_received_rst_to_listen_releases_pool_charge() {
    let pool = MemoryPool::new(64 * 1024);
    let cfg = DynamicBufferConfig::symmetric(0, 32 * 1024, 8 * 1024);
    let mut s = Socket::new_dynamic(cfg, Some(pool.clone()));

    // Verify the baseline: pool is empty while listening.
    assert_eq!(pool.used(), 0);

    assert!(s.try_grow_rx());
    let charged = pool.used();
    assert!(charged > 0, "rx grow should have charged the pool");

    // Back to listening: release, then restore the initial capacity, which is zero.
    s.release();
    s.state.restore_initial(&mut s.rx_buffer, &mut s.tx_buffer);

    assert_eq!(pool.used(), 0);
    assert_eq!(s.rx_buffer.capacity(), 0);
    assert_eq!(s.tx_buffer.capacity(), 0);
}

#[test]
fn syn_received_rst_to_listen_restores_nonzero_initial_capacity() {
    let pool = MemoryPool::new(64 * 1024);
    let cfg = DynamicBufferConfig {
        rx_initial: 4 * 1024,
        rx_max: 32 * 1024,
        tx_initial: 2 * 1024,
        tx_max: 16 * 1024,
        grow_chunk: 4 * 1024,
    };
    let mut s = Socket::new_dynamic(cfg, Some(pool.clone()));

    assert_eq!(pool.used(), 6 * 1024);
    assert_eq!(s.rx_buffer.capacity(), 4 * 1024);
    assert_eq!(s.tx_buffer.capacity(), 2 * 1024);

    assert!(s.try_grow_rx());
    assert!(pool.used() > 6 * 1024);

    s.release();
    s.state.restore_initial(&mut s.rx_buffer, &mut s.tx_buffer);

    assert_eq!(pool.used(), 6 * 1024);
    assert_eq!(s.rx_buffer.capacity(), 4 * 1024);
    assert_eq!(s.tx_buffer.capacity(), 2 * 1024);
}

#[test]
fn default_configuration_is_lazy() {
    assert_eq!(
        DynamicBufferConfig::default(),
        DynamicBufferConfig {
            rx_initial: 0,
            rx_max: 64 * 1024,
            tx_initial: 0,
            tx_max: 64 * 1024,
            grow_chunk: 4 * 1024,
        }
    );
}

#[test]
fn growth_is_called_for_by_small_windows() {
    let state = DynamicBufferState::new(config(0, 65536, 4096), None);
    assert!(state.should_grow_rx(4095, 0, 0));
    assert!(!state.should_grow_rx(4096, 0, 0));
    assert!(state.should_grow_rx(4096, 4097, 0));
    assert!(state.should_grow_rx(4096, 0, 4097));
    assert!(state.should_grow_tx(4095));
    assert!(!state.should_grow_tx(4096));
    assert_eq!(state.growth_increment(8192, 65536), Some(8192));
    assert_eq!(state.growth_increment(65536, 65536), None);
}

#[test]
fn release_tx_gives_back_the_transmit_capacity_only() {
    let pool = MemoryPool::new(64 * 1024);
    let mut s = Socket::new_dynamic(config(4096, 32768, 4096), Some(pool.clone()));
    s.state.release_tx(&mut s.tx_buffer);
    assert_eq!(s.send_capacity(), 0);
    assert_eq!(s.recv_capacity(), 4096);
    assert_eq!(pool.used(), 4096);
    assert_eq!(s.state.charged, 4096);
}

#[test]
fn refusal_keeps_accepted_bytes() {
    let pool = MemoryPool::new(4096);
    let mut s = Socket::new_dynamic(config(0, 65536, 4096), Some(pool.clone()));
    assert!(s.try_grow_rx());
    assert_eq!(s.rx_buffer.enqueue_slice(b"payload"), 7);
    assert!(!s.try_grow_rx());
    assert_eq!(s.rx_buffer.read_allocated(0, 7), b"payload");
    assert_eq!(pool.used(), 4096);
}

#[test]
fn ledger_counts_exactly() {
    let mut ledger = PoolLedger::new(4097);
    assert_eq!(ledger.pressure_threshold, 3072);
    assert!(!ledger.under_pressure());
    assert!(ledger.try_charge(3072));
    assert!(ledger.under_pressure());
    assert_eq!(ledger.available(), 1025);
    assert!(!ledger.try_charge(1026));
    assert!(!ledger.try_charge(usize::MAX));
    assert!(ledger.try_charge(1025));
    assert_eq!(ledger.available(), 0);
    ledger.refund(4097);
    assert_eq!(ledger, PoolLedger::new(4097));
}

#[test]
fn steps_on_a_ledger_value_roll_back() {
    let mut books = Some(PoolLedger::new(8192));
    let mut state = DynamicBufferState::new(config(0, 8192, 4096), None);
    assert_eq!(state.reserve_growth_on(&mut books, 0, 8192), Some(4096));
    assert_eq!(books.unwrap().used, 4096);
    assert_eq!(state.charged, 4096);

    // Whether the next step is possible, and whether it is charged, agree.
    assert!(state.can_grow_tx_on(&books, 4096));
    assert_eq!(state.reserve_growth_on(&mut books, 4096, 8192), Some(4096));
    assert!(!state.can_grow_tx_on(&books, 4096));
    assert_eq!(state.reserve_growth_on(&mut books, 4096, 8192), None);
    state.refund_on(&mut books, 4096);
    assert_eq!(books.unwrap().used, 4096);
    assert_eq!(state.charged, 4096);

    // A buffer at its maximum has no next step.
    assert_eq!(state.growth_increment_on(&books, 8192, 8192), None);
    assert_eq!(state.reserve_growth_on(&mut books, 8192, 8192), None);
}

#[test]
fn zeroed_storage_is_zeroed() {
    assert_eq!(try_zeroed_socket_storage(0), Some(vec![]));
    assert_eq!(try_zeroed_socket_storage(3), Some(vec![0, 0, 0]));
    assert_eq!(zeroed(true, Vec::new(), 2), Some(vec![0, 0]));
    assert_eq!(zeroed(false, Vec::new(), 2), None);
}

#[test]
fn ring_buffer_wraps_and_bounds() {
    let mut ring = SocketBuffer::new(vec![0u8; 4]);
    assert!(ring.is_empty());
    assert_eq!(ring.enqueue_slice(b"abcdef"), 4);
    assert!(ring.is_full());
    assert_eq!(ring.dequeue_many(3), b"abc");
    assert_eq!(ring.enqueue_slice(b"xy"), 2);
    assert_eq!(ring.window(), 1);
    assert_eq!(ring.read_allocated(1, 9), b"xy");
    assert_eq!(ring.read_allocated(3, 1), b"");
    assert_eq!(ring.dequeue_many(9), b"dxy");
    assert!(ring.is_empty());
    // It neither shrinks nor, where its storage is lent, grows.
    assert!(!ring.try_grow(4));
    let mut lent = SocketBuffer::lent(vec![0u8; 2]);
    assert!(!lent.try_grow(4));
    assert_eq!(lent.enqueue_slice(b"z"), 1);
    lent.release_owned();
    assert_eq!(lent.len(), 1);
    ring.release_owned();
    assert_eq!(ring.capacity(), 0);
}

#[test]
fn sockets_on_a_ledger_value_balance() {
    let mut books = Some(PoolLedger::new(4096));
    let mut first = DynamicBufferState::new(config(1024, 8192, 1024), None);
    let mut second = DynamicBufferState::new(config(1024, 8192, 1024), None);
    assert_eq!(first.reserve_initial_on(&mut books), Some(2048));
    assert_eq!(second.reserve_initial_on(&mut books), Some(2048));
    assert_eq!(books.unwrap().used, first.charged + second.charged);
    assert_eq!(books.unwrap().available(), 0);

    // One gives its transmit buffer back, the other all that it has, twice.
    first.refund_on(&mut books, 1024);
    assert_eq!((first.charged, books.unwrap().used), (1024, 3072));
    second.refund_on(&mut books, 2048);
    second.refund_on(&mut books, 2048);
    assert_eq!((second.charged, books.unwrap().used), (0, 1024));
    first.refund_on(&mut books, 4096);
    assert_eq!(books, Some(PoolLedger::new(4096)));
}

#[test]
fn refunds_stop_at_nothing() {
    let mut ledger = PoolLedger::new(1024);
    assert!(ledger.try_charge(512));
    ledger.refund(1024);
    assert_eq!(ledger.used, 0);

    let pool = MemoryPool::new(1024);
    pool.refund(1);
    assert_eq!(pool.used(), 0);
    assert_eq!(pool.available(), 1024);
}

#[test]
fn restoration_gives_both_capacities_or_neither() {
    let mut state = DynamicBufferState::new(
        DynamicBufferConfig {
            rx_initial: 4096,
            rx_max: 8192,
            tx_initial: 2048,
            tx_max: 8192,
            grow_chunk: 1024,
        },
        Some(MemoryPool::new(8192)),
    );
    let mut rx_buffer = SocketBuffer::new(Vec::new());
    let mut tx_buffer = SocketBuffer::new(Vec::new());
    state.restore_initial(&mut rx_buffer, &mut tx_buffer);
    assert_eq!((rx_buffer.capacity(), tx_buffer.capacity()), (4096, 2048));
    assert_eq!(state.charged, 6144);
    state.release(&mut rx_buffer, &mut tx_buffer);

    // Lent storage cannot grow: the other buffer is left without storage too.
    let mut lent = SocketBuffer::lent(Vec::new());
    state.restore_initial(&mut rx_buffer, &mut lent);
    assert_eq!((rx_buffer.capacity(), lent.capacity()), (0, 0));
    assert_eq!(state.charged, 0);
}

#[test]
fn buffers_move_into_larger_storage_only() {
    let mut ring = SocketBuffer::new(vec![0u8; 2]);
    assert_eq!(ring.enqueue_slice(b"ab"), 2);
    assert!(!ring.grow_into(None));
    assert!(!ring.grow_into(Some(vec![0u8; 2])));
    assert_eq!(ring.capacity(), 2);
    assert!(ring.grow_into(Some(vec![0u8; 5])));
    assert_eq!(ring.capacity(), 5);
    assert_eq!(ring.enqueue_slice(b"cdef"), 3);
    assert_eq!(ring.dequeue_many(9), b"abcde");
    assert!(!ring.try_grow(usize::MAX));
    assert_eq!(ring.capacity(), 5);

    let mut lent = SocketBuffer::lent(vec![0u8; 2]);
    assert!(!lent.grow_into(Some(vec![0u8; 5])));
    assert_eq!(lent.capacity(), 2);
}

#[test]
fn a_pool_takes_the_steps_that_it_is_asked_for() {
    let pool = MemoryPool::new(8192);
    let mut books = PoolLedger::new(8192);
    let steps = [
        PoolStep::Charge(1024),
        PoolStep::Grow { chunk: 1024, current: 1024, max: 8192 },
        PoolStep::Charge(8192),
        PoolStep::Grow { chunk: 1024, current: 4096, max: 8192 },
        PoolStep::Grow { chunk: 1024, current: 8192, max: 8192 },
        PoolStep::Refund(1024),
        PoolStep::Refund(8192),
    ];
    let mut used = Vec::new();
    for step in steps {
        assert_eq!(pool.apply(step), books);
        books.take(step);
        assert_eq!(pool.ledger(), books);
        used.push(pool.used());
    }
    assert_eq!(used, vec![1024, 2048, 2048, 6144, 6144, 5120, 0]);

    // Past three quarters of the budget growth is by a chunk.
    pool.apply(PoolStep::Charge(6144));
    pool.apply(PoolStep::Grow { chunk: 1024, current: 4096, max: 8192 });
    assert_eq!(pool.used(), 7168);
}

#[test]
fn pool_reports_pressure_from_three_quarters_on() {
    let pool = MemoryPool::new(64 * 1024);
    assert_eq!((pool.used(), pool.available()), (0, 64 * 1024));
    assert!(pool.try_charge(48 * 1024 - 1));
    assert!(!pool.under_pressure());
    assert!(pool.try_charge(1));
    assert!(pool.under_pressure());
    pool.refund(48 * 1024);
    assert_eq!(pool.used(), 0);
}

#[test]
fn pool_reports_the_capacities_of_the_sockets_that_are_there() {
    let pool = MemoryPool::new(64 * 1024);
    let mut first = Socket::new_dynamic(config(4096, 16384, 4096), Some(pool.clone()));
    let second = Socket::new_dynamic(config(1024, 16384, 1024), Some(pool.clone()));
    assert!(first.try_grow_rx());
    assert_eq!(
        pool.used(),
        first.recv_capacity() + first.send_capacity() + second.recv_capacity()
            + second.send_capacity()
    );
    drop(second);
    assert_eq!(pool.used(), first.recv_capacity() + first.send_capacity());
    first.release();
    assert_eq!(pool.used(), 0);
}

#[test]
fn the_receive_buffer_is_asked_for_first() {
    let asked = std::cell::RefCell::new(Vec::new());
    let mut state = DynamicBufferState::new(
        DynamicBufferConfig {
            rx_initial: 4096,
            rx_max: 8192,
            tx_initial: 2048,
            tx_max: 4096,
            grow_chunk: 4096,
        },
        None,
    );
    let (rx_storage, tx_storage) = state.allocate_initial_with(|capacity| {
        asked.borrow_mut().push(capacity);
        if capacity == 4096 {
            Some(vec![0; capacity])
        } else {
            None
        }
    });
    assert_eq!(*asked.borrow(), vec![4096, 2048]);
    assert!(rx_storage.is_empty() && tx_storage.is_empty());
    assert_eq!(state.charged, 0);
}
