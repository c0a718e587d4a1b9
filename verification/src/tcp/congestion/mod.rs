//! Congestion control: how much a sender may have in flight.
use vstd::prelude::*;

use crate::time::Instant;

pub mod cubic;
pub mod no_control;
pub mod reno;

use no_control::NoControl;
use reno::Reno;

verus! {

/// The round-trip time estimate that a sender keeps.
#[derive(Debug, Clone, Copy, PartialEq, Eq, Structural)]
pub struct RttEstimator {
    /// The smoothed round-trip time in milliseconds.
    pub srtt: u32,
}

impl Default for RttEstimator {
    /// No estimate yet.
    fn default() -> (rtt: RttEstimator)
        ensures
            rtt.srtt == 0,
    {
        RttEstimator { srtt: 0 }
    }
}

impl RttEstimator {
    /// The smoothed round-trip time in milliseconds.
    pub fn smoothed_rtt(&self) -> (srtt: u32)
        ensures
            srtt == self.srtt,
    {
        self.srtt
    }
}

/// A window of `w` bytes, or the largest that can be stored where that is less.
pub open spec fn stored(w: int) -> u32 {
    if w <= u32::MAX {
        w as u32
    } else {
        u32::MAX
    }
}

/// `w` kept within a receive window and above a segment, the segment winning.
pub open spec fn bounded(w: int, rwnd: u32, mss: u32) -> u32 {
    let capped = if stored(w) <= rwnd {
        stored(w)
    } else {
        rwnd
    };
    if capped >= mss {
        capped
    } else {
        mss
    }
}

/// The initial window of RFC 6928: ten segments, but no more than the larger of two segments
/// and 14600 bytes.
pub open spec fn iw10(mss: u32) -> u32 {
    let floor = if mss * 2 >= 14_600 {
        mss * 2
    } else {
        14_600
    };
    stored(
        if mss * 10 <= floor {
            mss * 10
        } else {
            floor
        },
    )
}

/// A window that was kept in bounds holds a segment, and passes the receive window for no more
/// than that; one that was in bounds is what it was, and a larger one is not kept smaller.
pub proof fn law_bounds_are_kept(w: int, other: int, rwnd: u32, mss: u32)
    requires
        0 <= w,
    ensures
        mss <= bounded(w, rwnd, mss),
        bounded(w, rwnd, mss) <= rwnd || bounded(w, rwnd, mss) == mss,
        mss <= w <= rwnd ==> bounded(w, rwnd, mss) == w,
        w < mss ==> bounded(w, rwnd, mss) == mss,
        w <= other ==> bounded(w, rwnd, mss) <= bounded(other, rwnd, mss),
{
}

/// What can be stored is stored as it is, and anything larger as the largest that can be.
pub proof fn law_storing_saturates(w: int)
    requires
        0 <= w,
    ensures
        stored(w) <= w,
        w <= u32::MAX ==> stored(w) == w,
        w > u32::MAX ==> stored(w) == u32::MAX,
{
}

/// The initial window is the least of ten segments and the larger of two segments and 14600
/// bytes: it passes neither, and is one of them.
pub proof fn law_initial_window_is_least(mss: u32)
    requires
        mss * 2 <= u32::MAX,
    ensures
        iw10(mss) <= mss * 10,
        iw10(mss) <= mss * 2 || iw10(mss) <= 14_600,
        iw10(mss) == mss * 10 || iw10(mss) == 14_600 || iw10(mss) == mss * 2,
        iw10(mss) < mss * 10 ==> iw10(mss) >= 14_600 && iw10(mss) >= mss * 2,
{
}

/// The product of two windows fits twice the width.
pub proof fn lemma_product_fits(a: u32, b: u32)
    ensures
        0 <= a * b <= 0xffff_fffe_0000_0001,
{
    assert(0 <= a * b <= 0xffff_ffff * 0xffff_ffff) by (nonlinear_arith)
        requires
            0 <= a <= 0xffff_ffff,
            0 <= b <= 0xffff_ffff,
    ;
}

/// The product of two numbers, or the largest number that can be stored where that is less.
pub fn product(a: u32, b: u32) -> (r: u32)
    ensures
        r == stored(a * b),
{
    proof {
        lemma_product_fits(a, b);
    }
    let wide: u64 = (a as u64) * (b as u64);
    if wide <= u32::MAX as u64 {
        wide as u32
    } else {
        u32::MAX
    }
}

/// `w` kept within a receive window and above a segment.
pub fn bound(w: u32, rwnd: u32, mss: u32) -> (r: u32)
    ensures
        r == bounded(w as int, rwnd, mss),
{
    let capped: u32 = if w <= rwnd {
        w
    } else {
        rwnd
    };
    if capped >= mss {
        capped
    } else {
        mss
    }
}

/// The initial window for segments of `mss` bytes.
pub fn initial_window(mss: u32) -> (window: u32)
    ensures
        window == iw10(mss),
{
    let ten: u32 = product(mss, 10);
    let two: u32 = product(mss, 2);
    let floor: u32 = if two >= 14_600 {
        two
    } else {
        14_600
    };
    if ten <= floor {
        ten
    } else {
        floor
    }
}

/// A stored window as a count of bytes.
pub fn window_to_usize(window: u32) -> (bytes: usize)
    ensures
        bytes == window,
{
    window as usize
}

/// A count of bytes as a window that can be stored.
pub fn window_to_u32(window: usize) -> (r: u32)
    ensures
        r == stored(window as int),
{
    if window <= u32::MAX as usize {
        window as u32
    } else {
        u32::MAX
    }
}

/// The congestion controller of a connection.
#[derive(Debug, Clone, Copy, PartialEq, Eq, Structural)]
pub enum AnyController {
    NoControl(NoControl),
    Reno(Reno),
}

impl AnyController {
    /// The controller that a connection starts with.
    pub fn new() -> (controller: AnyController)
        ensures
            controller == AnyController::Reno(reno::fresh()),
    {
        AnyController::Reno(Reno::new())
    }

    /// Makes the controller ready for a new connection: it stays of its kind, and forgets
    /// everything else.
    pub fn reset(&mut self)
        ensures
            *final(self) == match *old(self) {
                AnyController::NoControl(_) => AnyController::NoControl(NoControl),
                AnyController::Reno(_) => AnyController::Reno(reno::fresh()),
            },
    {
        *self =
        match *self {
            AnyController::NoControl(_) => AnyController::NoControl(NoControl),
            AnyController::Reno(_) => AnyController::Reno(Reno::new()),
        };
    }

    /// Whether the controller bounds what is in flight.
    pub fn manages_window(&self) -> (manages: bool)
        ensures
            manages == !(*self is NoControl),
    {
        match self {
            AnyController::NoControl(_) => false,
            AnyController::Reno(_) => true,
        }
    }

    /// How many bytes may be in flight.
    pub fn window(&self) -> (window: usize)
        ensures
            window == match *self {
                AnyController::NoControl(_) => usize::MAX,
                AnyController::Reno(r) => r.cwnd as usize,
            },
    {
        match self {
            AnyController::NoControl(_) => usize::MAX,
            AnyController::Reno(r) => r.window(),
        }
    }

    /// Notes the receive window that the peer advertises.
    pub fn set_remote_window(&mut self, remote_window: usize)
        ensures
            *final(self) == match *old(self) {
                AnyController::NoControl(_) => *old(self),
                AnyController::Reno(r) => AnyController::Reno(
                    reno::remote_window_set(r, remote_window),
                ),
            },
    {
        if let AnyController::Reno(r) = self {
            r.set_remote_window(remote_window);
        }
    }

    /// Notes that `len` bytes were acknowledged.
    pub fn on_ack(&mut self, now: Instant, len: usize, in_flight: usize, rtt: &RttEstimator)
        ensures
            *final(self) == match *old(self) {
                AnyController::NoControl(_) => *old(self),
                AnyController::Reno(r) => AnyController::Reno(reno::acked(r, len)),
            },
    {
        if let AnyController::Reno(r) = self {
            r.on_ack(now, len, in_flight, rtt);
        }
    }

    /// Notes a duplicate acknowledgement, once a loss was noted.
    pub fn on_dup_ack(&mut self, now: Instant, len: usize, in_flight: usize)
        ensures
            *final(self) == match *old(self) {
                AnyController::NoControl(_) => *old(self),
                AnyController::Reno(r) => AnyController::Reno(reno::dup_acked(r, len)),
            },
    {
        if let AnyController::Reno(r) = self {
            r.on_dup_ack(now, len, in_flight);
        }
    }

    /// Notes that the retransmission timer fired with `in_flight` bytes in flight.
    pub fn on_rto(&mut self, now: Instant, in_flight: usize)
        ensures
            *final(self) == match *old(self) {
                AnyController::NoControl(_) => *old(self),
                AnyController::Reno(r) => AnyController::Reno(reno::timed_out(r, in_flight)),
            },
    {
        if let AnyController::Reno(r) = self {
            r.on_rto(now, in_flight);
        }
    }

    /// Notes that three duplicate acknowledgements showed a loss, with `in_flight` bytes in
    /// flight.
    pub fn on_loss(&mut self, now: Instant, in_flight: usize)
        ensures
            *final(self) == match *old(self) {
                AnyController::NoControl(_) => *old(self),
                AnyController::Reno(r) => AnyController::Reno(reno::lost(r, in_flight)),
            },
    {
        if let AnyController::Reno(r) = self {
            r.on_loss(now, in_flight);
        }
    }

    /// Notes that a segment is about to be sent. No controller here acts on it.
    pub fn pre_transmit(&mut self, now: Instant)
        ensures
            *final(self) == *old(self),
    {
        if let AnyController::Reno(r) = self {
            r.pre_transmit(now);
        }
    }

    /// Notes that a segment of `len` bytes was sent. No controller here acts on it.
    pub fn post_transmit(&mut self, now: Instant, len: usize)
        ensures
            *final(self) == *old(self),
    {
        if let AnyController::Reno(r) = self {
            r.post_transmit(now, len);
        }
    }

    /// Sets the segment size, and opens the window accordingly.
    pub fn set_mss(&mut self, mss: usize)
        ensures
            *final(self) == match *old(self) {
                AnyController::NoControl(_) => *old(self),
                AnyController::Reno(r) => AnyController::Reno(reno::mss_set(r, mss)),
            },
    {
        if let AnyController::Reno(r) = self {
            r.set_mss(mss);
        }
    }
}

} // verus!
