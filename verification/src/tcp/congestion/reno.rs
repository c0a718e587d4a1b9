//! Reno congestion control (RFC 5681).
use vstd::prelude::*;

use crate::tcp::congestion::{
    self, bound, initial_window, product, window_to_u32, window_to_usize, RttEstimator,
};
use crate::time::Instant;

verus! {

/// The segment size that is assumed until one is negotiated.
pub const DEFAULT_MSS: u32 = 1024;

/// The state of a Reno controller.
#[derive(Debug, Clone, Copy, PartialEq, Eq, Structural)]
pub struct Reno {
    /// The congestion window.
    pub cwnd: u32,
    /// The segment size.
    pub mss: u32,
    /// The window up to which slow start grows.
    pub ssthresh: u32,
    /// The largest receive window that the peer has advertised.
    pub rwnd: u32,
    /// Set on a loss, cleared when new data is acknowledged.
    pub in_fast_recovery: bool,
    /// Set on a timeout, cleared when new data is acknowledged. A timeout meanwhile is for
    /// the same segment, and does not reduce `ssthresh` again.
    pub in_rto_recovery: bool,
}

/// A controller that has seen nothing.
pub open spec fn fresh() -> Reno {
    Reno {
        cwnd: 2048,
        mss: 1024,
        ssthresh: u32::MAX,
        rwnd: 65536,
        in_fast_recovery: false,
        in_rto_recovery: false,
    }
}

/// Half of what is in flight, but two segments at least.
pub open spec fn halved(in_flight: usize, mss: u32) -> u32 {
    let half = (congestion::stored(in_flight as int) / 2) as u32;
    let two = congestion::stored(mss * 2);
    if half >= two {
        half
    } else {
        two
    }
}

/// How much an acknowledgement of `len` bytes opens the window: in slow start by what it
/// acknowledges, up to a segment; in congestion avoidance by a segment's share of the window,
/// a byte at least.
pub open spec fn opening(r: Reno, len: usize) -> int {
    if r.cwnd < r.ssthresh {
        if len <= r.mss {
            len as int
        } else {
            r.mss as int
        }
    } else if r.cwnd == 0 {
        1
    } else {
        let share = (r.mss * r.mss) / (r.cwnd as int);
        if share < 1 {
            1
        } else {
            congestion::stored(share) as int
        }
    }
}

/// The controller once `len` bytes were acknowledged. Where none were, nothing changes. The
/// first new data ends recovery, and takes the window back to `ssthresh`.
pub open spec fn acked(r: Reno, len: usize) -> Reno {
    if len == 0 {
        r
    } else if r.in_fast_recovery {
        Reno { cwnd: r.ssthresh, in_fast_recovery: false, in_rto_recovery: false, ..r }
    } else {
        Reno {
            cwnd: congestion::bounded(r.cwnd + opening(r, len), r.rwnd, r.mss),
            in_rto_recovery: false,
            ..r
        }
    }
}

/// The controller once a duplicate acknowledgement came: in recovery each opens the window.
pub open spec fn dup_acked(r: Reno, len: usize) -> Reno {
    if r.in_fast_recovery {
        Reno {
            cwnd: congestion::bounded(r.cwnd + congestion::stored(len as int), r.rwnd, r.mss),
            ..r
        }
    } else {
        r
    }
}

/// The controller once a loss was noted: the first one of an episode halves the window.
pub open spec fn lost(r: Reno, in_flight: usize) -> Reno {
    if r.in_fast_recovery {
        r
    } else {
        let ssthresh = halved(in_flight, r.mss);
        let base = if ssthresh <= r.rwnd {
            ssthresh
        } else {
            r.rwnd
        };
        Reno {
            ssthresh,
            cwnd: congestion::stored(base + congestion::stored(r.mss * 3)),
            in_fast_recovery: true,
            ..r
        }
    }
}

/// The controller once the retransmission timer fired: the window collapses to a segment, and
/// the first timeout of an episode halves `ssthresh`.
pub open spec fn timed_out(r: Reno, in_flight: usize) -> Reno {
    Reno {
        ssthresh: if r.in_rto_recovery {
            r.ssthresh
        } else {
            halved(in_flight, r.mss)
        },
        cwnd: r.mss,
        in_rto_recovery: true,
        in_fast_recovery: false,
        ..r
    }
}

/// The controller with another segment size, and the initial window for it.
pub open spec fn mss_set(r: Reno, mss: usize) -> Reno {
    let mss = congestion::stored(mss as int);
    Reno { mss, cwnd: congestion::iw10(mss), ..r }
}

/// The controller once the peer has advertised a receive window: only a larger one counts.
pub open spec fn remote_window_set(r: Reno, remote_window: usize) -> Reno {
    let advertised = congestion::stored(remote_window as int);
    if r.rwnd < advertised {
        Reno { rwnd: advertised, ..r }
    } else {
        r
    }
}

/// Half of what is in flight, but two segments at least.
fn half_window(in_flight: usize, mss: u32) -> (half: u32)
    ensures
        half == halved(in_flight, mss),
{
    let half: u32 = window_to_u32(in_flight) / 2;
    let two: u32 = product(mss, 2);
    if half >= two {
        half
    } else {
        two
    }
}

impl Reno {
    /// A controller that has seen nothing.
    pub fn new() -> (reno: Reno)
        ensures
            reno == fresh(),
    {
        Reno {
            cwnd: DEFAULT_MSS * 2,
            mss: DEFAULT_MSS,
            ssthresh: u32::MAX,
            rwnd: 64 * DEFAULT_MSS,
            in_fast_recovery: false,
            in_rto_recovery: false,
        }
    }

    /// How many bytes may be in flight.
    pub fn window(&self) -> (window: usize)
        ensures
            window == self.cwnd,
    {
        window_to_usize(self.cwnd)
    }

    /// Notes that `len` bytes were acknowledged. Segments that acknowledge nothing, such as
    /// window updates, neither end recovery nor open the window.
    pub fn on_ack(&mut self, _now: Instant, len: usize, _in_flight: usize, _rtt: &RttEstimator)
        ensures
            *final(self) == acked(*old(self), len),
    {
        if len == 0 {
            return;
        }
        self.in_rto_recovery = false;
        if self.in_fast_recovery {
            self.in_fast_recovery = false;
            self.cwnd = self.ssthresh;
            return;
        }
        let inc: u32 = if self.cwnd < self.ssthresh {
            let acked: u32 = window_to_u32(len);
            if acked <= self.mss {
                acked
            } else {
                self.mss
            }
        } else if self.cwnd == 0 {
            1
        } else {
            proof {
                congestion::lemma_product_fits(self.mss, self.mss);
            }
            let square: u64 = (self.mss as u64) * (self.mss as u64);
            let share: u64 = square / (self.cwnd as u64);
            if share < 1 {
                1
            } else if share <= u32::MAX as u64 {
                share as u32
            } else {
                u32::MAX
            }
        };
        self.cwnd = bound(self.cwnd.saturating_add(inc), self.rwnd, self.mss);
    }

    /// Notes a duplicate acknowledgement, once a loss was noted.
    pub fn on_dup_ack(&mut self, _now: Instant, len: usize, _in_flight: usize)
        ensures
            *final(self) == dup_acked(*old(self), len),
    {
        if self.in_fast_recovery {
            self.cwnd =
            bound(self.cwnd.saturating_add(window_to_u32(len)), self.rwnd, self.mss);
        }
    }

    /// Notes that three duplicate acknowledgements showed a loss, with `in_flight` bytes in
    /// flight.
    pub fn on_loss(&mut self, _now: Instant, in_flight: usize)
        ensures
            *final(self) == lost(*old(self), in_flight),
    {
        if !self.in_fast_recovery {
            self.ssthresh = half_window(in_flight, self.mss);
            let base: u32 = if self.ssthresh <= self.rwnd {
                self.ssthresh
            } else {
                self.rwnd
            };
            self.cwnd = base.saturating_add(product(self.mss, 3));
            self.in_fast_recovery = true;
        }
    }

    /// Notes that the retransmission timer fired with `in_flight` bytes in flight.
    pub fn on_rto(&mut self, _now: Instant, in_flight: usize)
        ensures
            *final(self) == timed_out(*old(self), in_flight),
            !final(self).in_fast_recovery,
            final(self).cwnd == old(self).mss,
    {
        if !self.in_rto_recovery {
            self.ssthresh = half_window(in_flight, self.mss);
            self.in_rto_recovery = true;
        }
        self.cwnd = self.mss;
        self.in_fast_recovery = false;
    }

    /// Notes that a segment is about to be sent, which changes nothing.
    pub fn pre_transmit(&mut self, _now: Instant)
        ensures
            *final(self) == *old(self),
    {
    }

    /// Notes that a segment was sent, which changes nothing.
    pub fn post_transmit(&mut self, _now: Instant, _len: usize)
        ensures
            *final(self) == *old(self),
    {
    }

    /// Sets the segment size, and opens the window accordingly.
    pub fn set_mss(&mut self, mss: usize)
        ensures
            *final(self) == mss_set(*old(self), mss),
    {
        let mss: u32 = window_to_u32(mss);
        self.mss = mss;
        self.cwnd = initial_window(mss);
    }

    /// Notes the receive window that the peer advertises.
    pub fn set_remote_window(&mut self, remote_window: usize)
        ensures
            *final(self) == remote_window_set(*old(self), remote_window),
    {
        let remote_window: u32 = window_to_u32(remote_window);
        if self.rwnd < remote_window {
            self.rwnd = remote_window;
        }
    }
}

/// Whether the window, in and after recovery, holds a segment at least.
pub open spec fn holds_a_segment(r: Reno) -> bool {
    r.cwnd >= r.mss && r.ssthresh >= r.mss
}

/// A fresh controller has room for a segment, and keeps it whatever happens; a new segment
/// size too leaves room for one, where `ssthresh` does.
pub proof fn law_window_holds_a_segment(r: Reno, bytes: usize)
    requires
        holds_a_segment(r),
    ensures
        holds_a_segment(fresh()),
        holds_a_segment(acked(r, bytes)),
        holds_a_segment(dup_acked(r, bytes)),
        holds_a_segment(lost(r, bytes)),
        holds_a_segment(timed_out(r, bytes)),
        holds_a_segment(remote_window_set(r, bytes)),
        bytes <= r.ssthresh ==> holds_a_segment(mss_set(r, bytes)),
{
}

/// A segment that acknowledges nothing changes nothing.
pub proof fn law_empty_ack_changes_nothing(r: Reno)
    ensures
        acked(r, 0) == r,
{
}

/// The first new data after a loss ends recovery with the window at `ssthresh`.
pub proof fn law_ack_ends_recovery(r: Reno, in_flight: usize, len: usize)
    requires
        !r.in_fast_recovery,
        len > 0,
    ensures
        ({
            let after = acked(lost(r, in_flight), len);
            &&& !after.in_fast_recovery
            &&& after.cwnd == halved(in_flight, r.mss)
            &&& after.cwnd == after.ssthresh
        }),
{
}

/// A loss during recovery does not cut the window again.
pub proof fn law_loss_cuts_once(r: Reno, first: usize, second: usize)
    ensures
        lost(lost(r, first), second) == lost(r, first),
{
}

/// A timeout that follows another with no new data between does not reduce `ssthresh` again.
pub proof fn law_timeout_cuts_once(r: Reno, first: usize, second: usize)
    ensures
        timed_out(timed_out(r, first), second) == timed_out(r, first),
{
}

/// The receive window that counts never shrinks, whatever happens.
pub proof fn law_receive_window_never_shrinks(r: Reno, bytes: usize)
    ensures
        acked(r, bytes).rwnd == r.rwnd,
        dup_acked(r, bytes).rwnd == r.rwnd,
        lost(r, bytes).rwnd == r.rwnd,
        timed_out(r, bytes).rwnd == r.rwnd,
        mss_set(r, bytes).rwnd == r.rwnd,
        remote_window_set(r, bytes).rwnd >= r.rwnd,
        remote_window_set(r, bytes).rwnd >= congestion::stored(bytes as int),
{
}

/// Outside recovery an acknowledgement opens the window by a segment at most, and never past
/// the receive window, unless a segment itself is larger.
pub proof fn law_ack_opens_by_a_segment(r: Reno, len: usize)
    requires
        holds_a_segment(r),
        !r.in_fast_recovery,
        r.mss >= 1,
    ensures
        acked(r, len).cwnd <= r.cwnd + r.mss,
        len > 0 ==> acked(r, len).cwnd <= r.rwnd || acked(r, len).cwnd == r.mss,
        len > 0 && r.cwnd < r.rwnd ==> acked(r, len).cwnd > r.cwnd,
{
    if len > 0 && r.cwnd >= r.ssthresh {
        let share = (r.mss * r.mss) / (r.cwnd as int);
        assert(0 <= share <= r.mss) by (nonlinear_arith)
            requires
                1 <= r.mss <= r.cwnd,
                share == (r.mss * r.mss) / (r.cwnd as int),
        ;
    }
}

/// In slow start an acknowledgement opens the window by what it acknowledges, up to a segment, as
/// far as the receive window goes.
pub proof fn law_slow_start_opens_by_what_was_acked(r: Reno, len: usize)
    requires
        !r.in_fast_recovery,
        len > 0,
        r.mss <= r.cwnd < r.ssthresh,
        r.cwnd + r.mss <= r.rwnd,
    ensures
        len <= r.mss ==> acked(r, len).cwnd == r.cwnd + len,
        len >= r.mss ==> acked(r, len).cwnd == r.cwnd + r.mss,
        acked(r, len).ssthresh == r.ssthresh,
{
}

/// In congestion avoidance each acknowledgement opens the window by a segment's share of it: as
/// many of them as there are segments in the window open it by a segment. It opens by a byte at
/// least, and it does not matter how much was acknowledged.
pub proof fn law_avoidance_opens_by_a_share(r: Reno, len: usize, other: usize)
    requires
        !r.in_fast_recovery,
        len > 0,
        other > 0,
        r.mss >= 1,
        r.ssthresh <= r.cwnd,
        r.mss <= r.cwnd,
        r.cwnd + r.mss <= r.rwnd,
    ensures
        acked(r, len) == acked(r, other),
        ({
            let opened = acked(r, len).cwnd - r.cwnd;
            &&& 1 <= opened
            &&& opened == 1 || opened * r.cwnd <= r.mss * r.mss
            &&& (opened + 1) * r.cwnd > r.mss * r.mss
        }),
{
    let cwnd = r.cwnd as int;
    let square = r.mss * r.mss;
    let share = square / cwnd;
    vstd::arithmetic::div_mod::lemma_fundamental_div_mod(square, cwnd);
    assert(0 <= share <= r.mss && share * cwnd <= square && (share + 1) * cwnd > square)
        by (nonlinear_arith)
        requires
            1 <= r.mss <= cwnd,
            square == r.mss * r.mss,
            square == cwnd * share + square % cwnd,
            0 <= square % cwnd < cwnd,
    ;
    assert(opening(r, len) == if share < 1 {
        1
    } else {
        share
    });
    assert(2 * cwnd > square || share >= 1) by (nonlinear_arith)
        requires
            (share + 1) * cwnd > square,
            cwnd >= 1,
            share >= 0,
    ;
}

/// The first loss of an episode takes `ssthresh` to half of what was in flight, two segments at
/// least, and the window to three segments more than that, or than the receive window where that
/// is less. The controller is then in recovery, and each duplicate acknowledgement opens the
/// window by what it stands for.
pub proof fn law_loss_halves_the_flight(r: Reno, in_flight: usize, len: usize)
    requires
        !r.in_fast_recovery,
        in_flight <= u32::MAX,
        r.mss * 3 <= u32::MAX,
    ensures
        ({
            let after = lost(r, in_flight);
            &&& after.ssthresh >= in_flight / 2
            &&& after.ssthresh >= r.mss * 2
            &&& after.ssthresh == in_flight / 2 || after.ssthresh == r.mss * 2
            &&& after.ssthresh <= r.rwnd && after.ssthresh + r.mss * 3 <= u32::MAX ==> after.cwnd
                == after.ssthresh + r.mss * 3
            &&& r.rwnd < after.ssthresh && r.rwnd + r.mss * 3 <= u32::MAX ==> after.cwnd == r.rwnd
                + r.mss * 3
            &&& after.in_fast_recovery
            &&& after.in_rto_recovery == r.in_rto_recovery
            &&& after.mss == r.mss
            &&& after.cwnd + len <= r.rwnd ==> dup_acked(after, len).cwnd == after.cwnd + len
        }),
{
}

/// A duplicate acknowledgement outside recovery changes nothing.
pub proof fn law_dup_ack_waits_for_a_loss(r: Reno, len: usize)
    requires
        !r.in_fast_recovery,
    ensures
        dup_acked(r, len) == r,
{
}

/// After a timeout the controller is in slow start from one segment, whatever it was in before:
/// the first new data that is acknowledged opens the window by what it acknowledges, up to a
/// second segment, and nothing takes it to `ssthresh` at once.
pub proof fn law_timeout_restarts_slow_start(r: Reno, in_flight: usize, len: usize)
    requires
        holds_a_segment(r),
        len > 0,
    ensures
        ({
            let after = timed_out(r, in_flight);
            let next = acked(after, len);
            &&& !after.in_fast_recovery
            &&& after.cwnd == r.mss
            &&& dup_acked(after, len) == after
            &&& next.cwnd <= 2 * r.mss || next.cwnd <= r.mss + 1
            &&& after.ssthresh > r.mss ==> next.cwnd <= r.mss + len
            &&& after.ssthresh > r.mss && 2 * r.mss <= r.rwnd ==> next.cwnd == r.mss + if len
                <= r.mss {
                len as int
            } else {
                r.mss as int
            }
            &&& !next.in_rto_recovery
        }),
{
    if r.mss > 0 {
        assert((r.mss * r.mss) / (r.mss as int) == r.mss) by (nonlinear_arith)
            requires
                r.mss > 0,
        ;
    }
}

/// The first timeout of an episode takes `ssthresh` to half of what was in flight, two segments
/// at least. New data ends the episode: the next timeout cuts again, by what is in flight then.
pub proof fn law_timeout_halves_the_flight(
    r: Reno,
    first: usize,
    len: usize,
    second: usize,
)
    requires
        !r.in_rto_recovery,
        len > 0,
        first <= u32::MAX,
        second <= u32::MAX,
        r.mss * 2 <= u32::MAX,
    ensures
        ({
            let once = timed_out(r, first).ssthresh;
            let again = timed_out(acked(timed_out(r, first), len), second).ssthresh;
            &&& once >= first / 2 && once >= r.mss * 2
            &&& once == first / 2 || once == r.mss * 2
            &&& again >= second / 2 && again >= r.mss * 2
            &&& again == second / 2 || again == r.mss * 2
        }),
{
}

/// A segment size is taken over with the initial window for it, and nothing else changes.
pub proof fn law_mss_opens_the_initial_window(r: Reno, mss: usize)
    requires
        mss <= u32::MAX,
    ensures
        ({
            let after = mss_set(r, mss);
            &&& after.mss == mss
            &&& after.cwnd == congestion::iw10(mss as u32)
            &&& after.ssthresh == r.ssthresh
            &&& after.in_fast_recovery == r.in_fast_recovery
            &&& after.in_rto_recovery == r.in_rto_recovery
        }),
{
}

/// A larger receive window is taken over, and nothing else changes.
pub proof fn law_larger_receive_window_counts(r: Reno, remote_window: usize)
    ensures
        r.rwnd < remote_window <= u32::MAX ==> remote_window_set(r, remote_window).rwnd
            == remote_window,
        remote_window <= r.rwnd ==> remote_window_set(r, remote_window) == r,
        remote_window_set(r, remote_window).cwnd == r.cwnd,
        remote_window_set(r, remote_window).ssthresh == r.ssthresh,
{
}

/// A new controller has a window of two segments, of 1024 bytes each, which opens by what is
/// acknowledged, up to a segment at a time. It has not met a loss or a timeout: the first of
/// either cuts.
pub proof fn law_new_controller_is_in_slow_start(len: usize, in_flight: usize)
    requires
        0 < len,
        4096 <= in_flight <= u32::MAX,
    ensures
        fresh().mss == 1024,
        fresh().cwnd == 2 * fresh().mss,
        fresh().rwnd == 64 * fresh().mss,
        len <= 1024 ==> acked(fresh(), len).cwnd == fresh().cwnd + len,
        len > 1024 ==> acked(fresh(), len).cwnd == fresh().cwnd + 1024,
        fresh().ssthresh >= in_flight,
        lost(fresh(), in_flight).ssthresh == in_flight as int / 2,
        timed_out(fresh(), in_flight).ssthresh == in_flight as int / 2,
        dup_acked(fresh(), len) == fresh(),
{
}

/// What an event is not about stays as it was. New data ends every recovery, whatever began it.
pub proof fn law_events_keep_to_themselves(r: Reno, bytes: usize)
    ensures
        ({
            let after = acked(r, bytes);
            &&& after.mss == r.mss && after.rwnd == r.rwnd && after.ssthresh == r.ssthresh
            &&& bytes > 0 ==> !after.in_fast_recovery && !after.in_rto_recovery
        }),
        dup_acked(r, bytes) == (Reno { cwnd: dup_acked(r, bytes).cwnd, ..r }),
        ({
            let after = lost(r, bytes);
            &&& after.mss == r.mss && after.rwnd == r.rwnd
            &&& after.in_fast_recovery && after.in_rto_recovery == r.in_rto_recovery
        }),
        ({
            let after = timed_out(r, bytes);
            &&& after.mss == r.mss && after.rwnd == r.rwnd
            &&& !after.in_fast_recovery && after.in_rto_recovery
        }),
        ({
            let after = mss_set(r, bytes);
            after == (Reno { mss: after.mss, cwnd: after.cwnd, ..r })
        }),
        remote_window_set(r, bytes) == (Reno { rwnd: remote_window_set(r, bytes).rwnd, ..r }),
{
}

} // verus!
