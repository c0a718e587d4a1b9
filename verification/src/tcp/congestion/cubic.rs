//! CUBIC congestion control (RFC 9438): the state of the controller and its decisions.
//!
//! The curve itself is evaluated by the caller, in floating point. What it comes to enters
//! here as whole bytes: the window that Reno would have reached, the target on the curve, and
//! the reductions by the multiplicative decrease factor.
use vstd::prelude::*;

use crate::tcp::congestion::{
    self, bound, initial_window, product, window_to_u32, window_to_usize,
};
use crate::time::Instant;

verus! {

/// The segment size that is assumed until one is negotiated.
pub const DEFAULT_MSS: u32 = 1024;

/// The state of a CUBIC controller.
#[derive(Debug, Clone, Copy, PartialEq, Eq, Structural)]
pub struct Cubic {
    /// The plateau of the curve: the window before the last loss.
    pub w_max: u32,
    /// The congestion window.
    pub cwnd: u32,
    /// The segment size.
    pub mss: u32,
    /// The window up to which slow start grows.
    pub ssthresh: u32,
    /// The largest receive window that the peer has advertised.
    pub rwnd: u32,
    /// The window at the last congestion event.
    pub cwnd_prior: u32,
    /// When the curve started, if it has.
    pub recovery_start: Option<Instant>,
    /// Set on a loss, cleared when new data is acknowledged.
    pub in_fast_recovery: bool,
    /// Set on a timeout, cleared when new data is acknowledged. A timeout meanwhile is for
    /// the same segment, and does not reduce `ssthresh` again.
    pub in_rto_recovery: bool,
    /// Since when nothing has been in flight, if that is so.
    pub idle_start: Option<Instant>,
}

/// What an acknowledgement calls for.
#[derive(Debug, Clone, Copy, PartialEq, Eq, Structural)]
pub enum AckStep {
    /// Nothing more.
    Settled,
    /// Recovery is over: the Reno estimate starts again from the window.
    LeftRecovery,
    /// The window is to follow the curve or the Reno estimate.
    Avoidance {
        /// How long the curve has run, in microseconds.
        elapsed: u64,
        /// How much was acknowledged, up to a segment.
        segment: u32,
        /// Whether the curve starts now: its offset is zero, and the Reno estimate starts
        /// from the window.
        fresh: bool,
    },
}

/// A controller that has seen nothing.
pub open spec fn fresh() -> Cubic {
    Cubic {
        w_max: 2048,
        cwnd: 2048,
        mss: 1024,
        ssthresh: u32::MAX,
        rwnd: 65536,
        cwnd_prior: 2048,
        recovery_start: None,
        in_fast_recovery: false,
        in_rto_recovery: false,
        idle_start: None,
    }
}

/// The controller once an idle period has ended: the start of the curve is moved on by as
/// long as nothing was in flight.
pub open spec fn idle_absorbed(c: Cubic, now: Instant) -> Cubic {
    match (c.idle_start, c.recovery_start) {
        (Some(idle), Some(start)) if now.micros >= idle.micros => Cubic {
            recovery_start: Some(
                Instant { micros: (start.micros + (now.micros - idle.micros)) as i64 },
            ),
            idle_start: None,
            ..c
        },
        _ => Cubic { idle_start: None, ..c },
    }
}

/// Whether the instants that the end of an idle period gives can be represented.
pub open spec fn idle_fits(c: Cubic, now: Instant) -> bool {
    match (c.idle_start, c.recovery_start) {
        (Some(idle), Some(start)) => now.micros >= idle.micros ==> start.micros + (now.micros
            - idle.micros) <= i64::MAX,
        _ => true,
    }
}

/// Whether the time since the start of the curve can be represented, once an idle period has
/// ended.
pub open spec fn elapsed_fits(c: Cubic, now: Instant) -> bool {
    idle_absorbed(c, now).recovery_start matches Some(start) ==> i64::MIN <= now.micros
        - start.micros <= i64::MAX
}

/// What was acknowledged, up to a segment.
pub open spec fn segment_of(c: Cubic, len: usize) -> u32 {
    if len <= c.mss {
        len as u32
    } else {
        c.mss
    }
}

/// The controller and what is called for once `len` bytes were acknowledged, leaving
/// `in_flight` in flight. Where none were, nothing but the idle period changes. The first new
/// data ends recovery, and takes the window back to `ssthresh`; below that, slow start opens
/// the window; from there on the curve does.
pub open spec fn acked(c: Cubic, now: Instant, len: usize, in_flight: usize) -> (Cubic, AckStep) {
    let awake = idle_absorbed(c, now);
    let noted = Cubic {
        idle_start: if in_flight == 0 {
            Some(now)
        } else {
            None
        },
        ..awake
    };
    let heard = Cubic { in_rto_recovery: false, ..noted };
    if len == 0 {
        (noted, AckStep::Settled)
    } else if c.in_fast_recovery {
        (
            Cubic { in_fast_recovery: false, cwnd: c.ssthresh, ..heard },
            AckStep::LeftRecovery,
        )
    } else if c.cwnd < c.ssthresh {
        (
            Cubic {
                cwnd: congestion::bounded(c.cwnd + segment_of(c, len), c.rwnd, c.mss),
                ..heard
            },
            AckStep::Settled,
        )
    } else {
        match heard.recovery_start {
            None => (
                Cubic { w_max: c.cwnd, recovery_start: Some(now), ..heard },
                AckStep::Avoidance { elapsed: 0, segment: segment_of(c, len), fresh: true },
            ),
            Some(start) => if now.micros < start.micros {
                (heard, AckStep::Settled)
            } else {
                (
                    heard,
                    AckStep::Avoidance {
                        elapsed: (now.micros - start.micros) as u64,
                        segment: segment_of(c, len),
                        fresh: false,
                    },
                )
            },
        }
    }
}

/// The controller once a loss was noted: the first one of an episode remembers the window,
/// lowers the plateau (further where it was not reached again), and cuts the window.
pub open spec fn lost(c: Cubic, now: Instant, reduced_flight: u32, reduced_plateau: u32) -> Cubic {
    let awake = Cubic { idle_start: None, ..c };
    if c.in_fast_recovery {
        awake
    } else {
        let two = congestion::stored(c.mss * 2);
        let ssthresh = if reduced_flight >= two {
            reduced_flight
        } else {
            two
        };
        let base = if ssthresh <= c.rwnd {
            ssthresh
        } else {
            c.rwnd
        };
        Cubic {
            cwnd_prior: c.cwnd,
            w_max: if c.cwnd < c.w_max {
                reduced_plateau
            } else {
                c.cwnd
            },
            ssthresh,
            cwnd: congestion::stored(base + congestion::stored(c.mss * 3)),
            recovery_start: Some(now),
            in_fast_recovery: true,
            ..awake
        }
    }
}

/// The controller once the retransmission timer fired: the window collapses to a segment, the
/// curve is given up, and the first timeout of an episode cuts `ssthresh`.
pub open spec fn timed_out(c: Cubic, in_flight: usize, reduced_flight: u32) -> Cubic {
    let two = congestion::stored(c.mss * 2);
    Cubic {
        ssthresh: if c.in_rto_recovery {
            c.ssthresh
        } else if reduced_flight >= two {
            reduced_flight
        } else {
            two
        },
        in_rto_recovery: true,
        cwnd: c.mss,
        cwnd_prior: congestion::stored(in_flight as int),
        recovery_start: None,
        in_fast_recovery: false,
        idle_start: None,
        ..c
    }
}

/// The controller once it followed the Reno estimate `w_est`.
pub open spec fn estimate_followed(c: Cubic, w_est: u32) -> Cubic {
    Cubic { cwnd: congestion::bounded(w_est as int, c.rwnd, c.mss), ..c }
}

/// By how much `segment` acknowledged bytes open a window of `cwnd` on the way to `target`: by
/// the share of the way that they are of the window.
pub open spec fn curve_step(cwnd: u32, target: u64, segment: u32) -> int {
    if target <= cwnd {
        0
    } else {
        (target - cwnd) * segment / (cwnd as int)
    }
}

/// The controller once it followed the curve towards `target`.
pub open spec fn curve_followed(c: Cubic, target: u64, segment: u32) -> Cubic {
    Cubic {
        cwnd: congestion::bounded(c.cwnd + curve_step(c.cwnd, target, segment), c.rwnd, c.mss),
        ..c
    }
}

/// The controller once a duplicate acknowledgement came in: in recovery it opens the window.
pub open spec fn dup_acked(c: Cubic, len: usize) -> Cubic {
    if c.in_fast_recovery {
        Cubic {
            cwnd: congestion::bounded(c.cwnd + congestion::stored(len as int), c.rwnd, c.mss),
            ..c
        }
    } else {
        c
    }
}

/// The controller once the segment size was set: the window is the initial window for it.
pub open spec fn mss_set(c: Cubic, mss: usize) -> Cubic {
    Cubic {
        mss: congestion::stored(mss as int),
        cwnd: congestion::iw10(congestion::stored(mss as int)),
        ..c
    }
}

/// The controller once the peer advertised a receive window: only a larger one counts.
pub open spec fn remote_window_set(c: Cubic, remote_window: usize) -> Cubic {
    Cubic {
        rwnd: if c.rwnd < congestion::stored(remote_window as int) {
            congestion::stored(remote_window as int)
        } else {
            c.rwnd
        },
        ..c
    }
}

/// Whether a segment fits in the window, and will after recovery.
pub open spec fn holds_a_segment(c: Cubic) -> bool {
    c.mss <= c.cwnd && c.mss <= c.ssthresh
}

impl Cubic {
    /// A controller that has seen nothing.
    pub fn new() -> (cubic: Cubic)
        ensures
            cubic == fresh(),
    {
        Cubic {
            w_max: DEFAULT_MSS * 2,
            cwnd: DEFAULT_MSS * 2,
            mss: DEFAULT_MSS,
            ssthresh: u32::MAX,
            rwnd: 64 * DEFAULT_MSS,
            cwnd_prior: DEFAULT_MSS * 2,
            recovery_start: None,
            in_fast_recovery: false,
            in_rto_recovery: false,
            idle_start: None,
        }
    }

    /// How many bytes may be in flight.
    pub fn window(&self) -> (window: usize)
        ensures
            window == self.cwnd,
    {
        window_to_usize(self.cwnd)
    }

    /// Ends an idle period, if there is one: its length does not count on the curve.
    pub fn absorb_idle(&mut self, now: Instant)
        requires
            idle_fits(*old(self), now),
        ensures
            *final(self) == idle_absorbed(*old(self), now),
    {
        if let (Some(idle), Some(start)) = (self.idle_start, self.recovery_start) {
            if now.reached(idle) {
                self.recovery_start = Some(start.after(now.since(idle)));
            }
        }
        self.idle_start = None;
    }

    /// Notes that `len` bytes were acknowledged, leaving `in_flight` in flight. The result
    /// says what the window is to follow, if that is not settled.
    pub fn on_ack(&mut self, now: Instant, len: usize, in_flight: usize) -> (step: AckStep)
        requires
            idle_fits(*old(self), now),
            elapsed_fits(*old(self), now),
        ensures
            (*final(self), step) == acked(*old(self), now, len, in_flight),
    {
        let segment: u32 = if len <= self.mss as usize {
            len as u32
        } else {
            self.mss
        };
        self.absorb_idle(now);
        if in_flight == 0 {
            self.idle_start = Some(now);
        }
        if len == 0 {
            return AckStep::Settled;
        }
        self.in_rto_recovery = false;
        if self.in_fast_recovery {
            self.in_fast_recovery = false;
            self.cwnd = self.ssthresh;
            return AckStep::LeftRecovery;
        }
        if self.cwnd < self.ssthresh {
            self.cwnd = bound(self.cwnd.saturating_add(segment), self.rwnd, self.mss);
            return AckStep::Settled;
        }
        match self.recovery_start {
            None => {
                self.w_max = self.cwnd;
                self.recovery_start = Some(now);
                AckStep::Avoidance { elapsed: 0, segment, fresh: true }
            },
            Some(start) => {
                let elapsed: i64 = now.micros - start.micros;
                if elapsed < 0 {
                    AckStep::Settled
                } else {
                    AckStep::Avoidance { elapsed: elapsed as u64, segment, fresh: false }
                }
            },
        }
    }

    /// Follows the Reno estimate `w_est`.
    pub fn follow_estimate(&mut self, w_est: u32)
        ensures
            *final(self) == estimate_followed(*old(self), w_est),
    {
        self.cwnd = bound(w_est, self.rwnd, self.mss);
    }

    /// Follows the curve towards `target`, by the share of the way that `segment`
    /// acknowledged bytes are of the window.
    pub fn follow_curve(&mut self, target: u64, segment: u32)
        requires
            old(self).cwnd > 0,
            target <= 2 * old(self).cwnd,
        ensures
            *final(self) == curve_followed(*old(self), target, segment),
    {
        let cwnd: u64 = self.cwnd as u64;
        let gap: u64 = if target <= cwnd {
            0
        } else {
            target - cwnd
        };
        proof {
            congestion::lemma_product_fits(gap as u32, segment);
            assert(gap * segment / (cwnd as int) <= segment) by (nonlinear_arith)
                requires
                    0 <= gap <= cwnd,
                    0 < cwnd,
                    0 <= segment,
            ;
        }
        let increment: u32 = (gap * (segment as u64) / cwnd) as u32;
        self.cwnd = bound(self.cwnd.saturating_add(increment), self.rwnd, self.mss);
    }

    /// Notes a duplicate acknowledgement, once a loss was noted: in recovery each opens the
    /// window.
    pub fn on_dup_ack(&mut self, len: usize)
        ensures
            *final(self) == dup_acked(*old(self), len),
    {
        if self.in_fast_recovery {
            self.cwnd =
            bound(self.cwnd.saturating_add(window_to_u32(len)), self.rwnd, self.mss);
        }
    }

    /// Notes that a segment was sent.
    pub fn post_transmit(&mut self, now: Instant)
        requires
            idle_fits(*old(self), now),
        ensures
            *final(self) == idle_absorbed(*old(self), now),
    {
        self.absorb_idle(now);
    }

    /// Notes that three duplicate acknowledgements showed a loss. `reduced_flight` is what
    /// was in flight, and `reduced_plateau` the window, each reduced by its factor. The
    /// result says whether the plateau was set, so that the offset of the curve is to be
    /// computed again.
    pub fn on_loss(&mut self, now: Instant, reduced_flight: u32, reduced_plateau: u32) -> (cut:
        bool)
        ensures
            *final(self) == lost(*old(self), now, reduced_flight, reduced_plateau),
            cut == !old(self).in_fast_recovery,
    {
        self.idle_start = None;
        if self.in_fast_recovery {
            return false;
        }
        self.cwnd_prior = self.cwnd;
        self.w_max =
        if self.cwnd < self.w_max {
            reduced_plateau
        } else {
            self.cwnd
        };
        self.ssthresh = self.reduced_threshold(reduced_flight);
        let base: u32 = if self.ssthresh <= self.rwnd {
            self.ssthresh
        } else {
            self.rwnd
        };
        self.cwnd = base.saturating_add(product(self.mss, 3));
        self.recovery_start = Some(now);
        self.in_fast_recovery = true;
        true
    }

    /// `reduced_flight`, but two segments at least.
    fn reduced_threshold(&self, reduced_flight: u32) -> (ssthresh: u32)
        ensures
            ssthresh == if reduced_flight >= congestion::stored(self.mss * 2) {
                reduced_flight
            } else {
                congestion::stored(self.mss * 2)
            },
    {
        let two: u32 = product(self.mss, 2);
        if reduced_flight >= two {
            reduced_flight
        } else {
            two
        }
    }

    /// Notes that the retransmission timer fired. `reduced_flight` is `in_flight` reduced by
    /// its factor.
    pub fn on_rto(&mut self, in_flight: usize, reduced_flight: u32)
        ensures
            *final(self) == timed_out(*old(self), in_flight, reduced_flight),
    {
        if !self.in_rto_recovery {
            self.ssthresh = self.reduced_threshold(reduced_flight);
            self.in_rto_recovery = true;
        }
        self.cwnd = self.mss;
        self.cwnd_prior = window_to_u32(in_flight);
        self.recovery_start = None;
        self.in_fast_recovery = false;
        self.idle_start = None;
    }

    /// Sets the segment size, and opens the window to the initial window for it.
    pub fn set_mss(&mut self, mss: usize)
        ensures
            *final(self) == mss_set(*old(self), mss),
    {
        let mss: u32 = window_to_u32(mss);
        self.mss = mss;
        self.cwnd = initial_window(mss);
    }

    /// Notes the receive window that the peer advertises: only a larger one counts.
    pub fn set_remote_window(&mut self, remote_window: usize)
        ensures
            *final(self) == remote_window_set(*old(self), remote_window),
    {
        let remote_window: u32 = window_to_u32(remote_window);
        if self.rwnd < remote_window {
            self.rwnd = remote_window;
        }
    }
}

/// A segment that acknowledges nothing leaves the window and the recovery as they are.
pub proof fn law_empty_ack_keeps_window(c: Cubic, now: Instant, in_flight: usize)
    ensures
        ({
            let (after, step) = acked(c, now, 0, in_flight);
            &&& step == AckStep::Settled
            &&& after.cwnd == c.cwnd
            &&& after.ssthresh == c.ssthresh
            &&& after.in_fast_recovery == c.in_fast_recovery
            &&& after.in_rto_recovery == c.in_rto_recovery
        }),
{
}

/// The first new data after a loss ends recovery with the window at `ssthresh`.
pub proof fn law_ack_ends_recovery(
    c: Cubic,
    loss_at: Instant,
    reduced_flight: u32,
    reduced_plateau: u32,
    now: Instant,
    len: usize,
    in_flight: usize,
)
    requires
        !c.in_fast_recovery,
        len > 0,
    ensures
        ({
            let cut = lost(c, loss_at, reduced_flight, reduced_plateau);
            let (after, step) = acked(cut, now, len, in_flight);
            &&& step == AckStep::LeftRecovery
            &&& !after.in_fast_recovery
            &&& after.cwnd == cut.ssthresh
        }),
{
}

/// A loss during recovery does not cut the window again.
pub proof fn law_loss_cuts_once(
    c: Cubic,
    first_at: Instant,
    first_flight: u32,
    first_plateau: u32,
    second_at: Instant,
    second_flight: u32,
    second_plateau: u32,
)
    ensures
        lost(
            lost(c, first_at, first_flight, first_plateau),
            second_at,
            second_flight,
            second_plateau,
        ) == lost(c, first_at, first_flight, first_plateau),
{
}

/// A timeout that follows another with no new data between does not reduce `ssthresh` again.
pub proof fn law_timeout_cuts_once(
    c: Cubic,
    first: usize,
    first_reduced: u32,
    second: usize,
    second_reduced: u32,
)
    ensures
        timed_out(timed_out(c, first, first_reduced), second, second_reduced).ssthresh
            == timed_out(c, first, first_reduced).ssthresh,
{
}

/// An idle period does not count on the curve: what had elapsed when it began has elapsed when
/// it ends.
pub proof fn law_idle_time_does_not_count(c: Cubic, idle: Instant, start: Instant, now: Instant)
    requires
        c.idle_start == Some(idle),
        c.recovery_start == Some(start),
        now.micros >= idle.micros,
        idle_fits(c, now),
    ensures
        idle_absorbed(c, now).recovery_start matches Some(moved) && now.micros - moved.micros
            == idle.micros - start.micros,
{
}

/// Following the curve opens the window by what was acknowledged at most.
pub proof fn law_curve_opens_by_what_was_acked(cwnd: u32, target: u64, segment: u32)
    requires
        0 < cwnd,
        target <= 2 * cwnd,
    ensures
        0 <= curve_step(cwnd, target, segment) <= segment,
{
    if target > cwnd {
        assert(0 <= (target - cwnd) * segment / (cwnd as int) <= segment) by (nonlinear_arith)
            requires
                0 < cwnd < target <= 2 * cwnd,
                0 <= segment,
        ;
    }
}

/// A fresh controller has room for a segment, and keeps it whatever happens; a new segment
/// size too leaves room for one, where `ssthresh` does.
pub proof fn law_window_holds_a_segment(
    c: Cubic,
    now: Instant,
    bytes: usize,
    in_flight: usize,
    reduced_flight: u32,
    reduced_plateau: u32,
    target: u64,
)
    requires
        holds_a_segment(c),
    ensures
        holds_a_segment(fresh()),
        holds_a_segment(acked(c, now, bytes, in_flight).0),
        holds_a_segment(estimate_followed(c, reduced_flight)),
        holds_a_segment(curve_followed(c, target, segment_of(c, bytes))),
        holds_a_segment(dup_acked(c, bytes)),
        holds_a_segment(idle_absorbed(c, now)),
        holds_a_segment(lost(c, now, reduced_flight, reduced_plateau)),
        holds_a_segment(timed_out(c, in_flight, reduced_flight)),
        holds_a_segment(remote_window_set(c, bytes)),
        bytes <= c.ssthresh ==> holds_a_segment(mss_set(c, bytes)),
{
}

/// The receive window that counts never shrinks.
pub proof fn law_receive_window_never_shrinks(c: Cubic, remote_window: usize)
    ensures
        remote_window_set(c, remote_window).rwnd >= c.rwnd,
{
}

/// In slow start an acknowledgement opens the window by what it acknowledges, up to a segment,
/// as far as the receive window goes, and the curve has no say.
pub proof fn law_slow_start_opens_by_what_was_acked(
    c: Cubic,
    now: Instant,
    len: usize,
    in_flight: usize,
)
    requires
        !c.in_fast_recovery,
        len > 0,
        c.mss <= c.cwnd < c.ssthresh,
        c.cwnd + c.mss <= c.rwnd,
    ensures
        ({
            let (after, step) = acked(c, now, len, in_flight);
            &&& step == AckStep::Settled
            &&& len <= c.mss ==> after.cwnd == c.cwnd + len
            &&& len >= c.mss ==> after.cwnd == c.cwnd + c.mss
            &&& after.ssthresh == c.ssthresh
            &&& after.w_max == c.w_max
        }),
{
}

/// From `ssthresh` on the window follows the curve. Where the curve has not started it starts
/// now, with the window as its plateau; otherwise it has run for the time since it started, less
/// what was spent idle.
pub proof fn law_avoidance_follows_the_curve(
    c: Cubic,
    now: Instant,
    len: usize,
    in_flight: usize,
)
    requires
        !c.in_fast_recovery,
        len > 0,
        c.ssthresh <= c.cwnd,
        c.idle_start is None,
    ensures
        ({
            let (after, step) = acked(c, now, len, in_flight);
            &&& after.cwnd == c.cwnd
            &&& c.recovery_start is None ==> {
                &&& step matches AckStep::Avoidance { elapsed, segment, fresh }
                &&& elapsed == 0 && fresh
                &&& segment <= len && segment <= c.mss && (segment == len || segment == c.mss)
                &&& after.w_max == c.cwnd
                &&& after.recovery_start == Some(now)
            }
            &&& c.recovery_start matches Some(start) ==> {
                &&& after.w_max == c.w_max
                &&& after.recovery_start == c.recovery_start
                &&& now.micros < start.micros ==> step == AckStep::Settled
                &&& 0 <= now.micros - start.micros <= u64::MAX ==> {
                    &&& step matches AckStep::Avoidance { elapsed, segment, fresh }
                    &&& elapsed == now.micros - start.micros && !fresh
                    &&& segment <= len && segment <= c.mss && (segment == len || segment == c.mss)
                }
            }
        }),
{
}

/// What is in flight after an acknowledgement says whether an idle period begins: it does, now,
/// exactly where nothing is. An acknowledgement, a transmission and a loss end the one before.
pub proof fn law_idle_begins_when_nothing_is_in_flight(
    c: Cubic,
    now: Instant,
    len: usize,
    in_flight: usize,
    reduced: u32,
    plateau: u32,
)
    ensures
        in_flight == 0 ==> acked(c, now, len, in_flight).0.idle_start == Some(now),
        in_flight > 0 ==> acked(c, now, len, in_flight).0.idle_start is None,
        idle_absorbed(c, now).idle_start is None,
        lost(c, now, reduced, plateau).idle_start is None,
        timed_out(c, in_flight, reduced).idle_start is None,
        c.idle_start is None ==> idle_absorbed(c, now) == c,
{
}

/// The first loss of an episode cuts `ssthresh` to the reduced flight, two segments at least, and
/// the window to three segments more than that, or than the receive window where that is less. It
/// keeps the window as it was, starts the curve, and sets its plateau to the window, or, where
/// the last plateau was not reached again, to the reduced one.
pub proof fn law_loss_cuts_and_starts_the_curve(
    c: Cubic,
    now: Instant,
    reduced_flight: u32,
    reduced_plateau: u32,
)
    requires
        !c.in_fast_recovery,
        c.mss * 3 <= u32::MAX,
    ensures
        ({
            let after = lost(c, now, reduced_flight, reduced_plateau);
            &&& after.ssthresh >= reduced_flight && after.ssthresh >= c.mss * 2
            &&& after.ssthresh == reduced_flight || after.ssthresh == c.mss * 2
            &&& after.ssthresh <= c.rwnd && after.ssthresh + c.mss * 3 <= u32::MAX ==> after.cwnd
                == after.ssthresh + c.mss * 3
            &&& c.rwnd < after.ssthresh && c.rwnd + c.mss * 3 <= u32::MAX ==> after.cwnd == c.rwnd
                + c.mss * 3
            &&& after.cwnd_prior == c.cwnd
            &&& after.recovery_start == Some(now)
            &&& after.in_fast_recovery
            &&& c.cwnd >= c.w_max ==> after.w_max == c.cwnd
            &&& c.cwnd < c.w_max ==> after.w_max == reduced_plateau
            &&& after.mss == c.mss && after.rwnd == c.rwnd
            &&& after.in_rto_recovery == c.in_rto_recovery
        }),
{
}

/// In recovery a duplicate acknowledgement opens the window by what it stands for; outside it
/// changes nothing.
pub proof fn law_dup_ack_opens_in_recovery(c: Cubic, len: usize)
    ensures
        !c.in_fast_recovery ==> dup_acked(c, len) == c,
        c.in_fast_recovery && c.mss <= c.cwnd && c.cwnd + len <= c.rwnd ==> dup_acked(c, len).cwnd
            == c.cwnd + len,
        dup_acked(c, len).ssthresh == c.ssthresh,
        dup_acked(c, len).in_fast_recovery == c.in_fast_recovery,
{
}

/// After a timeout the controller is in slow start from one segment, whatever it was in before,
/// and the curve is given up while its plateau is kept: new data opens the window by what it
/// acknowledges, up to a second segment.
pub proof fn law_timeout_restarts_slow_start(
    c: Cubic,
    in_flight: usize,
    reduced_flight: u32,
    now: Instant,
    len: usize,
    left: usize,
)
    requires
        len > 0,
        c.mss < timed_out(c, in_flight, reduced_flight).ssthresh,
        2 * c.mss <= c.rwnd,
    ensures
        ({
            let after = timed_out(c, in_flight, reduced_flight);
            let (next, step) = acked(after, now, len, left);
            &&& !after.in_fast_recovery
            &&& after.cwnd == c.mss
            &&& after.recovery_start is None
            &&& after.w_max == c.w_max
            &&& in_flight <= u32::MAX ==> after.cwnd_prior == in_flight
            &&& dup_acked(after, len) == after
            &&& step == AckStep::Settled
            &&& next.cwnd == c.mss + if len <= c.mss {
                len as int
            } else {
                c.mss as int
            }
            &&& !next.in_rto_recovery
            &&& next.recovery_start is None
        }),
{
}

/// The first timeout of an episode cuts `ssthresh` to the reduced flight, two segments at least.
/// New data ends the episode: the next timeout cuts again, by what is in flight then.
pub proof fn law_timeout_cuts_by_the_flight(
    c: Cubic,
    first: usize,
    first_reduced: u32,
    now: Instant,
    len: usize,
    left: usize,
    second: usize,
    second_reduced: u32,
)
    requires
        !c.in_rto_recovery,
        len > 0,
        c.mss * 2 <= u32::MAX,
    ensures
        ({
            let once = timed_out(c, first, first_reduced);
            let again = timed_out(acked(once, now, len, left).0, second, second_reduced);
            &&& once.ssthresh >= first_reduced && once.ssthresh >= c.mss * 2
            &&& once.ssthresh == first_reduced || once.ssthresh == c.mss * 2
            &&& again.ssthresh >= second_reduced && again.ssthresh >= c.mss * 2
            &&& again.ssthresh == second_reduced || again.ssthresh == c.mss * 2
        }),
{
}

/// Following the Reno estimate takes the window there, and following the curve takes it by the
/// share of the way that the acknowledged bytes are of the window, both within bounds: a whole
/// window of them goes the whole way. A target that was reached changes nothing.
pub proof fn law_window_follows(c: Cubic, w_est: u32, target: u64)
    requires
        0 < c.cwnd <= target <= 2 * c.cwnd,
        target <= c.rwnd,
        c.mss <= c.cwnd,
    ensures
        c.mss <= w_est <= c.rwnd ==> estimate_followed(c, w_est).cwnd == w_est,
        curve_followed(c, target, c.cwnd).cwnd == target,
        curve_followed(c, target, 0).cwnd == c.cwnd,
        curve_followed(c, c.cwnd as u64, c.mss).cwnd == c.cwnd,
        estimate_followed(c, w_est).ssthresh == c.ssthresh,
        curve_followed(c, target, c.mss).ssthresh == c.ssthresh,
{
    let gap = target - c.cwnd;
    let cwnd = c.cwnd as int;
    assert((gap * cwnd) / cwnd == gap) by (nonlinear_arith)
        requires
            cwnd > 0,
    ;
    assert((gap * 0) / cwnd == 0) by (nonlinear_arith)
        requires
            cwnd > 0,
    ;
}

/// More acknowledged bytes, and a farther target, take the window no less far along the curve,
/// and never past the target.
pub proof fn law_curve_step_is_a_share(cwnd: u32, target: u64, segment: u32)
    requires
        0 < cwnd < target,
        segment <= cwnd,
    ensures
        curve_step(cwnd, target, segment) * cwnd <= (target - cwnd) * segment,
        (curve_step(cwnd, target, segment) + 1) * cwnd > (target - cwnd) * segment,
        curve_step(cwnd, target, segment) <= target - cwnd,
{
    let way = (target - cwnd) * segment;
    let c = cwnd as int;
    let step = way / c;
    vstd::arithmetic::div_mod::lemma_fundamental_div_mod(way, c);
    assert(step * c <= way && (step + 1) * c > way && step <= target - cwnd) by (nonlinear_arith)
        requires
            way == c * step + way % c,
            0 <= way % c < c,
            way == (target - cwnd) * segment,
            0 <= segment <= c,
            c == cwnd,
            cwnd < target,
    ;
}

/// A segment size is taken over with the initial window for it, a larger receive window is taken
/// over, and nothing else changes.
pub proof fn law_limits_are_taken_over(c: Cubic, bytes: usize)
    ensures
        bytes <= u32::MAX ==> mss_set(c, bytes) == (Cubic {
            mss: bytes as u32,
            cwnd: mss_set(c, bytes).cwnd,
            ..c
        }),
        bytes <= u32::MAX ==> mss_set(c, bytes).cwnd == congestion::iw10(bytes as u32),
        c.rwnd < bytes <= u32::MAX ==> remote_window_set(c, bytes) == (Cubic {
            rwnd: bytes as u32,
            ..c
        }),
        bytes <= c.rwnd ==> remote_window_set(c, bytes) == c,
{
}

/// A new controller has a window of two segments, of 1024 bytes each. It is in slow start, no
/// curve runs, nothing is idle, and it has not met a loss or a timeout.
pub proof fn law_new_controller_is_in_slow_start(in_flight: usize)
    requires
        in_flight <= u32::MAX,
    ensures
        fresh().mss == 1024,
        fresh().cwnd == 2 * fresh().mss,
        fresh().w_max == fresh().cwnd,
        fresh().cwnd_prior == fresh().cwnd,
        fresh().rwnd == 64 * fresh().mss,
        fresh().ssthresh >= in_flight,
        fresh().recovery_start is None,
        fresh().idle_start is None,
        !fresh().in_fast_recovery && !fresh().in_rto_recovery,
{
}

/// What an event is not about stays as it was. New data ends every recovery, whatever began it;
/// a timeout or a loss ends an idle period.
pub proof fn law_events_keep_to_themselves(
    c: Cubic,
    now: Instant,
    bytes: usize,
    in_flight: usize,
    reduced: u32,
    plateau: u32,
    target: u64,
)
    ensures
        ({
            let (after, step) = acked(c, now, bytes, in_flight);
            &&& after.mss == c.mss && after.rwnd == c.rwnd && after.ssthresh == c.ssthresh
            &&& after.cwnd_prior == c.cwnd_prior
            &&& bytes > 0 ==> !after.in_fast_recovery && !after.in_rto_recovery
            &&& after.w_max == c.w_max || step is Avoidance && step->fresh && after.w_max == c.cwnd
            &&& !(step is Settled) && !(step is LeftRecovery) ==> after.cwnd == c.cwnd
        }),
        dup_acked(c, bytes) == (Cubic { cwnd: dup_acked(c, bytes).cwnd, ..c }),
        ({
            let after = lost(c, now, reduced, plateau);
            &&& after.mss == c.mss && after.rwnd == c.rwnd
            &&& after.in_fast_recovery && after.in_rto_recovery == c.in_rto_recovery
            &&& after.idle_start is None
            &&& c.in_fast_recovery ==> after == (Cubic { idle_start: None, ..c })
        }),
        ({
            let after = timed_out(c, in_flight, reduced);
            &&& after.mss == c.mss && after.rwnd == c.rwnd && after.w_max == c.w_max
            &&& !after.in_fast_recovery && after.in_rto_recovery
            &&& after.idle_start is None && after.recovery_start is None
            &&& in_flight <= u32::MAX ==> after.cwnd_prior == in_flight
        }),
        estimate_followed(c, reduced) == (Cubic { cwnd: estimate_followed(c, reduced).cwnd, ..c }),
        curve_followed(c, target, reduced) == (Cubic {
            cwnd: curve_followed(c, target, reduced).cwnd,
            ..c
        }),
        ({
            let after = mss_set(c, bytes);
            after == (Cubic { mss: after.mss, cwnd: after.cwnd, ..c })
        }),
        remote_window_set(c, bytes) == (Cubic { rwnd: remote_window_set(c, bytes).rwnd, ..c }),
{
}

} // verus!
