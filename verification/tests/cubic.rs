use smolnet::tcp::congestion::cubic::{AckStep, Cubic};
use smolnet::time::Instant;

const MSS: usize = 1024;
const BETA_CUBIC: f64 = 0.7;

fn ack(cubic: &mut Cubic, len: usize, now: Instant) -> AckStep {
    let in_flight = cubic.window().saturating_sub(MSS);
    cubic.on_ack(now, len, in_flight)
}

fn reduced(in_flight: usize) -> u32 {
    (in_flight as f64 * BETA_CUBIC) as u32
}

fn loss(cubic: &mut Cubic, now: Instant, in_flight: usize) -> bool {
    let plateau = (cubic.cwnd as f64 * (1.0 + BETA_CUBIC) / 2.0) as u32;
    cubic.on_loss(now, reduced(in_flight), plateau)
}

#[test]
fn cubic_fast_recovery_works() {
    let mut cubic = Cubic::new();
    cubic.set_mss(MSS);
    cubic.cwnd = (MSS * 32) as u32;

    // duplicate ACKs before fast recovery should do nothing
    let initial_cwnd = cubic.window();
    for _ in 0..3 {
        cubic.on_dup_ack(MSS);
    }
    assert_eq!(cubic.window(), initial_cwnd);

    // we enter fast recovery upon minor loss (three duplicate ACKs).
    // ssthresh = flight_size * beta_cubic, cwnd = ssthresh + 3*MSS, recovery_start = now.
    // w_max = cwnd since the prior w_max (initial 2*MSS) is below cwnd.
    let in_flight = initial_cwnd / 2;
    let expected_ssthresh = (in_flight as f64 * BETA_CUBIC) as usize;
    assert!(loss(&mut cubic, Instant::from_millis(0), in_flight));
    assert_eq!(cubic.ssthresh as usize, expected_ssthresh);
    assert_eq!(cubic.cwnd as usize, expected_ssthresh + 3 * MSS);
    assert_eq!(cubic.w_max as usize, initial_cwnd);
    assert!(cubic.in_fast_recovery);
    assert_eq!(cubic.recovery_start, Some(Instant::from_millis(0)));

    // in fast recovery, each dup-ACK should increase the cwnd by 1 MSS
    let initial_cwnd = cubic.window();
    for i in 0..3 {
        for _ in 0..3 {
            let initial_cwnd = cubic.window();
            cubic.on_dup_ack(MSS);
            assert_eq!(cubic.window(), initial_cwnd + MSS);
        }

        // multiple loss events (trip-dup-ack) should not trigger additional fast recovery reductions
        let initial_cwnd = cubic.window();
        let initial_ssthresh = cubic.ssthresh;
        let initial_w_max = cubic.w_max;
        assert!(!loss(&mut cubic, Instant::from_millis(i), initial_cwnd));
        assert_eq!(cubic.window(), initial_cwnd);
        assert_eq!(cubic.ssthresh, initial_ssthresh);
        assert_eq!(cubic.w_max, initial_w_max);
    }
    assert_eq!(cubic.window(), initial_cwnd + MSS * 9);

    // a non-duplicate ACK exits fast recovery and deflates cwnd to ssthresh
    assert_eq!(ack(&mut cubic, MSS, Instant::from_millis(10)), AckStep::LeftRecovery);
    assert_eq!(cubic.window(), cubic.ssthresh as usize);
    assert!(!cubic.in_fast_recovery);
}

#[test]
fn cubic_zero_length_ack_does_not_exit_fast_recovery() {
    let mut cubic = Cubic::new();
    cubic.set_mss(MSS);
    cubic.cwnd = (MSS * 32) as u32;

    let in_flight = cubic.cwnd as usize;
    loss(&mut cubic, Instant::from_millis(0), in_flight);
    assert!(cubic.in_fast_recovery);

    let cwnd = cubic.window();
    let ssthresh = cubic.ssthresh;

    // Accepted segments that acknowledge no new data (window updates,
    // data segments from the remote) must not end fast recovery or
    // change the window.
    ack(&mut cubic, 0, Instant::from_millis(1));
    assert!(cubic.in_fast_recovery);
    assert_eq!(cubic.window(), cwnd);
    assert_eq!(cubic.ssthresh, ssthresh);

    // The first ACK of new data still exits and deflates.
    ack(&mut cubic, MSS, Instant::from_millis(2));
    assert!(!cubic.in_fast_recovery);
    assert_eq!(cubic.window(), ssthresh as usize);
}

#[test]
fn cubic_repeated_rto_holds_ssthresh() {
    let mut cubic = Cubic::new();
    cubic.set_mss(MSS);
    cubic.cwnd = (MSS * 32) as u32;

    // First RTO reduces ssthresh based on the flight size.
    cubic.on_rto(MSS * 32, reduced(MSS * 32));
    let ssthresh = cubic.ssthresh;
    assert_eq!(ssthresh as usize, (32.0 * MSS as f64 * BETA_CUBIC) as usize);

    // Until new data is ACKed, further RTOs are retransmissions of the
    // same segment and must hold ssthresh constant instead of collapsing
    // it towards the minimum.
    cubic.on_rto(MSS, reduced(MSS));
    assert_eq!(cubic.ssthresh, ssthresh);

    // Once new data is ACKed, the next RTO is a fresh loss detection
    // and reduces ssthresh again.
    ack(&mut cubic, MSS, Instant::from_millis(2));
    cubic.on_rto(MSS * 4, reduced(MSS * 4));
    assert_eq!(cubic.ssthresh as usize, (4.0 * MSS as f64 * BETA_CUBIC) as usize);
}

#[test]
fn cubic_slow_start_works() {
    let mut cubic = Cubic::new();
    cubic.set_mss(MSS);
    cubic.cwnd = (MSS * 32) as u32;
    cubic.ssthresh = (MSS * 16) as u32;

    // we enter slow start upon major loss (an RTO)
    // window resets to MSS, ssthresh becomes a fraction of the inflight bytes,
    // recovery_start is cleared so any later CA uses a fresh epoch,
    // and w_max is preserved (RFC 9438 §4.8 defers it to the next CA stage).
    let w_max_before_rto = cubic.w_max;
    let inflight = cubic.window();
    cubic.on_rto(inflight, reduced(inflight));
    assert_eq!(cubic.ssthresh as usize, (inflight as f64 * BETA_CUBIC) as usize);
    assert_eq!(cubic.window(), MSS);
    assert!(!cubic.in_fast_recovery);
    assert_eq!(cubic.recovery_start, None);
    assert_eq!(cubic.w_max, w_max_before_rto);

    // slow start grows by at most the MSS per ack
    let initial_cwnd = cubic.window();
    for i in 0..10 {
        let initial_cwnd = cubic.window();
        let now = Instant::from_millis(i);
        ack(&mut cubic, MSS * 2, now);
        assert_eq!(cubic.window(), initial_cwnd + MSS);
    }
    assert_eq!(cubic.window(), initial_cwnd + MSS * 10);

    // slow start uses the number of ACKed bytes if they're less than the MSS
    let initial_cwnd = cubic.window();
    for i in 0..10 {
        let initial_cwnd = cubic.window();
        let now = Instant::from_millis(10 + i);
        ack(&mut cubic, MSS / 2, now);
        assert_eq!(cubic.window(), initial_cwnd + MSS / 2);
    }
    assert_eq!(cubic.window(), initial_cwnd + MSS / 2 * 10);

    // slow start transitions to congestion avoidance at ssthresh
    let initial_cwnd = cubic.window();
    cubic.ssthresh = (initial_cwnd + MSS) as u32;
    ack(&mut cubic, MSS, Instant::from_millis(30));
    assert_eq!(cubic.window(), initial_cwnd + MSS);
    assert_eq!(cubic.ssthresh as usize, initial_cwnd + MSS);
}

#[test]
fn cubic_progress_to_ca_via_rto() {
    let mut cubic = Cubic::new();
    cubic.set_mss(MSS);

    let mut time = 0;

    // slow start from default state
    let initial_cwnd = cubic.window();
    for _ in 0..30 {
        time += 1;
        ack(&mut cubic, MSS, Instant::from_millis(time));
    }
    assert_eq!(cubic.window(), initial_cwnd + MSS * 30);
    assert!(cubic.window() < cubic.ssthresh as usize);

    // rto: cwnd resets to MSS and sstresh reduces
    let rto_cwnd = cubic.window();
    cubic.on_rto(rto_cwnd, reduced(rto_cwnd));
    assert_eq!(cubic.window(), MSS);
    assert_eq!(cubic.ssthresh as usize, (rto_cwnd as f64 * BETA_CUBIC) as usize);

    // slow start again until cwnd reaches new ssthresh
    while cubic.window() < cubic.ssthresh as usize {
        time += 1;
        let initial_cwnd = cubic.window();
        assert_eq!(ack(&mut cubic, MSS, Instant::from_millis(time)), AckStep::Settled);
        assert_eq!(cubic.window(), initial_cwnd + MSS);
    }
    assert!(cubic.window() >= cubic.ssthresh as usize);
    assert!(cubic.window() < cubic.ssthresh as usize + MSS);

    // ca: first CA ACK starts a fresh epoch with W_max = cwnd and K = 0.
    time += 1;
    let cwnd_at_ca_entry = cubic.window();
    assert_eq!(
        ack(&mut cubic, MSS, Instant::from_millis(time)),
        AckStep::Avoidance { elapsed: 0, segment: MSS as u32, fresh: true }
    );
    assert_eq!(cubic.w_max as usize, cwnd_at_ca_entry);
    assert_eq!(cubic.recovery_start, Some(Instant::from_millis(time)));
    assert!(cubic.window() >= cwnd_at_ca_entry);
}

#[test]
fn cubic_progress_to_ca_via_loss() {
    let mut cubic = Cubic::new();
    cubic.set_mss(MSS);

    // slow start from default state
    let initial_cwnd = cubic.window();
    for i in 1..=30 {
        ack(&mut cubic, MSS, Instant::from_millis(i));
    }
    assert_eq!(cubic.window(), initial_cwnd + MSS * 30);
    assert!(cubic.window() < cubic.ssthresh as usize);

    // dup ACKs: ssthresh = cwnd * beta, cwnd = ssthresh + 3*MSS, recovery_start = now
    let loss_cwnd = cubic.window();
    let expected_ssthresh = (loss_cwnd as f64 * BETA_CUBIC) as usize;
    loss(&mut cubic, Instant::from_millis(31), loss_cwnd);
    assert_eq!(cubic.ssthresh as usize, expected_ssthresh);
    assert_eq!(cubic.window(), expected_ssthresh + 3 * MSS);
    assert!(cubic.in_fast_recovery);
    assert_eq!(cubic.recovery_start, Some(Instant::from_millis(31)));
    assert_eq!(cubic.cwnd_prior as usize, loss_cwnd);

    // inflate cwnd on each duplicate ACK
    for _ in 0..9 {
        let initial_cwnd = cubic.window();
        cubic.on_dup_ack(MSS);
        assert_eq!(cubic.window(), initial_cwnd + MSS);
    }

    // non-duplicate ACK deflates cwnd to ssthresh
    ack(&mut cubic, MSS, Instant::from_millis(41));
    assert_eq!(cubic.window(), expected_ssthresh);
    assert!(!cubic.in_fast_recovery);

    // ca: subsequent ACKs follow the cubic curve, eleven milliseconds into it
    let initial_cwnd = cubic.window();
    assert_eq!(
        ack(&mut cubic, MSS, Instant::from_millis(42)),
        AckStep::Avoidance { elapsed: 11_000, segment: MSS as u32, fresh: false }
    );
    cubic.follow_curve(initial_cwnd as u64 + 4096, MSS as u32);
    assert_eq!(cubic.window(), initial_cwnd + 4096 * MSS / initial_cwnd);
}

#[test]
fn fast_convergence_reduces_w_max() {
    let mut cubic = Cubic::new();
    cubic.set_mss(MSS);
    cubic.w_max = (MSS * 50) as u32;
    cubic.cwnd = (MSS * 30) as u32;

    // Loss while cwnd < w_max (a new competing flow) should pull w_max down.
    let w_max_prev = cubic.w_max;
    let in_flight = cubic.cwnd as usize;
    loss(&mut cubic, Instant::from_millis(0), in_flight);
    assert!(cubic.w_max < w_max_prev);
}

// RFC 6928: IW = min(10*MSS, max(2*MSS, 14600)). Opened on set_mss.
#[test]
fn cubic_iw10_on_set_mss() {
    let mut cubic = Cubic::new();
    cubic.set_remote_window(64 * 1024);
    cubic.set_mss(1460);
    assert_eq!(cubic.window(), 14_600);
}

#[test]
fn cubic_iw10_is_exact_for_small_segments_and_stale_windows() {
    for (mss, expected) in [(48, 480), (536, 5_360), (1_460, 14_600)] {
        let mut cubic = Cubic::new();
        cubic.cwnd = 100_000;
        cubic.set_mss(mss);
        assert_eq!(cubic.window(), expected, "MSS {mss}");
    }
}

// The CC's rwnd is a grow-only high-water mark: a smaller advertised
// window must not pull it (and thus cwnd) down. The live receive window is
// enforced at the socket layer, not here.
#[test]
fn cubic_rwnd_is_grow_only() {
    let mut cubic = Cubic::new();
    cubic.set_remote_window(64 * 1024);
    cubic.set_remote_window(4 * 1024);
    assert_eq!(cubic.rwnd, 64 * 1024);
}

#[test]
fn cubic_idle_time_does_not_count() {
    let mut cubic = Cubic::new();
    cubic.set_mss(MSS);
    cubic.ssthresh = 0;
    cubic.recovery_start = Some(Instant::from_millis(100));

    // Everything is acknowledged at 150 ms, and the next segment leaves at 400 ms.
    cubic.on_ack(Instant::from_millis(150), MSS, 0);
    assert_eq!(cubic.idle_start, Some(Instant::from_millis(150)));
    cubic.post_transmit(Instant::from_millis(400));
    assert_eq!(cubic.idle_start, None);
    assert_eq!(cubic.recovery_start, Some(Instant::from_millis(350)));
    assert_eq!(
        cubic.on_ack(Instant::from_millis(410), MSS, MSS),
        AckStep::Avoidance { elapsed: 60_000, segment: MSS as u32, fresh: false }
    );
}

#[test]
fn cubic_ignores_the_curve_before_it_starts() {
    let mut cubic = Cubic::new();
    cubic.set_mss(MSS);
    cubic.ssthresh = 0;
    cubic.recovery_start = Some(Instant::from_millis(100));
    assert_eq!(cubic.on_ack(Instant::from_millis(99), MSS, MSS), AckStep::Settled);
    assert_eq!(cubic.window(), 10 * MSS);
}

#[test]
fn cubic_follows_the_estimate_within_its_bounds() {
    let mut cubic = Cubic::new();
    cubic.set_mss(MSS);
    cubic.follow_estimate(30_000);
    assert_eq!(cubic.window(), 30_000);
    cubic.follow_estimate(u32::MAX);
    assert_eq!(cubic.window(), 64 * MSS);
    cubic.follow_estimate(1);
    assert_eq!(cubic.window(), MSS);
    // A target below the window does not close it.
    cubic.follow_curve(0, MSS as u32);
    assert_eq!(cubic.window(), MSS);
}

#[test]
fn cubic_window_holds_a_segment() {
    let mut cubic = Cubic::new();
    cubic.set_mss(1460);
    cubic.rwnd = 100;
    // However small the receive window, there is room for a segment.
    ack(&mut cubic, 1460, Instant::from_millis(1));
    assert_eq!(cubic.window(), 1460);
    cubic.on_rto(1, 0);
    assert_eq!(cubic.window(), 1460);
    assert_eq!(cubic.ssthresh, 2920);
    cubic.follow_estimate(1);
    assert_eq!(cubic.window(), 1460);
    cubic.follow_curve(2000, 1460);
    assert_eq!(cubic.window(), 1460);
}
