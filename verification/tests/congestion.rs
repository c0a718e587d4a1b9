use smolnet::tcp::congestion::no_control::NoControl;
use smolnet::tcp::congestion::reno::{Reno, DEFAULT_MSS};
use smolnet::tcp::congestion::{
    initial_window, window_to_u32, window_to_usize, AnyController, RttEstimator,
};
use smolnet::time::Instant;

const MSS: usize = 1024;

fn ack(reno: &mut Reno, len: usize, now: Instant) {
    reno.on_ack(now, len, reno.window().saturating_sub(MSS), &rtte())
}

fn rtte() -> RttEstimator {
    RttEstimator::default()
}

fn stored(window: usize) -> u32 {
    window_to_u32(window)
}

#[test]
fn initial_window_matches_rfc_6928_and_saturates() {
    for (mss, expected) in [
        (0, 0),
        (48, 480),
        (536, 5_360),
        (1_460, 14_600),
        (8_960, 17_920),
        (u32::MAX, u32::MAX),
    ] {
        assert_eq!(initial_window(mss), expected, "MSS {mss}");
    }
}

#[test]
fn managed_window_conversion_saturates_to_usize() {
    assert_eq!(window_to_usize(u32::MAX), u32::MAX as usize);
}

#[test]
fn no_control_reset_preserves_variant() {
    let mut controller = AnyController::NoControl(NoControl);

    controller.reset();

    assert!(matches!(controller, AnyController::NoControl(_)));
    assert_eq!(controller.window(), usize::MAX);
}

#[test]
fn reno_congestion_avoidance_works() {
    let mut reno = Reno::new();
    reno.set_mss(MSS);
    reno.cwnd = stored(MSS * 32);
    reno.ssthresh = stored(MSS * 16);

    // CA should grow at less than 1 MSS per ACK.
    for i in 0..10 {
        let initial_cwnd = reno.window();
        ack(&mut reno, MSS, Instant::from_millis(i));
        assert!(reno.window() < initial_cwnd + MSS);
    }

    // CA should cap at the receive window
    reno.cwnd = reno.rwnd - 1;
    ack(&mut reno, MSS, Instant::from_millis(20));
    assert_eq!(reno.window(), reno.rwnd as usize);
}

#[test]
fn reno_fast_recovery_works() {
    let mut reno = Reno::new();
    reno.set_mss(MSS);
    reno.cwnd = stored(MSS * 32);

    // duplicate ACKs before fast recovery should do nothing
    let initial_cwnd = reno.window();
    for _ in 0..3 {
        reno.on_dup_ack(Instant::from_millis(0), MSS, initial_cwnd);
    }
    assert_eq!(reno.window(), initial_cwnd);

    // we enter fast recovery upon minor loss (three duplicate ACKs)
    // window should become half the in-flight bytes
    // sstresh should be the reduced cwnd, advanced by MSS for the 3 dup ACKs
    let inflight = initial_cwnd / 2;
    reno.on_loss(Instant::from_millis(0), inflight);
    assert_eq!(reno.ssthresh as usize, inflight / 2);
    assert_eq!(reno.cwnd as usize, inflight / 2 + 3 * MSS);

    // in fast recovery, each dup-ACK should increase  the cwnd by 1 MSS
    let initial_cwnd = reno.window();
    for i in 0..3 {
        for _ in 0..3 {
            let initial_cwnd = reno.window();
            reno.on_dup_ack(Instant::from_millis(i), MSS, initial_cwnd);
            assert_eq!(reno.window(), initial_cwnd + MSS);
        }

        // multiple loss events (trip-dup-ack) should not trigger additional fast recovery reductions
        let initial_cwnd = reno.window();
        let initial_ssthresh = reno.ssthresh;
        reno.on_loss(Instant::from_millis(i), initial_cwnd);
        assert_eq!(reno.window(), initial_cwnd);
        assert_eq!(reno.ssthresh, initial_ssthresh);
    }
    assert_eq!(reno.window(), initial_cwnd + MSS * 9);

    // a non-duplicate ACK exits fast recovery and enters congestion avoidance
    ack(&mut reno, MSS, Instant::from_millis(10));
    assert_eq!(reno.window(), reno.ssthresh as usize);

    // CA is slower growth so should be less than 1MSS per ACK
    let initial_cwnd = reno.window();
    ack(&mut reno, MSS, Instant::from_millis(30));
    assert!(reno.window() < initial_cwnd + MSS);
}

#[test]
fn reno_slow_start_works() {
    let mut reno = Reno::new();
    reno.set_mss(MSS);
    reno.cwnd = stored(MSS * 32);
    reno.ssthresh = stored(MSS * 16);

    // we enter recovery upon major loss (an RTO)
    // window should become to 1MSS
    // sstresh should become half the in-flight bytes
    let initial_cwnd = reno.window();
    let inflight = initial_cwnd;
    reno.on_rto(Instant::from_millis(0), initial_cwnd);
    assert_eq!(reno.ssthresh as usize, inflight / 2);
    assert_eq!(reno.window(), MSS);

    // slow start grows by at most the MSS per ack
    let initial_cwnd = reno.window();
    for i in 0..10 {
        let initial_cwnd = reno.window();
        let now = Instant::from_millis(i);
        ack(&mut reno, MSS * 2, now);
        assert_eq!(reno.window(), initial_cwnd + MSS);
    }
    assert_eq!(reno.window(), initial_cwnd + MSS * 10);

    // slow start uses the number of ACKed bytes if they're less than the MSS
    let initial_cwnd = reno.window();
    for i in 0..10 {
        let initial_cwnd = reno.window();
        let now = Instant::from_millis(10 + i);
        ack(&mut reno, MSS / 2, now);
        assert_eq!(reno.window(), initial_cwnd + MSS / 2);
    }
    assert_eq!(reno.window(), initial_cwnd + MSS / 2 * 10);

    // slow start transitions to congestion avoidance at ssthresh
    let initial_cwnd = reno.window();
    reno.ssthresh = stored(initial_cwnd + MSS);
    ack(&mut reno, MSS, Instant::from_millis(30));
    assert_eq!(reno.window(), initial_cwnd + MSS);
    assert_eq!(reno.ssthresh as usize, initial_cwnd + MSS);

    // slow start transitions to congestion avoidance at ssthresh
    // CA is slower growth so should be less than 1MSS per ACK
    let initial_cwnd = reno.window();
    ack(&mut reno, MSS, Instant::from_millis(30));
    assert!(reno.window() < initial_cwnd + MSS);
}

#[test]
fn reno_progress_to_ca_via_rto() {
    let mut reno = Reno::new();
    reno.set_mss(MSS);

    let mut time = 0;

    // slow start from default state
    let initial_cwnd = reno.window();
    for _ in 0..30 {
        time += 1;
        ack(&mut reno, MSS, Instant::from_millis(time));
    }
    assert_eq!(reno.window(), initial_cwnd + MSS * 30);
    assert!(reno.window() < reno.ssthresh as usize);

    // rto: cwnd resets to MSS, ssthresh becomes half in-flight bytes
    let rto_cwnd = reno.window();
    reno.on_rto(Instant::from_millis(time), rto_cwnd);
    assert_eq!(reno.window(), MSS);
    assert_eq!(reno.ssthresh as usize, rto_cwnd / 2);

    // slow start again until cwnd reaches new ssthresh
    while reno.window() < reno.ssthresh as usize {
        time += 1;
        let initial_cwnd = reno.window();
        ack(&mut reno, MSS, Instant::from_millis(time));
        assert_eq!(reno.window(), initial_cwnd + MSS);
    }
    assert_eq!(reno.window(), reno.ssthresh as usize);

    // ca: each ack at or above ssthresh grows by less than MSS
    time += 1;
    let initial_cwnd = reno.window();
    ack(&mut reno, MSS, Instant::from_millis(time));
    assert!(reno.window() > initial_cwnd);
    assert!(reno.window() < initial_cwnd + MSS);
}

#[test]
fn reno_progress_to_ca_via_loss() {
    let mut reno = Reno::new();
    reno.set_mss(MSS);

    let mut time = 0;

    // slow start from default state
    let initial_cwnd = reno.window();
    for _ in 0..30 {
        time += 1;
        ack(&mut reno, MSS, Instant::from_millis(time));
    }
    assert_eq!(reno.window(), initial_cwnd + MSS * 30);
    assert!(reno.window() < reno.ssthresh as usize);

    // dup ACKs: cwnd and sstresh become half in-flight bytes AND cwnd gets advanced for each dup-ack it had received
    time += 1;
    let loss_cwnd = reno.window();
    let expected_ssthresh = loss_cwnd / 2;
    reno.on_loss(Instant::from_millis(time), loss_cwnd);
    assert_eq!(reno.ssthresh as usize, expected_ssthresh);
    assert_eq!(reno.window(), expected_ssthresh + 3 * MSS);
    assert!(reno.in_fast_recovery);

    // inflate cwnd until on each duplicate ACK
    for _ in 0..9 {
        time += 1;
        let initial_cwnd = reno.window();
        reno.on_dup_ack(Instant::from_millis(time), MSS, reno.cwnd as usize);
        assert_eq!(reno.window(), initial_cwnd + MSS);
    }

    // non-duplicate ACK deflates cwnd to ssthresh
    time += 1;
    ack(&mut reno, MSS, Instant::from_millis(time));
    assert_eq!(reno.window(), expected_ssthresh);
    assert!(!reno.in_fast_recovery);

    // ca: each ack at or above ssthresh grows by less than MSS
    time += 1;
    let initial_cwnd = reno.window();
    ack(&mut reno, MSS, Instant::from_millis(time));
    assert!(reno.window() > initial_cwnd);
    assert!(reno.window() < initial_cwnd + MSS);
}

#[test]
fn reno_zero_length_ack_does_not_exit_fast_recovery() {
    let mut reno = Reno::new();
    reno.set_mss(MSS);
    reno.cwnd = stored(MSS * 32);

    reno.on_loss(Instant::from_millis(0), reno.cwnd as usize);
    assert!(reno.in_fast_recovery);

    let cwnd = reno.window();
    let ssthresh = reno.ssthresh;

    // Accepted segments that acknowledge no new data (window updates,
    // data segments from the remote) must not end fast recovery or
    // change the window.
    ack(&mut reno, 0, Instant::from_millis(1));
    assert!(reno.in_fast_recovery);
    assert_eq!(reno.window(), cwnd);
    assert_eq!(reno.ssthresh, ssthresh);

    // The first ACK of new data still exits and deflates.
    ack(&mut reno, MSS, Instant::from_millis(2));
    assert!(!reno.in_fast_recovery);
    assert_eq!(reno.window(), ssthresh as usize);
}

#[test]
fn zero_length_ack_does_not_grow_window() {
    let mut reno = Reno::new();
    reno.set_mss(MSS);

    // Slow start.
    let cwnd = reno.window();
    ack(&mut reno, 0, Instant::from_millis(0));
    assert_eq!(reno.window(), cwnd);

    // Congestion avoidance.
    reno.cwnd = stored(MSS * 32);
    reno.ssthresh = stored(MSS * 16);
    ack(&mut reno, 0, Instant::from_millis(1));
    assert_eq!(reno.window(), MSS * 32);
}

#[test]
fn reno_repeated_rto_holds_ssthresh() {
    let mut reno = Reno::new();
    reno.set_mss(MSS);
    reno.cwnd = stored(MSS * 32);

    // First RTO halves ssthresh based on the flight size.
    reno.on_rto(Instant::from_millis(0), MSS * 32);
    assert_eq!(reno.ssthresh as usize, MSS * 16);
    assert_eq!(reno.window(), MSS);

    // Until new data is ACKed, further RTOs are retransmissions of the
    // same segment and must hold ssthresh constant instead of collapsing
    // it towards the minimum.
    reno.on_rto(Instant::from_millis(1), MSS);
    assert_eq!(reno.ssthresh as usize, MSS * 16);
    assert_eq!(reno.window(), MSS);

    // Once new data is ACKed, the next RTO is a fresh loss detection
    // and reduces ssthresh again.
    ack(&mut reno, MSS, Instant::from_millis(2));
    reno.on_rto(Instant::from_millis(3), MSS * 4);
    assert_eq!(reno.ssthresh as usize, MSS * 2);
}

#[test]
fn test_reno() {
    let remote_window = 64 * 1024;
    let now = Instant::from_millis(0);

    for i in 0..10 {
        for j in 0..9 {
            let mut reno = Reno::new();
            reno.set_mss(1480);

            // Set remote window.
            reno.set_remote_window(remote_window);

            reno.on_ack(now, 4096, reno.window(), &RttEstimator::default());

            let mut n = i;
            for _ in 0..j {
                n *= i;
            }

            if i & 1 == 0 {
                reno.on_rto(now, reno.window());
            } else {
                reno.on_loss(now, reno.window());
            }

            let elapsed = Instant::from_millis(1000);
            reno.on_ack(elapsed, n, reno.window(), &RttEstimator::default());

            let cwnd = reno.window();
            println!("Reno: elapsed = {:?}, cwnd = {}", elapsed, cwnd);

            assert!(cwnd >= reno.mss as usize);
            assert!(reno.window() <= remote_window);
        }
    }
}

#[test]
fn reno_min_cwnd() {
    let remote_window = 64 * 1024;
    let now = Instant::from_millis(0);

    let mut reno = Reno::new();
    reno.set_remote_window(remote_window);

    for _ in 0..100 {
        reno.on_rto(now, reno.window());
        assert!(reno.window() >= reno.mss as usize);
    }
}

#[test]
fn reno_set_rwnd() {
    let mut reno = Reno::new();
    reno.set_remote_window(64 * 1024 * 1024);

    println!("{reno:?}");
    assert_eq!(reno.rwnd, 64 * 1024 * 1024);
}

#[test]
fn reno_iw10_on_set_mss() {
    for (mss, expected) in [(48, 480), (536, 5_360), (1_460, 14_600)] {
        let mut reno = Reno::new();
        reno.set_mss(mss);
        assert_eq!(reno.window(), expected, "MSS {mss}");
    }
}

#[test]
fn reno_set_mss_replaces_stale_cwnd() {
    let mut reno = Reno::new();
    reno.cwnd = 100_000;

    reno.set_mss(536);

    assert_eq!(reno.window(), 5_360);
}

#[test]
fn reno_any_controller_reset_preserves_variant_and_clears_all_fields() {
    let mut controller = AnyController::Reno(Reno {
        cwnd: 10,
        mss: 11,
        ssthresh: 12,
        rwnd: 13,
        in_fast_recovery: true,
        in_rto_recovery: true,
    });

    controller.reset();

    let fresh = Reno::new();
    let reno = match &controller {
        AnyController::Reno(reno) => reno,
        _ => panic!("reset changed Reno variant"),
    };
    assert_eq!(reno.cwnd, fresh.cwnd);
    assert_eq!(reno.mss, fresh.mss);
    assert_eq!(reno.ssthresh, fresh.ssthresh);
    assert_eq!(reno.rwnd, fresh.rwnd);
    assert_eq!(reno.in_fast_recovery, fresh.in_fast_recovery);
    assert_eq!(reno.in_rto_recovery, fresh.in_rto_recovery);

    controller.set_mss(536);
    let reno = match &controller {
        AnyController::Reno(reno) => reno,
        _ => panic!("set_mss changed Reno variant"),
    };
    assert_eq!(reno.cwnd, 5_360);
    assert_eq!(reno.mss, 536);
    assert_eq!(reno.ssthresh, u32::MAX);
    assert_eq!(reno.rwnd, 64 * DEFAULT_MSS);
    assert!(!reno.in_fast_recovery);
    assert!(!reno.in_rto_recovery);
}

// The controller's rwnd is a grow-only high-water mark bounding cwnd; the
// live receive window is enforced at the socket layer, so a shrink here must
// not drag cwnd down.
#[test]
fn reno_rwnd_is_grow_only() {
    let mut reno = Reno::new();
    reno.set_remote_window(64 * 1024);
    reno.set_remote_window(4 * 1024);
    assert_eq!(reno.rwnd as usize, 64 * 1024);
}

#[test]
fn reno_opens_by_the_exact_share_of_a_segment() {
    let mut reno = Reno::new();
    reno.set_mss(MSS);
    reno.cwnd = 10 * MSS as u32;
    reno.ssthresh = 10 * MSS as u32;
    ack(&mut reno, MSS, Instant::from_millis(0));
    // 1024 * 1024 / 10240
    assert_eq!(reno.window(), 10 * MSS + 102);

    // A share of less than a byte counts as a byte.
    reno.mss = 10;
    reno.cwnd = 60_000;
    ack(&mut reno, 10, Instant::from_millis(1));
    assert_eq!(reno.window(), 60_001);

    // An empty window opens too.
    let mut empty = Reno::new();
    empty.mss = 0;
    empty.cwnd = 0;
    empty.ssthresh = 0;
    ack(&mut empty, 1, Instant::from_millis(2));
    assert_eq!(empty.window(), 1);
}

#[test]
fn reno_windows_saturate() {
    let mut reno = Reno::new();
    reno.set_remote_window(usize::MAX);
    assert_eq!(reno.rwnd, u32::MAX);
    reno.set_mss(usize::MAX);
    assert_eq!(reno.mss, u32::MAX);
    assert_eq!(reno.cwnd, u32::MAX);
    reno.on_loss(Instant::from_millis(0), usize::MAX);
    assert_eq!(reno.ssthresh, u32::MAX);
    assert_eq!(reno.cwnd, u32::MAX);
}

#[test]
fn any_controller_dispatches_to_its_variant() {
    let now = Instant::from_millis(0);
    let mut controller = AnyController::new();
    assert!(controller.manages_window());
    assert_eq!(controller.window(), 2048);
    controller.set_mss(MSS);
    assert_eq!(controller.window(), 10_240);
    controller.set_remote_window(128 * 1024);
    controller.pre_transmit(now);
    controller.post_transmit(now, MSS);
    controller.on_ack(now, MSS, MSS, &rtte());
    assert_eq!(controller.window(), 11_264);
    controller.on_loss(now, 20 * MSS);
    assert_eq!(controller.window(), 13 * MSS);
    controller.on_dup_ack(now, MSS, 20 * MSS);
    assert_eq!(controller.window(), 14 * MSS);
    controller.on_rto(now, 20 * MSS);
    assert_eq!(controller.window(), MSS);
    controller.reset();
    assert_eq!(controller, AnyController::Reno(Reno::new()));

    let mut none = AnyController::NoControl(NoControl);
    assert!(!none.manages_window());
    none.set_mss(MSS);
    none.set_remote_window(1);
    none.on_ack(now, 1, 1, &rtte());
    none.on_dup_ack(now, 1, 1);
    none.on_loss(now, 1);
    none.on_rto(now, 1);
    none.pre_transmit(now);
    none.post_transmit(now, 1);
    assert_eq!(none.window(), usize::MAX);
}
