use smolnet::storage::assembler::Assembler;
use smolnet::tcp::sack::SackScoreboard;
use smolnet::wire::tcp::TcpSeqNumber;

const LOCAL_SEQ: i32 = 10000;

fn block(left: i32, right: i32) -> Option<(u32, u32)> {
    Some((left as u32, right as u32))
}

#[test]
fn ingest_bounds_ranges_to_transmitted_buffered_data() {
    let mut scoreboard = SackScoreboard::new();

    scoreboard.ingest(
        &[block(95, 106), block(118, 190), block(200, 210)],
        TcpSeqNumber(100),
        TcpSeqNumber(124),
        24,
    );

    assert_eq!(scoreboard.ranges(), [(0, 6), (18, 24)]);
}

#[test]
fn discard_acked_rebases_remaining_ranges() {
    let mut scoreboard = SackScoreboard::new();
    scoreboard.ingest(
        &[block(106, 112), block(118, 124), None],
        TcpSeqNumber(100),
        TcpSeqNumber(124),
        24,
    );

    scoreboard.discard_acked(6);

    assert_eq!(scoreboard.ranges(), [(0, 6), (12, 18)]);
}

#[test]
fn selective_walk_skips_and_clamps_sacked_ranges() {
    let mut scoreboard = SackScoreboard::new();
    scoreboard.ingest(
        &[block(106, 112), block(118, 124), None],
        TcpSeqNumber(100),
        TcpSeqNumber(124),
        24,
    );

    assert_eq!(scoreboard.advance_cursor(0), 0);
    assert_eq!(scoreboard.advance_cursor(6), 12);
    assert_eq!(scoreboard.advance_cursor(9), 12);
    assert_eq!(scoreboard.clamp_segment(0, 24), 6);
    assert_eq!(scoreboard.clamp_segment(12, 12), 6);
    assert_eq!(scoreboard.sacked_bytes_before(9), 3);
    assert_eq!(scoreboard.sacked_bytes_before(24), 12);
}

#[test]
fn sack_straddling_snd_nxt_is_trimmed_to_transmitted_data() {
    // Twelve bytes are queued, six of them transmitted.
    let una = TcpSeqNumber(LOCAL_SEQ + 1);
    let nxt = TcpSeqNumber(LOCAL_SEQ + 1 + 6);
    let mut scoreboard = SackScoreboard::new();
    scoreboard.ingest(
        &[block(LOCAL_SEQ + 1 + 3, LOCAL_SEQ + 1 + 12), None, None],
        una,
        nxt,
        12,
    );

    assert_eq!(scoreboard.ranges(), vec![(3, 6)]);
}

#[test]
fn sack_fin_sequence_space_does_not_become_a_data_range() {
    // Six bytes and a FIN are transmitted.
    let una = TcpSeqNumber(LOCAL_SEQ + 1);
    let nxt = TcpSeqNumber(LOCAL_SEQ + 1 + 7);
    let mut scoreboard = SackScoreboard::new();

    // The FIN consumes sequence space but has no byte in the buffer.
    scoreboard.ingest(
        &[block(LOCAL_SEQ + 1 + 6, LOCAL_SEQ + 1 + 7), None, None],
        una,
        nxt,
        6,
    );
    assert!(scoreboard.is_empty());

    // A block that covers the last byte and the FIN counts for the byte.
    scoreboard.ingest(
        &[block(LOCAL_SEQ + 1 + 5, LOCAL_SEQ + 1 + 7), None, None],
        una,
        nxt,
        6,
    );
    assert_eq!(scoreboard.ranges(), vec![(5, 6)]);
}

#[test]
fn test_sack_ingest_rejects_malformed_and_hostile_blocks() {
    // Four segments of six bytes are in flight.
    let una = TcpSeqNumber(LOCAL_SEQ + 1);
    let nxt = TcpSeqNumber(LOCAL_SEQ + 1 + 24);
    let mut scoreboard = SackScoreboard::new();

    // A pile of garbage: inverted, stale (below SND.UNA), entirely
    // beyond what we ever sent. None of it may panic or populate the
    // scoreboard.
    scoreboard.ingest(
        &[
            block(LOCAL_SEQ + 1 + 12, LOCAL_SEQ + 1 + 6),
            block(LOCAL_SEQ - 20, LOCAL_SEQ + 1),
            block(LOCAL_SEQ + 1 + 5000, LOCAL_SEQ + 9000),
        ],
        una,
        nxt,
        24,
    );
    assert!(scoreboard.is_empty());

    // A block straddling SND.UNA must be trimmed, not rejected, and a
    // block overrunning the buffered data must be clamped to it.
    scoreboard.ingest(
        &[
            block(LOCAL_SEQ - 5, LOCAL_SEQ + 1 + 6),
            block(LOCAL_SEQ + 1 + 18, LOCAL_SEQ + 1 + 90),
            None,
        ],
        una,
        nxt,
        24,
    );
    assert_eq!(scoreboard.ranges(), vec![(0, 6), (18, 24)]);

    // Scoreboard overflow: more disjoint ranges than the assembler can
    // track are silently dropped (advisory data), never an error.
    scoreboard.ingest(
        &[
            block(LOCAL_SEQ + 1 + 8, LOCAL_SEQ + 1 + 9),
            block(LOCAL_SEQ + 1 + 11, LOCAL_SEQ + 1 + 12),
            block(LOCAL_SEQ + 1 + 14, LOCAL_SEQ + 1 + 15),
        ],
        una,
        nxt,
        24,
    );
    assert!(!scoreboard.is_empty());
    assert_eq!(scoreboard.ranges(), vec![(0, 6), (8, 9), (11, 12), (18, 24)]);
}

#[test]
fn sack_ingest_works_across_sequence_wraparound() {
    // Thirteen bytes before the wrap, as in a connection that straddles it.
    let una = TcpSeqNumber(-13);
    let nxt = TcpSeqNumber(11);
    let mut scoreboard = SackScoreboard::new();
    scoreboard.ingest(&[block(-7, -1), block(5, 11), None], una, nxt, 24);
    assert_eq!(scoreboard.ranges(), vec![(6, 12), (18, 24)]);

    // The circle also wraps where sequence numbers change sign.
    let una = TcpSeqNumber(i32::MAX - 2);
    let nxt = TcpSeqNumber(i32::MIN + 7);
    let mut scoreboard = SackScoreboard::new();
    scoreboard.ingest(&[block(i32::MAX, i32::MIN + 3), None, None], una, nxt, 10);
    assert_eq!(scoreboard.ranges(), vec![(2, 6)]);
}

#[test]
fn sack_block_without_transmitted_data_counts_for_nothing() {
    let una = TcpSeqNumber(100);
    let mut scoreboard = SackScoreboard::new();
    scoreboard.ingest(&[block(90, 110), None, None], una, una, 10);
    assert!(scoreboard.is_empty());
}

#[test]
fn scoreboard_insert_and_clear() {
    let mut scoreboard = SackScoreboard::new();
    scoreboard.insert(4, 4);
    scoreboard.insert(8, 2);
    scoreboard.insert(20, 0);
    assert_eq!(scoreboard.ranges(), vec![(4, 10)]);
    assert!(!scoreboard.is_empty());
    scoreboard.clear();
    assert!(scoreboard.is_empty());
}

#[test]
fn assembler_joins_ranges_that_meet() {
    let mut assembler = Assembler::new();
    assert!(assembler.add(10, 5).is_ok());
    assert!(assembler.add(0, 5).is_ok());
    assert!(assembler.add(20, 5).is_ok());
    assert!(assembler.add(30, 5).is_ok());
    assert_eq!(assembler.iter_data(), vec![(0, 5), (10, 15), (20, 25), (30, 35)]);
    // A fifth range does not fit, and changes nothing.
    assert!(assembler.add(40, 5).is_err());
    assert_eq!(assembler.count(), 4);
    // One that joins others does.
    assert!(assembler.add(4, 17).is_ok());
    assert_eq!(assembler.iter_data(), vec![(0, 25), (30, 35)]);
    assert_eq!(assembler.range(1), (30, 35));
    assembler.shift_front(3);
    assert_eq!(assembler.iter_data(), vec![(0, 22), (27, 32)]);
    assembler.shift_front(22);
    assert_eq!(assembler.iter_data(), vec![(5, 10)]);
    assert!(!assembler.is_empty());
    assembler.clear();
    assert!(assembler.is_empty());
}
