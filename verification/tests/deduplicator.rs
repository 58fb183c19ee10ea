use accelerator::deduplicator::Deduplicator;

#[test]
fn test_sequential_packets() {
    let mut dedup = Deduplicator::new();
    for seq in 0..5000 {
        assert!(dedup.process_packet(seq), "Seq {} should be accepted", seq);
    }
    assert_eq!(dedup.total_received, 5000);
    assert_eq!(dedup.accepted_in_order, 5000);
    assert_eq!(dedup.duplicates_dropped, 0);
    assert_eq!(dedup.highest_seq(), Some(4999));
}

#[test]
fn test_exact_duplicates() {
    let mut dedup = Deduplicator::new();
    for seq in 0..100 {
        assert!(dedup.process_packet(seq));
        assert!(!dedup.process_packet(seq), "Duplicate seq {} must be dropped", seq);
        assert!(!dedup.process_packet(seq), "Second duplicate seq {} must be dropped", seq);
    }
    assert_eq!(dedup.total_received, 300);
    assert_eq!(dedup.accepted_in_order, 100);
    assert_eq!(dedup.duplicates_dropped, 200);
}

#[test]
fn test_out_of_order_within_window() {
    let mut dedup = Deduplicator::new();
    assert!(dedup.process_packet(100));
    for seq in (50..100).rev() {
        assert!(dedup.process_packet(seq), "Out-of-order seq {} should be accepted", seq);
        assert!(!dedup.process_packet(seq), "Duplicate of out-of-order seq {} must be dropped", seq);
    }
    assert_eq!(dedup.accepted_in_order, 1);
    assert_eq!(dedup.accepted_out_of_order, 50);
    assert_eq!(dedup.duplicates_dropped, 50);
}

#[test]
fn test_stale_packets_beyond_1024() {
    let mut dedup = Deduplicator::new();
    assert!(dedup.process_packet(2000));
    assert!(dedup.process_packet(977), "Seq 977 (diff 1023) should be within window");
    assert!(!dedup.process_packet(977), "Duplicate 977 dropped");
    assert!(!dedup.process_packet(976), "Seq 976 should be rejected as stale");
    assert!(!dedup.process_packet(500), "Seq 500 should be rejected as stale");
    assert_eq!(dedup.stale_dropped, 2);
}

#[test]
fn test_sequence_number_wrapping() {
    let mut dedup = Deduplicator::new();
    let start = u32::MAX - 20;
    for i in 0..50 {
        let seq = start.wrapping_add(i);
        assert!(dedup.process_packet(seq), "Seq {} should be accepted across wrap", seq);
        assert!(!dedup.process_packet(seq), "Duplicate across wrap must be dropped");
    }
    assert_eq!(dedup.accepted_in_order, 50);
    assert_eq!(dedup.duplicates_dropped, 50);
    assert_eq!(dedup.highest_seq(), Some(start.wrapping_add(49)));
}

#[test]
fn test_large_gap_forward() {
    let mut dedup = Deduplicator::new();
    assert!(dedup.process_packet(10));
    assert!(dedup.process_packet(2010));
    assert!(!dedup.process_packet(10));
    assert!(dedup.process_packet(2000));
    assert!(!dedup.process_packet(2000));
}

#[test]
fn test_backward_sequence_resync() {
    let mut dedup = Deduplicator::new();
    assert!(dedup.process_packet(221_726_729));
    assert!(dedup.process_packet(1), "Seq 1 after large jump backwards must trigger resync");
    assert!(dedup.process_packet(2), "Seq 2 accepted in order");
    assert!(!dedup.process_packet(1), "Seq 1 duplicate dropped");
    assert_eq!(dedup.highest_seq(), Some(2));
}

#[test]
fn resync_resets_counters() {
    let mut dedup = Deduplicator::new();
    assert!(dedup.process_packet(5000));
    assert!(!dedup.process_packet(5000));
    assert!(dedup.process_packet(100)); // lag 4900 > 2048
    assert_eq!(dedup.total_received, 0);
    assert_eq!(dedup.accepted_in_order, 1);
    assert_eq!(dedup.duplicates_dropped, 0);
    assert_eq!(dedup.highest_seq(), Some(100));
}

#[test]
fn lag_2048_is_stale_not_resync() {
    let mut dedup = Deduplicator::new();
    assert!(dedup.process_packet(3000));
    assert!(!dedup.process_packet(952)); // lag 2048
    assert_eq!(dedup.stale_dropped, 1);
    assert_eq!(dedup.highest_seq(), Some(3000));
    assert!(dedup.process_packet(951)); // lag 2049 resyncs
    assert_eq!(dedup.highest_seq(), Some(951));
}

#[test]
fn window_shift_keeps_seen_numbers() {
    let mut dedup = Deduplicator::new();
    assert!(dedup.process_packet(1000));
    assert!(dedup.process_packet(1070)); // shift by 70 crosses a word boundary
    assert!(!dedup.process_packet(1000));
    assert!(dedup.process_packet(1001));
    assert!(dedup.process_packet(1500)); // shift by 430
    assert!(!dedup.process_packet(1070));
    assert!(!dedup.process_packet(1001));
    assert!(dedup.process_packet(1002));
    assert_eq!(dedup.duplicates_dropped, 3);
}

#[test]
fn reset_forgets_everything() {
    let mut dedup = Deduplicator::default();
    assert!(dedup.process_packet(7));
    dedup.reset();
    assert_eq!(dedup.highest_seq(), None);
    assert_eq!(dedup.total_received, 0);
    assert!(dedup.process_packet(7));
}

#[test]
fn half_space_backwards_is_not_newer() {
    let mut dedup = Deduplicator::new();
    assert!(dedup.process_packet(0));
    // 0x8000_0000 ahead counts as behind by 2^31: a resync.
    assert!(dedup.process_packet(0x8000_0000));
    assert_eq!(dedup.accepted_in_order, 1);
    assert_eq!(dedup.total_received, 0);
    // 0xFFFF_FFFF is 0x7FFF_FFFF ahead of 0x8000_0000: newer.
    assert!(dedup.process_packet(0xFFFF_FFFF));
    assert_eq!(dedup.accepted_in_order, 2);
}

#[test]
fn counter_getters_match_fields() {
    let mut d = Deduplicator::new();
    assert!(d.process_packet(10));
    assert!(d.process_packet(8));
    assert!(!d.process_packet(8));
    assert!(!d.process_packet(10u32.wrapping_sub(1500)));
    assert_eq!(d.total_received(), d.total_received);
    assert_eq!(d.total_received(), 4);
    assert_eq!(d.accepted_in_order(), 1);
    assert_eq!(d.accepted_out_of_order(), 1);
    assert_eq!(d.duplicates_dropped(), 1);
    assert_eq!(d.stale_dropped(), 1);
    assert_eq!(d.stale_dropped(), d.stale_dropped);
}

#[test]
fn delivered_at_most_once_across_history() {
    let mut d = Deduplicator::new();
    assert!(d.process_packet(100));
    for seq in [101u32, 99, 100, 150, 100, 1000, 100, 1123, 100] {
        let accepted = d.process_packet(seq);
        if seq == 100 {
            assert!(!accepted);
        }
    }
    assert_eq!(d.duplicates_dropped(), 4);
}

#[test]
fn unseen_number_in_window_is_accepted() {
    let mut d = Deduplicator::new();
    for seq in [100u32, 101, 150, 1000, 1123] {
        assert!(d.process_packet(seq));
    }
    // 500 is 623 behind the highest and has never come: accepted out of order.
    let before = d.accepted_out_of_order();
    assert!(d.process_packet(500));
    assert_eq!(d.accepted_out_of_order(), before + 1);
    assert!(!d.process_packet(500));
}
